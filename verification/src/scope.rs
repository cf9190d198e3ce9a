//! The scope stack: layers of name-to-declaration bindings, searched from the
//! innermost layer outwards.
//!
//! The layering itself is kept by `quickscope::ScopeMap`, which maps each name
//! to the index of its declaration in a list that the stack owns.

use quickscope::ScopeMap;
use std::rc::Rc;
use vstd::prelude::*;

verus! {

/// The bindings of a scope stack, outermost layer first.
pub type Layers<D> = Seq<Map<Seq<char>, D>>;

/// What `name` is bound to: the binding of the innermost layer that holds it.
pub open spec fn lookup<D>(layers: Layers<D>, name: Seq<char>) -> Option<D>
    decreases layers.len(),
{
    if layers.len() == 0 {
        None
    } else if layers.last().contains_key(name) {
        Some(layers.last()[name])
    } else {
        lookup(layers.drop_last(), name)
    }
}

/// How many layers below the innermost one `name` is first found.
pub open spec fn depth_of<D>(layers: Layers<D>, name: Seq<char>) -> Option<nat>
    decreases layers.len(),
{
    if layers.len() == 0 {
        None
    } else if layers.last().contains_key(name) {
        Some(0)
    } else {
        match depth_of(layers.drop_last(), name) {
            Some(d) => Some(d + 1),
            None => None,
        }
    }
}

/// Whether some layer binds `name`.
pub open spec fn visible<D>(layers: Layers<D>, name: Seq<char>) -> bool {
    exists|i: int| 0 <= i < layers.len() && #[trigger] layers[i].contains_key(name)
}

/// The layers after a new, empty innermost layer is opened.
pub open spec fn opened<D>(layers: Layers<D>) -> Layers<D> {
    layers.push(Map::empty())
}

/// The layers after the innermost layer is closed. The outermost layer stays.
pub open spec fn closed<D>(layers: Layers<D>) -> Layers<D> {
    if layers.len() > 1 {
        layers.drop_last()
    } else {
        layers
    }
}

/// The layers after `name` is bound to `dec` in the innermost layer, replacing
/// what that layer held under `name`.
pub open spec fn defined<D>(layers: Layers<D>, name: Seq<char>, dec: D) -> Layers<D> {
    layers.update(layers.len() - 1, layers.last().insert(name, dec))
}

/// A binding replaces what its layer held under the name, and nothing else.
pub proof fn lemma_define_replaces<D>(layers: Layers<D>, name: Seq<char>, dec: D)
    requires
        layers.len() > 0,
    ensures
        lookup(defined(layers, name, dec), name) == Some(dec),
        forall|other: Seq<char>|
            other != name ==> lookup(#[trigger] defined(layers, name, dec), other) == lookup(
                layers,
                other,
            ),
{
    let after = defined(layers, name, dec);
    assert(after.drop_last() =~= layers.drop_last());
}

/// A new layer hides nothing: every name is bound in it as it was bound
/// before the layer was opened.
pub proof fn lemma_opening_keeps_visible<D>(layers: Layers<D>, name: Seq<char>)
    ensures
        lookup(opened(layers), name) == lookup(layers, name),
{
    assert(opened(layers).drop_last() =~= layers);
}

/// Shadowing: a name declared in an inner layer hides the declaration that
/// an outer layer holds under the same name, and no other; once the inner
/// layer is closed, the stack holds what it held before it was opened.
pub proof fn lemma_inner_hides_outer<D>(layers: Layers<D>, name: Seq<char>, dec: D)
    requires
        layers.len() > 0,
    ensures
        lookup(defined(opened(layers), name, dec), name) == Some(dec),
        forall|other: Seq<char>|
            other != name ==> lookup(#[trigger] defined(opened(layers), name, dec), other)
                == lookup(layers, other),
        closed(defined(opened(layers), name, dec)) == layers,
{
    let inner = defined(opened(layers), name, dec);
    lemma_define_replaces(opened(layers), name, dec);
    assert(opened(layers).drop_last() =~= layers);
    assert(inner.drop_last() =~= layers);
}

/// `quickscope::ScopeMap`. What one holds is known through `scope_layers`
/// alone.
#[verifier::external_type_specification]
#[verifier::external_body]
#[verifier::reject_recursive_types(K)]
#[verifier::reject_recursive_types(V)]
#[verifier::reject_recursive_types(S)]
pub struct ExScopeMap<K, V, S: std::hash::BuildHasher>(quickscope::ScopeMap<K, V, S>);

/// The layers that a `quickscope::ScopeMap` holds, outermost first: for each
/// layer, the keys defined in it and the value each was last given there.
pub uninterp spec fn scope_layers(map: ScopeMap<String, usize>) -> Seq<Map<Seq<char>, usize>>;

/// `ScopeMap::new`: a map with its base layer and nothing in it.
#[verifier::external_body]
fn scope_new() -> (map: ScopeMap<String, usize>)
    ensures
        scope_layers(map) == seq![Map::<Seq<char>, usize>::empty()],
{
    ScopeMap::new()
}

/// `ScopeMap::push_layer`: adds an empty layer on top.
#[verifier::external_body]
fn scope_push_layer(map: &mut ScopeMap<String, usize>)
    ensures
        scope_layers(*final(map)) == opened(scope_layers(*old(map))),
{
    map.push_layer()
}

/// `ScopeMap::pop_layer`: removes the top layer with what was defined in it,
/// unless it is the base layer, and tells whether it did.
#[verifier::external_body]
fn scope_pop_layer(map: &mut ScopeMap<String, usize>) -> (popped: bool)
    ensures
        popped == (scope_layers(*old(map)).len() > 1),
        scope_layers(*final(map)) == closed(scope_layers(*old(map))),
{
    map.pop_layer()
}

/// `ScopeMap::define`: sets the key's value in the top layer, leaving the
/// layers below as they were.
#[verifier::external_body]
fn scope_define(map: &mut ScopeMap<String, usize>, key: String, value: usize)
    requires
        scope_layers(*old(map)).len() > 0,
    ensures
        scope_layers(*final(map)) == defined(scope_layers(*old(map)), key@, value),
{
    map.define(key, value)
}

/// `ScopeMap::get`: the key's value in the topmost layer that defines it.
#[verifier::external_body]
fn scope_get(map: &ScopeMap<String, usize>, key: &str) -> (value: Option<usize>)
    ensures
        value == lookup(scope_layers(*map), key@),
{
    map.get(key).copied()
}

/// `ScopeMap::depth_of`: how many layers down from the top the key is first
/// found, if any layer defines it.
#[verifier::external_body]
fn scope_depth_of(map: &ScopeMap<String, usize>, key: &str) -> (depth: Option<usize>)
    ensures
        match depth {
            Some(d) => depth_of(scope_layers(*map), key@) == Some(d as nat),
            None => depth_of(scope_layers(*map), key@) is None,
        },
{
    map.depth_of(key)
}

/// `ScopeMap::iter`: every key that some layer defines, once, with its
/// topmost value. The order is left open.
#[verifier::external_body]
fn scope_iter(map: &ScopeMap<String, usize>) -> (pairs: Vec<(String, usize)>)
    ensures
        forall|i: int|
            0 <= i < pairs.len() ==> lookup(scope_layers(*map), (#[trigger] pairs[i]).0@) == Some(
                pairs[i].1,
            ),
        forall|i: int, j: int|
            0 <= i < j < pairs.len() ==> (#[trigger] pairs[i]).0@ != (#[trigger] pairs[j]).0@,
        forall|key: Seq<char>|
            visible(scope_layers(*map), key) ==> exists|i: int|
                0 <= i < pairs.len() && (#[trigger] pairs[i]).0@ == key,
{
    map.iter().map(|(key, value)| (key.clone(), *value)).collect()
}

/// `Rc::clone`: another handle on the same shared value.
#[verifier::external_body]
pub(crate) fn share<D>(handle: &Rc<D>) -> (other: Rc<D>)
    ensures
        other == *handle,
{
    Rc::clone(handle)
}

/// The value behind a shared handle.
spec fn held<D: View>(handle: Rc<D>) -> D::V {
    (*handle)@
}

/// The layers of names-to-indices, read through the list of declarations.
spec fn bound_layers<D: View>(raw: Layers<usize>, decs: Seq<Rc<D>>) -> Layers<D::V> {
    Seq::new(
        raw.len(),
        |i: int|
            Map::new(
                |name: Seq<char>| raw[i].contains_key(name),
                |name: Seq<char>| (*decs[raw[i][name] as int])@,
            ),
    )
}

/// Every index that some layer holds is below `n`.
spec fn in_range(raw: Layers<usize>, n: nat) -> bool {
    forall|i: int, name: Seq<char>|
        0 <= i < raw.len() && #[trigger] raw[i].contains_key(name) ==> raw[i][name] < n
}

/// Reading through the declarations goes layer by layer.
proof fn lemma_bound_drop_last<D: View>(raw: Layers<usize>, decs: Seq<Rc<D>>)
    requires
        raw.len() > 0,
    ensures
        bound_layers(raw, decs).drop_last() == bound_layers(raw.drop_last(), decs),
        bound_layers(raw, decs).last().dom() == raw.last().dom(),
{
    assert(bound_layers(raw, decs).drop_last() =~= bound_layers(raw.drop_last(), decs));
    assert(bound_layers(raw, decs).last().dom() =~= raw.last().dom());
}

/// A name is found among the indices exactly when it is found among the
/// declarations, in the same layer, and leads there to the declaration at
/// its index.
proof fn lemma_bound_lookup<D: View>(raw: Layers<usize>, decs: Seq<Rc<D>>, name: Seq<char>)
    requires
        in_range(raw, decs.len()),
    ensures
        match lookup(raw, name) {
            Some(id) => id < decs.len() && lookup(bound_layers(raw, decs), name) == Some(
                (*decs[id as int])@,
            ),
            None => lookup(bound_layers(raw, decs), name) is None,
        },
        depth_of(bound_layers(raw, decs), name) == depth_of(raw, name),
        visible(bound_layers(raw, decs), name) == visible(raw, name),
        lookup(raw, name) is Some <==> depth_of(raw, name) is Some,
        lookup(raw, name) is Some <==> visible(raw, name),
    decreases raw.len(),
{
    let bound = bound_layers(raw, decs);
    if raw.len() > 0 {
        lemma_bound_drop_last(raw, decs);
        assert(bound.last().contains_key(name) == raw.last().contains_key(name));
        let rest = raw.drop_last();
        assert(in_range(rest, decs.len())) by {
            assert forall|i: int, n: Seq<char>|
                0 <= i < rest.len() && #[trigger] rest[i].contains_key(n) implies rest[i][n]
                < decs.len() by {
                assert(raw[i].contains_key(n));
            }
        }
        lemma_bound_lookup(rest, decs, name);
        if raw.last().contains_key(name) {
            assert(raw[raw.len() - 1].contains_key(name));
            assert(bound[raw.len() - 1].contains_key(name));
        } else {
            if visible(raw, name) {
                let i = choose|i: int| 0 <= i < raw.len() && #[trigger] raw[i].contains_key(name);
                assert(rest[i].contains_key(name));
            }
            if visible(rest, name) {
                let i = choose|i: int|
                    0 <= i < rest.len() && #[trigger] rest[i].contains_key(name);
                assert(raw[i].contains_key(name));
            }
            if visible(bound, name) {
                let i = choose|i: int|
                    0 <= i < bound.len() && #[trigger] bound[i].contains_key(name);
                assert(raw[i].contains_key(name));
            }
            if visible(raw, name) {
                let i = choose|i: int| 0 <= i < raw.len() && #[trigger] raw[i].contains_key(name);
                assert(bound[i].contains_key(name));
            }
        }
    }
}

/// Defining a name with the index of a declaration just added defines it
/// with that declaration, and leaves every other name as it was.
proof fn lemma_bound_define<D: View>(
    raw: Layers<usize>,
    decs: Seq<Rc<D>>,
    name: Seq<char>,
    id: usize,
    longer: Seq<Rc<D>>,
)
    requires
        raw.len() > 0,
        in_range(raw, decs.len()),
        id == decs.len(),
        longer.len() == decs.len() + 1,
        forall|i: int| 0 <= i < decs.len() ==> longer[i] == decs[i],
    ensures
        in_range(defined(raw, name, id), longer.len()),
        bound_layers(defined(raw, name, id), longer) == defined(
            bound_layers(raw, decs),
            name,
            (*longer.last())@,
        ),
{
    let top = raw.len() - 1;
    let after = defined(raw, name, id);
    assert forall|i: int, n: Seq<char>|
        0 <= i < after.len() && #[trigger] after[i].contains_key(n) implies after[i][n]
        < longer.len() by {
        if i != top || n != name {
            assert(raw[i].contains_key(n));
        }
    }
    let got = bound_layers(after, longer);
    let expected = defined(bound_layers(raw, decs), name, held(longer.last()));
    assert forall|i: int| 0 <= i < got.len() implies got[i] =~= expected[i] by {
        assert forall|n: Seq<char>| got[i].contains_key(n) implies got[i][n] == expected[i][n] by {
            if i != top || n != name {
                assert(raw[i].contains_key(n));
                assert(longer[raw[i][n] as int] == decs[raw[i][n] as int]);
            }
        }
    }
    assert(got =~= expected);
}

/// One visible binding of a scope stack.
pub struct Binding<D> {
    /// The name under which the declaration was defined.
    pub name: String,
    /// How many layers below the innermost one the binding stands.
    pub depth: usize,
    /// The declaration.
    pub dec: Rc<D>,
}

/// A stack of lexical layers that binds names to shared declarations.
pub struct ScopeStack<D: View> {
    names: ScopeMap<String, usize>,
    decs: Vec<Rc<D>>,
}

impl<D: View> View for ScopeStack<D> {
    type V = Layers<D::V>;

    closed spec fn view(&self) -> Layers<D::V> {
        bound_layers(scope_layers(self.names), self.decs@)
    }
}

impl<D: View> ScopeStack<D> {
    /// Every name of every layer leads to a declaration that the stack holds.
    pub closed spec fn names_bound(&self) -> bool {
        in_range(scope_layers(self.names), self.decs@.len())
    }

    /// The stack's invariant: it has its outermost layer, and every name of
    /// every layer leads to a declaration.
    pub open spec fn wf(&self) -> bool {
        &&& self@.len() > 0
        &&& self.names_bound()
    }

    /// A stack with its outermost layer and no binding.
    pub fn new() -> (stack: Self)
        ensures
            stack.wf(),
            stack@ == seq![Map::<Seq<char>, D::V>::empty()],
    {
        let stack = ScopeStack { names: scope_new(), decs: Vec::new() };
        assert(stack@ =~= seq![Map::<Seq<char>, D::V>::empty()]) by {
            assert(stack@[0] =~= Map::<Seq<char>, D::V>::empty());
        }
        stack
    }

    /// Opens a new innermost layer.
    pub fn push_layer(&mut self)
        requires
            old(self).wf(),
        ensures
            final(self).wf(),
            final(self)@ == opened(old(self)@),
    {
        let ghost before = scope_layers(self.names);
        scope_push_layer(&mut self.names);
        proof {
            let after = scope_layers(self.names);
            assert(in_range(after, self.decs@.len())) by {
                assert forall|i: int, n: Seq<char>|
                    0 <= i < after.len() && #[trigger] after[i].contains_key(n) implies after[i][n]
                    < self.decs@.len() by {
                    if i < before.len() {
                        assert(before[i].contains_key(n));
                    }
                }
            }
            assert(self@ =~= opened(old(self)@)) by {
                assert forall|i: int| 0 <= i < self@.len() implies self@[i] =~= opened(
                    old(self)@,
                )[i] by {}
            }
        }
    }

    /// Closes the innermost layer and forgets what was defined in it. The
    /// outermost layer is never closed: the result tells whether a layer was.
    pub fn pop_layer(&mut self) -> (popped: bool)
        requires
            old(self).wf(),
        ensures
            final(self).wf(),
            popped == (old(self)@.len() > 1),
            final(self)@ == closed(old(self)@),
    {
        let ghost before = scope_layers(self.names);
        let popped = scope_pop_layer(&mut self.names);
        proof {
            let after = scope_layers(self.names);
            assert(in_range(after, self.decs@.len())) by {
                assert forall|i: int, n: Seq<char>|
                    0 <= i < after.len() && #[trigger] after[i].contains_key(n) implies after[i][n]
                    < self.decs@.len() by {
                    assert(before[i].contains_key(n));
                }
            }
            assert(self@ =~= closed(old(self)@));
        }
        popped
    }

    /// Binds `name` to `dec` in the innermost layer. A binding that this layer
    /// already held under `name` is replaced; those of outer layers are
    /// hidden until the layer is closed.
    pub fn define(&mut self, name: String, dec: Rc<D>)
        requires
            old(self).wf(),
        ensures
            final(self).wf(),
            final(self)@ == defined(old(self)@, name@, (*dec)@),
    {
        let ghost raw = scope_layers(self.names);
        let ghost decs = self.decs@;
        let id: usize = self.decs.len();
        self.decs.push(dec);
        scope_define(&mut self.names, name, id);
        proof {
            lemma_bound_define(raw, decs, name@, id, self.decs@);
        }
    }

    /// The declaration that `name` is bound to, searching from the innermost
    /// layer outwards.
    pub fn lookup(&self, name: &str) -> (found: Option<Rc<D>>)
        requires
            self.wf(),
        ensures
            match found {
                Some(dec) => lookup(self@, name@) == Some((*dec)@),
                None => lookup(self@, name@) is None,
            },
    {
        proof {
            lemma_bound_lookup(scope_layers(self.names), self.decs@, name@);
        }
        match scope_get(&self.names, name) {
            Some(id) => Some(share(&self.decs[id])),
            None => None,
        }
    }

    /// Every visible binding, each name once, in no particular order.
    pub fn bindings(&self) -> (all: Vec<Binding<D>>)
        requires
            self.wf(),
        ensures
            forall|i: int|
                0 <= i < all.len() ==> {
                    &&& lookup(self@, (#[trigger] all[i]).name@) == Some((*all[i].dec)@)
                    &&& depth_of(self@, all[i].name@) == Some(all[i].depth as nat)
                },
            forall|i: int, j: int|
                0 <= i < j < all.len() ==> (#[trigger] all[i]).name@ != (#[trigger] all[j]).name@,
            forall|name: Seq<char>|
                visible(self@, name) ==> exists|i: int|
                    0 <= i < all.len() && (#[trigger] all[i]).name@ == name,
    {
        let ghost raw = scope_layers(self.names);
        let pairs = scope_iter(&self.names);
        let ghost listed = pairs@;
        let mut all: Vec<Binding<D>> = Vec::new();
        let mut at: usize = 0;
        while at < pairs.len()
            invariant
                at <= pairs.len(),
                pairs@ == listed,
                raw == scope_layers(self.names),
                in_range(raw, self.decs@.len()),
                all.len() == at,
                forall|i: int|
                    0 <= i < listed.len() ==> lookup(raw, (#[trigger] listed[i]).0@) == Some(
                        listed[i].1,
                    ),
                forall|i: int|
                    0 <= i < at ==> {
                        &&& (#[trigger] all[i]).name@ == listed[i].0@
                        &&& lookup(self@, all[i].name@) == Some((*all[i].dec)@)
                        &&& depth_of(self@, all[i].name@) == Some(all[i].depth as nat)
                    },
            decreases pairs.len() - at,
        {
            let name = pairs[at].0.clone();
            let id = pairs[at].1;
            proof {
                lemma_bound_lookup(raw, self.decs@, name@);
            }
            let depth = match scope_depth_of(&self.names, name.as_str()) {
                Some(depth) => depth,
                None => unreached(),
            };
            let dec = share(&self.decs[id]);
            all.push(Binding { name, depth, dec });
            at += 1;
        }
        proof {
            assert forall|name: Seq<char>| visible(self@, name) implies exists|i: int|
                0 <= i < all.len() && (#[trigger] all[i]).name@ == name by {
                lemma_bound_lookup(raw, self.decs@, name);
                let i = choose|i: int| 0 <= i < listed.len() && (#[trigger] listed[i]).0@ == name;
                assert(all[i].name@ == name);
            }
        }
        all
    }
}

} // verus!
