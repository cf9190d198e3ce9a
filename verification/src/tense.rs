//! The tense resolver: which declared function a call's spelling names, and
//! in which tense.
//!
//! A function declared under a key with a delimiter, such as `t.aron`, is
//! called by the key without the delimiter (`taron`, present), with `ìy` in
//! its place (`tìyaron`, imminent) or with `ay` in its place (`tayaron`,
//! future). A key without a delimiter is called by itself alone.

use crate::binding::{FunDec, Tense};
use crate::scope::{closed, defined, depth_of, lookup, opened, visible, Layers, ScopeStack};
use crate::text::{chars_of, same_chars};
use std::rc::Rc;
use vstd::prelude::*;

verus! {

/// The character that marks, in a declared key, where the tense goes.
pub const DELIMITER: char = '.';

/// What stands in the delimiter's place in a call of the given tense.
pub open spec fn infix(tense: Tense) -> Seq<char> {
    match tense {
        Tense::Present => seq![],
        Tense::Imminent => seq!['\u{ec}', 'y'],
        Tense::Future => seq!['a', 'y'],
    }
}

/// The spelling of `key` in `tense`, where `at` is the place of its delimiter.
pub open spec fn conjugated(key: Seq<char>, at: int, tense: Tense) -> Seq<char> {
    key.take(at) + infix(tense) + key.skip(at + 1)
}

/// The tense in which `name` spells `key`, if it spells it at all. A key is
/// delimited at its first delimiter; what follows it belongs to the stem.
pub open spec fn key_tense(key: Seq<char>, name: Seq<char>) -> Option<Tense> {
    match key.index_of_first(DELIMITER) {
        None => if key == name {
            Some(Tense::Present)
        } else {
            None
        },
        Some(at) => if conjugated(key, at, Tense::Present) == name {
            Some(Tense::Present)
        } else if conjugated(key, at, Tense::Imminent) == name {
            Some(Tense::Imminent)
        } else if conjugated(key, at, Tense::Future) == name {
            Some(Tense::Future)
        } else {
            None
        },
    }
}

/// The place of a tense among the three: present, imminent, future.
pub open spec fn tense_order(tense: Tense) -> int {
    match tense {
        Tense::Present => 0,
        Tense::Imminent => 1,
        Tense::Future => 2,
    }
}

/// Zero for a key without delimiter, else one more than its delimiter's
/// place.
pub open spec fn delimiter_order(key: Seq<char>) -> int {
    match key.index_of_first(DELIMITER) {
        None => 0,
        Some(at) => at + 1,
    }
}

/// Whether `key` is visible and `name` spells it.
pub open spec fn answers<D>(layers: Layers<D>, key: Seq<char>, name: Seq<char>) -> bool {
    visible(layers, key) && key_tense(key, name) is Some
}

/// Among the keys that answer `name`, `key` is searched no later than
/// `other`: it stands in a layer further in, or in the same layer and then
/// in an earlier tense, or in the same tense and then with an earlier
/// delimiter (none at all being earliest).
pub open spec fn precedes<D>(
    layers: Layers<D>,
    name: Seq<char>,
    key: Seq<char>,
    other: Seq<char>,
) -> bool {
    let depth = depth_of(layers, key)->0;
    let other_depth = depth_of(layers, other)->0;
    let tense = tense_order(key_tense(key, name)->0);
    let other_tense = tense_order(key_tense(other, name)->0);
    ||| depth < other_depth
    ||| depth == other_depth && tense < other_tense
    ||| depth == other_depth && tense == other_tense && delimiter_order(key) <= delimiter_order(
        other,
    )
}

/// `key` answers `name`, and no key that answers it is searched earlier.
pub open spec fn answers_first<D>(layers: Layers<D>, key: Seq<char>, name: Seq<char>) -> bool {
    &&& answers(layers, key, name)
    &&& forall|other: Seq<char>| #[trigger]
        answers(layers, other, name) ==> precedes(layers, name, key, other)
}

/// The declaration that a call of `name` resolves to, with the tense of the
/// call: that of the first key, innermost layer first, that `name` spells.
pub open spec fn resolve<D>(layers: Layers<D>, name: Seq<char>) -> Option<(Tense, D)> {
    if exists|key: Seq<char>| answers_first(layers, key, name) {
        let key = choose|key: Seq<char>| answers_first(layers, key, name);
        Some((key_tense(key, name)->0, lookup(layers, key)->0))
    } else {
        None
    }
}

/// The place of the key's first delimiter.
pub fn find_delimiter(key: &Vec<char>) -> (found: Option<usize>)
    ensures
        match found {
            Some(at) => at < key.len() && key@.index_of_first(DELIMITER) == Some(at as int),
            None => key@.index_of_first(DELIMITER) is None,
        },
{
    let mut at: usize = 0;
    while at < key.len()
        invariant
            at <= key.len(),
            forall|i: int| 0 <= i < at ==> key[i] != DELIMITER,
        decreases key.len() - at,
    {
        if key[at] == DELIMITER {
            proof {
                key@.index_of_first_ensures(DELIMITER);
                assert(key@[at as int] == DELIMITER);
                assert(key@.contains(DELIMITER));
                let first = key@.index_of_first(DELIMITER)->0;
                assert(key@[first] == DELIMITER);
                assert(first == at);
            }
            return Some(at);
        }
        at += 1;
    }
    proof {
        key@.index_of_first_ensures(DELIMITER);
        if key@.contains(DELIMITER) {
            let at = choose|i: int| 0 <= i < key@.len() && key@[i] == DELIMITER;
            assert(key[at] != DELIMITER);
        }
    }
    None
}

/// Spells `key`, delimited at `at`, in the given tense.
pub fn conjugate(key: &Vec<char>, at: usize, tense: Tense) -> (spelling: Vec<char>)
    requires
        at < key.len(),
    ensures
        spelling@ == conjugated(key@, at as int, tense),
{
    let mut spelling: Vec<char> = Vec::new();
    let mut from: usize = 0;
    while from < at
        invariant
            from <= at < key.len(),
            spelling@ == key@.take(from as int),
        decreases at - from,
    {
        spelling.push(key[from]);
        from += 1;
        assert(spelling@ =~= key@.take(from as int));
    }
    match tense {
        Tense::Present => {},
        Tense::Imminent => {
            spelling.push('\u{ec}');
            spelling.push('y');
        },
        Tense::Future => {
            spelling.push('a');
            spelling.push('y');
        },
    }
    assert(spelling@ =~= key@.take(at as int) + infix(tense));
    from = at + 1;
    while from < key.len()
        invariant
            at < from <= key.len(),
            spelling@ == key@.take(at as int) + infix(tense) + key@.subrange(
                at + 1,
                from as int,
            ),
        decreases key.len() - from,
    {
        spelling.push(key[from]);
        from += 1;
        assert(spelling@ =~= key@.take(at as int) + infix(tense) + key@.subrange(
            at + 1,
            from as int,
        ));
    }
    assert(key@.subrange(at + 1, key.len() as int) =~= key@.skip(at + 1));
    spelling
}

/// How a key reads as a call's name: in which tense, and where its
/// delimiter stands (zero for none, else its place plus one).
pub struct Reading {
    pub tense: Tense,
    pub delimiter: usize,
}

/// Reads `name` as a spelling of `key`.
pub fn read_key(key: &Vec<char>, name: &Vec<char>) -> (reading: Option<Reading>)
    ensures
        match reading {
            Some(reading) => {
                &&& key_tense(key@, name@) == Some(reading.tense)
                &&& delimiter_order(key@) == reading.delimiter
            },
            None => key_tense(key@, name@) is None,
        },
{
    match find_delimiter(key) {
        None => if same_chars(key, name) {
            Some(Reading { tense: Tense::Present, delimiter: 0 })
        } else {
            None
        },
        Some(at) => {
            let delimiter: usize = at + 1;
            if same_chars(&conjugate(key, at, Tense::Present), name) {
                Some(Reading { tense: Tense::Present, delimiter })
            } else if same_chars(&conjugate(key, at, Tense::Imminent), name) {
                Some(Reading { tense: Tense::Imminent, delimiter })
            } else if same_chars(&conjugate(key, at, Tense::Future), name) {
                Some(Reading { tense: Tense::Future, delimiter })
            } else {
                None
            }
        },
    }
}

/// The place of a tense among the three.
fn order_of(tense: Tense) -> (order: u8)
    ensures
        order == tense_order(tense),
{
    match tense {
        Tense::Present => 0,
        Tense::Imminent => 1,
        Tense::Future => 2,
    }
}

/// Two keys that one name spells in the same tense and with the delimiter
/// at the same place are the same key.
pub proof fn lemma_reading_names_key(key: Seq<char>, other: Seq<char>, name: Seq<char>)
    requires
        key_tense(key, name) is Some,
        key_tense(other, name) == key_tense(key, name),
        delimiter_order(other) == delimiter_order(key),
    ensures
        other == key,
{
    key.index_of_first_ensures(DELIMITER);
    other.index_of_first_ensures(DELIMITER);
    match key.index_of_first(DELIMITER) {
        None => {},
        Some(at) => {
            let tense = key_tense(key, name)->0;
            let gap = infix(tense).len() as int;
            assert(conjugated(key, at, tense) == name);
            assert(conjugated(other, at, tense) == name);
            assert(other.len() == key.len()) by {
                assert(conjugated(key, at, tense).len() == key.len() - 1 + gap);
                assert(conjugated(other, at, tense).len() == other.len() - 1 + gap);
            }
            assert forall|i: int| 0 <= i < key.len() implies other[i] == key[i] by {
                if i < at {
                    assert(conjugated(key, at, tense)[i] == key[i]);
                    assert(conjugated(other, at, tense)[i] == other[i]);
                } else if i > at {
                    assert(conjugated(key, at, tense)[i - 1 + gap] == key[i]);
                    assert(conjugated(other, at, tense)[i - 1 + gap] == other[i]);
                }
            }
            assert(other =~= key);
        },
    }
}

/// At most one key answers a name first.
pub proof fn lemma_first_answer_unique<D>(
    layers: Layers<D>,
    name: Seq<char>,
    key: Seq<char>,
    other: Seq<char>,
)
    requires
        answers_first(layers, key, name),
        answers_first(layers, other, name),
    ensures
        other == key,
{
    assert(answers(layers, key, name));
    assert(answers(layers, other, name));
    assert(precedes(layers, name, key, other));
    assert(precedes(layers, name, other, key));
    lemma_reading_names_key(key, other, name);
}

/// Where a key is the first to answer a name, the call resolves to what the
/// key is bound to, in the tense in which the name spells the key.
pub proof fn lemma_resolve_first<D>(layers: Layers<D>, name: Seq<char>, key: Seq<char>)
    requires
        answers_first(layers, key, name),
    ensures
        resolve(layers, name) == Some((key_tense(key, name)->0, lookup(layers, key)->0)),
{
    let chosen = choose|key: Seq<char>| answers_first(layers, key, name);
    lemma_first_answer_unique(layers, name, key, chosen);
}

/// A visible name has a depth, and a binding.
pub proof fn lemma_visible_has_depth<D>(layers: Layers<D>, name: Seq<char>)
    ensures
        visible(layers, name) <==> depth_of(layers, name) is Some,
        visible(layers, name) <==> lookup(layers, name) is Some,
        depth_of(layers, name) matches Some(depth) ==> depth < layers.len(),
    decreases layers.len(),
{
    if layers.len() > 0 {
        let rest = layers.drop_last();
        lemma_visible_has_depth(rest, name);
        if layers.last().contains_key(name) {
            assert(layers[layers.len() - 1].contains_key(name));
        } else {
            if visible(layers, name) {
                let i = choose|i: int|
                    0 <= i < layers.len() && #[trigger] layers[i].contains_key(name);
                assert(rest[i].contains_key(name));
            }
            if visible(rest, name) {
                let i = choose|i: int| 0 <= i < rest.len() && #[trigger] rest[i].contains_key(name);
                assert(layers[i].contains_key(name));
            }
        }
    }
}

/// Where any key answers a name, one of them answers it first.
pub proof fn lemma_some_answer_is_first<D>(layers: Layers<D>, name: Seq<char>, key: Seq<char>)
    requires
        answers(layers, key, name),
    ensures
        exists|first: Seq<char>| answers_first(layers, first, name),
    decreases
            depth_of(layers, key)->0,
            tense_order(key_tense(key, name)->0),
            delimiter_order(key),
{
    lemma_visible_has_depth(layers, key);
    key.index_of_first_ensures(DELIMITER);
    if !answers_first(layers, key, name) {
        let other = choose|other: Seq<char>| #[trigger]
            answers(layers, other, name) && !precedes(layers, name, key, other);
        lemma_visible_has_depth(layers, other);
        other.index_of_first_ensures(DELIMITER);
        lemma_some_answer_is_first(layers, name, other);
    }
}

/// A call resolves exactly when some visible key is spelled by its name.
pub proof fn lemma_resolve_some<D>(layers: Layers<D>, name: Seq<char>)
    ensures
        resolve(layers, name) is Some <==> exists|key: Seq<char>| answers(layers, key, name),
{
    if exists|key: Seq<char>| answers(layers, key, name) {
        let key = choose|key: Seq<char>| answers(layers, key, name);
        lemma_some_answer_is_first(layers, name, key);
    }
    if resolve(layers, name) is Some {
        let key = choose|key: Seq<char>| answers_first(layers, key, name);
        assert(answers(layers, key, name));
    }
}

/// Tense coverage: a key with a delimiter is spelled by its three
/// conjugations, by each in its tense, and by no other name; a key without
/// one is spelled by itself alone.
pub proof fn lemma_tense_coverage(key: Seq<char>, name: Seq<char>)
    ensures
        match key.index_of_first(DELIMITER) {
            Some(at) => {
                &&& key_tense(key, conjugated(key, at, Tense::Present)) == Some(Tense::Present)
                &&& key_tense(key, conjugated(key, at, Tense::Imminent)) == Some(Tense::Imminent)
                &&& key_tense(key, conjugated(key, at, Tense::Future)) == Some(Tense::Future)
                &&& match key_tense(key, name) {
                    Some(tense) => name == conjugated(key, at, tense),
                    None => {
                        &&& name != conjugated(key, at, Tense::Present)
                        &&& name != conjugated(key, at, Tense::Imminent)
                        &&& name != conjugated(key, at, Tense::Future)
                    },
                }
            },
            None => key_tense(key, name) == if name == key {
                Some(Tense::Present)
            } else {
                None
            },
        },
{
    key.index_of_first_ensures(DELIMITER);
    match key.index_of_first(DELIMITER) {
        Some(at) => {
            let present = conjugated(key, at, Tense::Present);
            let imminent = conjugated(key, at, Tense::Imminent);
            let future = conjugated(key, at, Tense::Future);
            assert(present.len() == key.len() - 1);
            assert(imminent.len() == key.len() + 1);
            assert(future.len() == key.len() + 1);
            assert(imminent[at] == '\u{ec}');
            assert(future[at] == 'a');
        },
        None => {},
    }
}

/// A function declared in a nested layer answers, while the layer is open,
/// every name that spells its key, before any declaration of an outer
/// layer. Once the layer is closed, calls resolve as they did before it was
/// opened.
pub proof fn lemma_nested_function<D>(layers: Layers<D>, key: Seq<char>, dec: D, name: Seq<char>)
    requires
        layers.len() > 0,
    ensures
        key_tense(key, name) matches Some(tense) ==> resolve(
            defined(opened(layers), key, dec),
            name,
        ) == Some((tense, dec)),
        resolve(closed(defined(opened(layers), key, dec)), name) == resolve(layers, name),
{
    let inner = defined(opened(layers), key, dec);
    crate::scope::lemma_inner_hides_outer(layers, key, dec);
    if key_tense(key, name) is Some {
        assert(inner[inner.len() - 1].contains_key(key));
        assert forall|other: Seq<char>| #[trigger]
            answers(inner, other, name) implies precedes(inner, name, key, other) by {
            lemma_visible_has_depth(inner, other);
        }
        lemma_resolve_first(inner, name, key);
    }
}

/// A new layer changes no resolution: while nothing is declared in it, every
/// call resolves as it did before the layer was opened.
pub proof fn lemma_opening_keeps_resolution<D>(layers: Layers<D>, name: Seq<char>)
    ensures
        resolve(opened(layers), name) == resolve(layers, name),
{
    let inner = opened(layers);
    assert(inner.drop_last() =~= layers);
    assert forall|key: Seq<char>|
        visible(inner, key) == visible(layers, key) && lookup(inner, key) == lookup(layers, key)
            && (depth_of(layers, key) matches Some(depth) ==> depth_of(inner, key) == Some(
            depth + 1,
        )) by {
        lemma_visible_has_depth(inner, key);
        lemma_visible_has_depth(layers, key);
    }
    assert forall|key: Seq<char>|
        answers_first(inner, key, name) == answers_first(layers, key, name) by {
        lemma_visible_has_depth(layers, key);
        if answers(layers, key, name) {
            if answers_first(layers, key, name) {
                assert forall|other: Seq<char>| #[trigger]
                    answers(inner, other, name) implies precedes(inner, name, key, other) by {
                    assert(answers(layers, other, name));
                    lemma_visible_has_depth(layers, other);
                }
            }
            if answers_first(inner, key, name) {
                assert forall|other: Seq<char>| #[trigger]
                    answers(layers, other, name) implies precedes(layers, name, key, other) by {
                    assert(answers(inner, other, name));
                    lemma_visible_has_depth(layers, other);
                }
            }
        }
    }
    if exists|key: Seq<char>| answers_first(layers, key, name) {
        let key = choose|key: Seq<char>| answers_first(layers, key, name);
        assert(answers_first(inner, key, name));
        lemma_resolve_first(inner, name, key);
    } else if exists|key: Seq<char>| answers_first(inner, key, name) {
        let key = choose|key: Seq<char>| answers_first(inner, key, name);
        assert(answers_first(layers, key, name));
    }
}

/// Two spellings of one key lead to one declaration.
pub proof fn lemma_spellings_share_declaration<D>(
    layers: Layers<D>,
    key: Seq<char>,
    first: Seq<char>,
    second: Seq<char>,
)
    requires
        answers_first(layers, key, first),
        answers_first(layers, key, second),
    ensures
        resolve(layers, first) matches Some((_, dec)) && resolve(layers, second) matches Some(
            (_, other),
        ) && dec == other && lookup(layers, key) == Some(dec),
{
    lemma_resolve_first(layers, first, key);
    lemma_resolve_first(layers, second, key);
    lemma_visible_has_depth(layers, key);
}

/// The function that a call of `name` resolves to, and the tense of the
/// call. Of the declared keys that `name` spells, the one in the innermost
/// layer wins; within one layer an earlier tense wins, then an earlier
/// delimiter.
pub fn match_function(name: &str, funs: &ScopeStack<FunDec>) -> (found: Option<(Tense, Rc<FunDec>)>)
    requires
        funs.wf(),
    ensures
        match found {
            Some((tense, dec)) => resolve(funs@, name@) == Some((tense, (*dec)@)),
            None => resolve(funs@, name@) is None,
        },
{
    let all = funs.bindings();
    let wanted = chars_of(name);
    let mut best: Option<(usize, Reading)> = None;
    let mut at: usize = 0;
    while at < all.len()
        invariant
            at <= all.len(),
            wanted@ == name@,
            forall|i: int|
                0 <= i < all.len() ==> {
                    &&& lookup(funs@, (#[trigger] all[i]).name@) == Some((*all[i].dec)@)
                    &&& depth_of(funs@, all[i].name@) == Some(all[i].depth as nat)
                },
            match best {
                None => forall|i: int|
                    0 <= i < at ==> key_tense((#[trigger] all[i]).name@, name@) is None,
                Some((won, reading)) => {
                    &&& won < at
                    &&& key_tense(all[won as int].name@, name@) == Some(reading.tense)
                    &&& delimiter_order(all[won as int].name@) == reading.delimiter
                    &&& forall|i: int|
                        0 <= i < at && key_tense((#[trigger] all[i]).name@, name@) is Some
                            ==> precedes(funs@, name@, all[won as int].name@, all[i].name@)
                },
            },
        decreases all.len() - at,
    {
        let key = chars_of(all[at].name.as_str());
        match read_key(&key, &wanted) {
            None => {},
            Some(reading) => {
                let earlier = match &best {
                    None => true,
                    Some((won, held)) => {
                        let depth = all[at].depth;
                        let held_depth = all[*won].depth;
                        depth < held_depth || (depth == held_depth && (order_of(reading.tense)
                            < order_of(held.tense) || (order_of(reading.tense) == order_of(
                            held.tense,
                        ) && reading.delimiter < held.delimiter)))
                    },
                };
                if earlier {
                    best = Some((at, reading));
                }
            },
        }
        at += 1;
    }
    match best {
        None => {
            proof {
                if resolve(funs@, name@) is Some {
                    let key = choose|key: Seq<char>| answers_first(funs@, key, name@);
                    assert(answers(funs@, key, name@));
                    let i = choose|i: int| 0 <= i < all.len() && (#[trigger] all[i]).name@ == key;
                    assert(key_tense(all[i].name@, name@) is None);
                }
            }
            None
        },
        Some((won, reading)) => {
            proof {
                let key = all[won as int].name@;
                lemma_visible_has_depth(funs@, key);
                assert forall|other: Seq<char>| #[trigger]
                    answers(funs@, other, name@) implies precedes(funs@, name@, key, other) by {
                    let i = choose|i: int|
                        0 <= i < all.len() && (#[trigger] all[i]).name@ == other;
                    assert(key_tense(all[i].name@, name@) is Some);
                }
                lemma_resolve_first(funs@, name@, key);
            }
            Some((reading.tense, crate::scope::share(&all[won].dec)))
        },
    }
}

} // verus!
