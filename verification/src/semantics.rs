//! What binding means: the bound tree of a syntax tree and the scopes that
//! binding leaves behind, as mathematical functions of the tree and of the
//! scopes in which binding starts.

use crate::binding::{ExprView, FunDecView, StatementView, VarDecView};
use crate::error::error::{error_at, ErrorKind};
use crate::error::span::Span;
use crate::error::trace::{Frames, Stage};
use crate::parsing::{texts_view, AyNode, Expr, Statement};
use crate::scope::{closed, defined, lookup, opened, Layers};
use crate::tense::{answers_first, key_tense, resolve};
use vstd::prelude::*;

verus! {

/// The two scope stacks of a traversal: variables and functions are named
/// apart and never collide.
pub struct Scopes {
    pub vars: Layers<VarDecView>,
    pub funs: Layers<FunDecView>,
}

/// The scopes in which the binding of a compilation unit starts: one layer
/// each, nothing declared.
pub open spec fn initial_scopes() -> Scopes {
    Scopes { vars: seq![Map::empty()], funs: seq![Map::empty()] }
}

/// The scopes with a new innermost layer in both stacks.
pub open spec fn entered(scopes: Scopes) -> Scopes {
    Scopes { vars: opened(scopes.vars), funs: opened(scopes.funs) }
}

/// The scopes with the innermost layer of both stacks closed.
pub open spec fn left(scopes: Scopes) -> Scopes {
    Scopes { vars: closed(scopes.vars), funs: closed(scopes.funs) }
}

/// The layers after each of `names`, in order, is bound to `dec` in the
/// innermost layer.
pub open spec fn defined_all<D>(layers: Layers<D>, names: Seq<Seq<char>>, dec: D) -> Layers<D>
    decreases names.len(),
{
    if names.len() == 0 {
        layers
    } else {
        defined(defined_all(layers, names.drop_last(), dec), names.last(), dec)
    }
}

/// The message of an unresolved variable.
pub open spec fn unresolved_variable(name: Seq<char>) -> Seq<char> {
    "no variable is declared under the name "@ + name
}

/// The message of an unresolved function.
pub open spec fn unresolved_function(name: Seq<char>) -> Seq<char> {
    "no declared function is spelled "@ + name
}

/// The message of an arity mismatch.
pub open spec fn arity_mismatch() -> Seq<char> {
    "the declaration has not as many values as names"@
}

/// The message of a frame that gives the context of a failure.
pub open spec fn enclosing() -> Seq<char> {
    "while binding this"@
}

/// The trace of a failure of the given kind at `span`.
pub open spec fn failure(kind: ErrorKind, span: Span, message: Seq<char>) -> Frames {
    seq![(Stage::Binding, error_at(Some(kind), span, message))]
}

/// A trace with one more frame: the node at `span`, inside which it arose.
pub open spec fn within(frames: Frames, span: Span) -> Frames {
    frames.push((Stage::Binding, error_at(None, span, enclosing())))
}

/// The bound expression of an expression, or the trace of the first failure.
///
/// An identifier becomes a reference to the variable declaration that its
/// name is bound to. A call has its arguments bound first and then becomes a
/// reference to the function that its name resolves to, with the tense of
/// the spelling. Numbers and strings stay as they are.
pub open spec fn bind_expr(node: AyNode<Expr>, scopes: Scopes) -> Result<AyNode<ExprView>, Frames>
    decreases node, 0nat,
{
    match node.inner {
        Expr::Ident(name) => match lookup(scopes.vars, name@) {
            Some(dec) => Ok(AyNode { span: node.span, inner: ExprView::Var(dec) }),
            None => Err(
                failure(ErrorKind::UnresolvedVariable, node.span, unresolved_variable(name@)),
            ),
        },
        Expr::FunCall { name, args } => match bind_exprs(args@, scopes) {
            Err(frames) => Err(within(frames, node.span)),
            Ok(bound) => match resolve(scopes.funs, name@) {
                Some((tense, dec)) => Ok(
                    AyNode {
                        span: node.span,
                        inner: ExprView::FunCall { tense, dec, name: name@, args: bound },
                    },
                ),
                None => Err(
                    failure(ErrorKind::UnresolvedFunction, node.span, unresolved_function(name@)),
                ),
            },
        },
        Expr::Number(value) => Ok(AyNode { span: node.span, inner: ExprView::Number(value) }),
        Expr::String(text) => Ok(AyNode { span: node.span, inner: ExprView::String(text@) }),
        Expr::Negated(inner) => match bind_expr(*inner, scopes) {
            Err(frames) => Err(within(frames, node.span)),
            Ok(bound) => Ok(
                AyNode { span: node.span, inner: ExprView::Negated(Box::new(bound)) },
            ),
        },
    }
}

/// The bound expressions of a list, each bound in the same scopes, or the
/// trace of the first of them that fails.
pub open spec fn bind_exprs(nodes: Seq<AyNode<Expr>>, scopes: Scopes) -> Result<
    Seq<AyNode<ExprView>>,
    Frames,
>
    decreases nodes, 0nat,
{
    if nodes.len() == 0 {
        Ok(Seq::empty())
    } else {
        match bind_exprs(nodes.drop_last(), scopes) {
            Err(frames) => Err(frames),
            Ok(bound) => match bind_expr(nodes.last(), scopes) {
                Err(frames) => Err(frames),
                Ok(last) => Ok(bound.push(last)),
            },
        }
    }
}

/// The scopes that binding a statement leaves, and its bound statement or
/// the trace of the first failure.
///
/// A variable declaration has its values bound first, in scopes that do not
/// yet hold its names; then each name is bound to it in the innermost layer.
/// A function declaration has its body bound in a layer of its own and is
/// then bound to its key in the layer that the declaration stands in. The
/// branches of an `if` and the body of a loop are each bound in a layer of
/// their own.
pub open spec fn bind_statement(node: AyNode<Statement>, scopes: Scopes) -> (
    Scopes,
    Result<AyNode<StatementView>, Frames>,
)
    decreases node, 0nat,
{
    match node.inner {
        Statement::VarDec { names, values } => match bind_exprs(values@, scopes) {
            Err(frames) => (scopes, Err(within(frames, node.span))),
            Ok(bound) => if names@.len() != values@.len() {
                (scopes, Err(failure(ErrorKind::ArityMismatch, node.span, arity_mismatch())))
            } else {
                let dec = VarDecView { names: texts_view(names@), values: bound };
                (
                    Scopes { vars: defined_all(scopes.vars, dec.names, dec), funs: scopes.funs },
                    Ok(AyNode { span: node.span, inner: StatementView::VarDec(dec) }),
                )
            },
        },
        Statement::FunDec { name, args, body } => {
            let (after, bound) = bind_scoped(body@, scopes);
            match bound {
                Err(frames) => (after, Err(within(frames, node.span))),
                Ok(body) => {
                    let dec = FunDecView { name: name@, args: texts_view(args@), body };
                    (
                        Scopes { vars: after.vars, funs: defined(after.funs, name@, dec) },
                        Ok(AyNode { span: node.span, inner: StatementView::FunDec(dec) }),
                    )
                },
            }
        },
        Statement::Expr(expr) => match bind_expr(expr, scopes) {
            Err(frames) => (scopes, Err(within(frames, node.span))),
            Ok(bound) => (
                scopes,
                Ok(AyNode { span: node.span, inner: StatementView::Expr(bound) }),
            ),
        },
        Statement::If { cond, then, otherwise } => match bind_expr(cond, scopes) {
            Err(frames) => (scopes, Err(within(frames, node.span))),
            Ok(cond) => {
                let (between, first) = bind_scoped(then@, scopes);
                match first {
                    Err(frames) => (between, Err(within(frames, node.span))),
                    Ok(then) => {
                        let (after, second) = bind_scoped(otherwise@, between);
                        match second {
                            Err(frames) => (after, Err(within(frames, node.span))),
                            Ok(otherwise) => (
                                after,
                                Ok(
                                    AyNode {
                                        span: node.span,
                                        inner: StatementView::If { cond, then, otherwise },
                                    },
                                ),
                            ),
                        }
                    },
                }
            },
        },
        Statement::Loop { cond, body } => {
            let cond = match cond {
                Some(cond) => match bind_expr(cond, scopes) {
                    Err(frames) => Err(frames),
                    Ok(cond) => Ok(Some(cond)),
                },
                None => Ok(None),
            };
            match cond {
                Err(frames) => (scopes, Err(within(frames, node.span))),
                Ok(cond) => {
                    let (after, bound) = bind_scoped(body@, scopes);
                    match bound {
                        Err(frames) => (after, Err(within(frames, node.span))),
                        Ok(body) => (
                            after,
                            Ok(
                                AyNode {
                                    span: node.span,
                                    inner: StatementView::Loop { cond, body },
                                },
                            ),
                        ),
                    }
                },
            }
        },
    }
}

/// The statements of a block bound in a layer of their own: the layer is
/// opened in both stacks before the first statement and closed behind the
/// last, or behind the one that fails.
pub open spec fn bind_scoped(nodes: Seq<AyNode<Statement>>, scopes: Scopes) -> (
    Scopes,
    Result<Seq<AyNode<StatementView>>, Frames>,
)
    decreases nodes, 1nat,
{
    let (inner, bound) = bind_block(nodes, entered(scopes));
    (left(inner), bound)
}

/// The statements of a list bound one after the other, each in the scopes
/// that the one before it left; binding stops at the first that fails.
pub open spec fn bind_block(nodes: Seq<AyNode<Statement>>, scopes: Scopes) -> (
    Scopes,
    Result<Seq<AyNode<StatementView>>, Frames>,
)
    decreases nodes, 0nat,
{
    if nodes.len() == 0 {
        (scopes, Ok(Seq::empty()))
    } else {
        let (between, bound) = bind_block(nodes.drop_last(), scopes);
        match bound {
            Err(frames) => (between, Err(frames)),
            Ok(bound) => {
                let (after, last) = bind_statement(nodes.last(), between);
                match last {
                    Err(frames) => (after, Err(frames)),
                    Ok(last) => (after, Ok(bound.push(last))),
                }
            },
        }
    }
}

/// The bound tree of a compilation unit, or the trace of the first failure.
pub open spec fn bind(ast: Seq<AyNode<Statement>>) -> Result<Seq<AyNode<StatementView>>, Frames> {
    bind_block(ast, initial_scopes()).1
}

/// Two stacks of equal depth that agree in every layer but the innermost.
pub open spec fn same_below<D>(layers: Layers<D>, other: Layers<D>) -> bool {
    &&& layers.len() == other.len()
    &&& layers.len() > 0
    &&& layers.drop_last() == other.drop_last()
}

/// Declaring names touches the innermost layer only.
pub proof fn lemma_defined_all_keeps_outer<D>(layers: Layers<D>, names: Seq<Seq<char>>, dec: D)
    requires
        layers.len() > 0,
    ensures
        same_below(defined_all(layers, names, dec), layers),
    decreases names.len(),
{
    if names.len() > 0 {
        let before = defined_all(layers, names.drop_last(), dec);
        lemma_defined_all_keeps_outer(layers, names.drop_last(), dec);
        assert(defined(before, names.last(), dec).drop_last() =~= before.drop_last());
    }
}

/// Each name of a declaration is bound to it, whichever name is looked up.
pub proof fn lemma_defined_all_binds_each<D>(
    layers: Layers<D>,
    names: Seq<Seq<char>>,
    dec: D,
    index: int,
)
    requires
        layers.len() > 0,
        0 <= index < names.len(),
    ensures
        lookup(defined_all(layers, names, dec), names[index]) == Some(dec),
    decreases names.len(),
{
    let before = defined_all(layers, names.drop_last(), dec);
    lemma_defined_all_keeps_outer(layers, names.drop_last(), dec);
    if index < names.len() - 1 {
        lemma_defined_all_binds_each(layers, names.drop_last(), dec, index);
        assert(names.drop_last()[index] == names[index]);
        if names[index] != names.last() {
            assert(defined(before, names.last(), dec).drop_last() =~= before.drop_last());
        }
    }
}

/// Binding a statement leaves the depth of both stacks as it was, and every
/// layer but the innermost: what a statement declares, it declares in the
/// layer that it stands in.
pub proof fn lemma_statement_keeps_outer(node: AyNode<Statement>, scopes: Scopes)
    requires
        scopes.vars.len() > 0,
        scopes.funs.len() > 0,
    ensures
        same_below(bind_statement(node, scopes).0.vars, scopes.vars),
        same_below(bind_statement(node, scopes).0.funs, scopes.funs),
    decreases node, 0nat,
{
    match node.inner {
        Statement::VarDec { names, values } => {
            match bind_exprs(values@, scopes) {
                Err(_) => {},
                Ok(bound) => {
                    let dec = VarDecView { names: texts_view(names@), values: bound };
                    lemma_defined_all_keeps_outer(scopes.vars, dec.names, dec);
                },
            }
        },
        Statement::FunDec { name, args, body } => {
            lemma_scoped_restores(body@, scopes);
            let (after, bound) = bind_scoped(body@, scopes);
            match bound {
                Err(_) => {},
                Ok(body) => {
                    let dec = FunDecView { name: name@, args: texts_view(args@), body };
                    assert(defined(after.funs, name@, dec).drop_last() =~= after.funs.drop_last());
                },
            }
        },
        Statement::Expr(_) => {},
        Statement::If { cond, then, otherwise } => {
            lemma_scoped_restores(then@, scopes);
            lemma_scoped_restores(otherwise@, scopes);
        },
        Statement::Loop { cond, body } => {
            lemma_scoped_restores(body@, scopes);
        },
    }
}

/// Binding a list of statements leaves the depth of both stacks as it was,
/// and every layer but the innermost.
pub proof fn lemma_block_keeps_outer(nodes: Seq<AyNode<Statement>>, scopes: Scopes)
    requires
        scopes.vars.len() > 0,
        scopes.funs.len() > 0,
    ensures
        same_below(bind_block(nodes, scopes).0.vars, scopes.vars),
        same_below(bind_block(nodes, scopes).0.funs, scopes.funs),
    decreases nodes, 0nat,
{
    if nodes.len() > 0 {
        lemma_block_keeps_outer(nodes.drop_last(), scopes);
        let (between, bound) = bind_block(nodes.drop_last(), scopes);
        if bound is Ok {
            lemma_statement_keeps_outer(nodes.last(), between);
        }
    }
}

/// What is declared inside a block does not escape it: once the block's
/// layer is closed, both stacks hold exactly what they held before the
/// block, whether the block was bound or failed.
pub proof fn lemma_scoped_restores(nodes: Seq<AyNode<Statement>>, scopes: Scopes)
    requires
        scopes.vars.len() > 0,
        scopes.funs.len() > 0,
    ensures
        bind_scoped(nodes, scopes).0 == scopes,
    decreases nodes, 1nat,
{
    lemma_block_keeps_outer(nodes, entered(scopes));
    let inner = bind_block(nodes, entered(scopes)).0;
    assert(entered(scopes).vars.drop_last() =~= scopes.vars);
    assert(entered(scopes).funs.drop_last() =~= scopes.funs);
    assert(left(inner).vars =~= scopes.vars);
    assert(left(inner).funs =~= scopes.funs);
}

/// A name declared only inside a function's body, a branch of an `if` or
/// the body of a loop is gone once binding is past the construct: an `if`
/// and a loop leave the scopes as they found them, and a function
/// declaration adds nothing but its own key.
pub proof fn lemma_declarations_do_not_escape(node: AyNode<Statement>, scopes: Scopes)
    requires
        scopes.vars.len() > 0,
        scopes.funs.len() > 0,
    ensures
        node.inner is If || node.inner is Loop ==> bind_statement(node, scopes).0 == scopes,
        node.inner is FunDec ==> bind_statement(node, scopes).0.vars == scopes.vars,
        node.inner matches Statement::FunDec { name, .. } ==> match bind_statement(
            node,
            scopes,
        ).1 {
            Ok(bound) => bound.inner matches StatementView::FunDec(dec) && bind_statement(
                node,
                scopes,
            ).0.funs == defined(scopes.funs, name@, dec),
            Err(_) => bind_statement(node, scopes).0.funs == scopes.funs,
        },
{
    match node.inner {
        Statement::FunDec { name, args, body } => {
            lemma_scoped_restores(body@, scopes);
        },
        Statement::If { cond, then, otherwise } => {
            lemma_scoped_restores(then@, scopes);
            lemma_scoped_restores(otherwise@, scopes);
        },
        Statement::Loop { cond, body } => {
            lemma_scoped_restores(body@, scopes);
        },
        _ => {},
    }
}

/// The branches of an `if` do not see each other's declarations: where the
/// condition is bound, each branch is bound as it would be alone, in a
/// fresh layer over the scopes in which the `if` stands.
pub proof fn lemma_branches_are_isolated(node: AyNode<Statement>, scopes: Scopes)
    requires
        scopes.vars.len() > 0,
        scopes.funs.len() > 0,
        node.inner is If,
        bind_expr(node.inner->If_cond, scopes) is Ok,
    ensures
        ({
            let first = bind_block(node.inner->then@, entered(scopes)).1;
            let second = bind_block(node.inner->otherwise@, entered(scopes)).1;
            match bind_statement(node, scopes).1 {
                Ok(bound) => {
                    &&& bound.inner matches StatementView::If { then, otherwise, .. }
                    &&& first == Ok::<_, Frames>(then)
                    &&& second == Ok::<_, Frames>(otherwise)
                },
                Err(frames) => match first {
                    Err(inner) => frames == within(inner, node.span),
                    Ok(_) => second matches Err(inner) && frames == within(inner, node.span),
                },
            }
        }),
{
    lemma_scoped_restores(node.inner->then@, scopes);
}

/// The number of bound expressions is the number of expressions.
pub proof fn lemma_bound_exprs_len(nodes: Seq<AyNode<Expr>>, scopes: Scopes)
    ensures
        bind_exprs(nodes, scopes) matches Ok(bound) ==> bound.len() == nodes.len(),
    decreases nodes.len(),
{
    if nodes.len() > 0 {
        lemma_bound_exprs_len(nodes.drop_last(), scopes);
    }
}

/// A variable declaration is bound exactly when its values are and it has as
/// many names as values. The bound declaration then has a value for each
/// name, and each of its names, looked up afterwards, leads to it.
pub proof fn lemma_var_dec_arity(node: AyNode<Statement>, scopes: Scopes)
    requires
        scopes.vars.len() > 0,
        node.inner is VarDec,
    ensures
        ({
            let names = node.inner->VarDec_names@;
            let values = node.inner->VarDec_values@;
            let (after, bound) = bind_statement(node, scopes);
            &&& bound is Ok <==> bind_exprs(values, scopes) is Ok && names.len() == values.len()
            &&& bind_exprs(values, scopes) is Ok && names.len() != values.len() ==> bound
                == Err::<AyNode<StatementView>, _>(
                failure(ErrorKind::ArityMismatch, node.span, arity_mismatch()),
            )
            &&& bound matches Ok(bound) ==> {
                &&& bound.inner matches StatementView::VarDec(dec)
                &&& dec.names == texts_view(names)
                &&& dec.values.len() == dec.names.len()
                &&& forall|i: int|
                    0 <= i < names.len() ==> lookup(after.vars, #[trigger] names[i]@) == Some(dec)
            }
        }),
{
    let names = node.inner->VarDec_names@;
    let values = node.inner->VarDec_values@;
    lemma_bound_exprs_len(values, scopes);
    match bind_exprs(values, scopes) {
        Err(_) => {},
        Ok(bound) => {
            if names.len() == values.len() {
                let dec = VarDecView { names: texts_view(names), values: bound };
                assert forall|i: int| 0 <= i < names.len() implies lookup(
                    defined_all(scopes.vars, dec.names, dec),
                    #[trigger] names[i]@,
                ) == Some(dec) by {
                    lemma_defined_all_binds_each(scopes.vars, dec.names, dec, i);
                }
            }
        },
    }
}

/// A bound node stands where the node it was bound from stands.
pub proof fn lemma_spans_are_kept(
    expr: AyNode<Expr>,
    statement: AyNode<Statement>,
    scopes: Scopes,
)
    ensures
        bind_expr(expr, scopes) matches Ok(bound) ==> bound.span == expr.span,
        bind_statement(statement, scopes).1 matches Ok(bound) ==> bound.span == statement.span,
{
}

/// An unresolved identifier fails with a trace of one frame, at the
/// identifier; a resolved one is bound to the declaration its name leads to.
pub proof fn lemma_identifier(node: AyNode<Expr>, scopes: Scopes)
    requires
        node.inner is Ident,
    ensures
        ({
            let name = node.inner->Ident_0@;
            match lookup(scopes.vars, name) {
                Some(dec) => bind_expr(node, scopes) == Ok::<_, Frames>(
                    AyNode { span: node.span, inner: ExprView::Var(dec) },
                ),
                None => bind_expr(node, scopes) == Err::<AyNode<ExprView>, _>(
                    failure(ErrorKind::UnresolvedVariable, node.span, unresolved_variable(name)),
                ),
            }
        }),
{
}

/// Every name leads to a declaration of that name: a variable's name to a
/// declaration that declares it, a function's key to the declaration that
/// was made under it.
pub open spec fn faithful(scopes: Scopes) -> bool {
    &&& forall|i: int, name: Seq<char>|
        0 <= i < scopes.vars.len() && #[trigger] scopes.vars[i].contains_key(name)
            ==> scopes.vars[i][name].names.contains(name)
    &&& forall|i: int, key: Seq<char>|
        0 <= i < scopes.funs.len() && #[trigger] scopes.funs[i].contains_key(key)
            ==> scopes.funs[i][key].name == key
}

/// What a name is bound to stands in one of the layers under that name.
pub proof fn lemma_lookup_finds_in_layer<D>(layers: Layers<D>, name: Seq<char>)
    ensures
        lookup(layers, name) matches Some(dec) ==> exists|i: int|
            0 <= i < layers.len() && #[trigger] layers[i].contains_key(name) && layers[i][name]
                == dec,
    decreases layers.len(),
{
    if layers.len() > 0 {
        if layers.last().contains_key(name) {
            assert(layers[layers.len() - 1].contains_key(name));
        } else {
            lemma_lookup_finds_in_layer(layers.drop_last(), name);
            if lookup(layers, name) is Some {
                let dec = lookup(layers, name)->0;
                let rest = layers.drop_last();
                let i = choose|i: int|
                    0 <= i < rest.len() && #[trigger] rest[i].contains_key(name) && rest[i][name]
                        == dec;
                assert(layers[i].contains_key(name) && layers[i][name] == dec);
            }
        }
    }
}

/// Declaring names keeps the variables faithful, where the declaration
/// declares each of them.
proof fn lemma_defined_all_faithful(
    scopes: Scopes,
    names: Seq<Seq<char>>,
    upto: int,
    dec: VarDecView,
)
    requires
        scopes.vars.len() > 0,
        faithful(scopes),
        dec.names == names,
        0 <= upto <= names.len(),
    ensures
        faithful(
            Scopes { vars: defined_all(scopes.vars, names.take(upto), dec), funs: scopes.funs },
        ),
    decreases upto,
{
    if upto == 0 {
        assert(names.take(0) =~= Seq::empty());
    } else {
        lemma_defined_all_faithful(scopes, names, upto - 1, dec);
        assert(names.take(upto).drop_last() =~= names.take(upto - 1));
        let before = defined_all(scopes.vars, names.take(upto - 1), dec);
        lemma_defined_all_keeps_outer(scopes.vars, names.take(upto - 1), dec);
        let after = defined(before, names[upto - 1], dec);
        assert(names.take(upto).last() == names[upto - 1]);
        assert forall|i: int, name: Seq<char>|
            0 <= i < after.len() && #[trigger] after[i].contains_key(
                name,
            ) implies after[i][name].names.contains(name) by {
            if i == after.len() - 1 && name == names[upto - 1] {
                assert(dec.names[upto - 1] == name);
                assert(after[i][name] == dec);
                assert(dec.names.contains(name));
            } else {
                let inner = Scopes { vars: before, funs: scopes.funs };
                assert(inner.vars[i].contains_key(name));
                assert(after[i][name] == before[i][name]);
            }
        }
    }
}

/// Binding a statement keeps the scopes faithful.
pub proof fn lemma_statement_keeps_faithful(node: AyNode<Statement>, scopes: Scopes)
    requires
        scopes.vars.len() > 0,
        scopes.funs.len() > 0,
        faithful(scopes),
    ensures
        faithful(bind_statement(node, scopes).0),
{
    match node.inner {
        Statement::VarDec { names, values } => {
            match bind_exprs(values@, scopes) {
                Err(_) => {},
                Ok(bound) => {
                    let dec = VarDecView { names: texts_view(names@), values: bound };
                    lemma_defined_all_faithful(scopes, dec.names, dec.names.len() as int, dec);
                    assert(dec.names.take(dec.names.len() as int) =~= dec.names);
                },
            }
        },
        Statement::FunDec { name, args, body } => {
            lemma_scoped_restores(body@, scopes);
            let (after, bound) = bind_scoped(body@, scopes);
            match bound {
                Err(_) => {},
                Ok(body) => {
                    let dec = FunDecView { name: name@, args: texts_view(args@), body };
                    let funs = defined(scopes.funs, name@, dec);
                    assert forall|i: int, key: Seq<char>|
                        0 <= i < funs.len() && #[trigger] funs[i].contains_key(
                            key,
                        ) implies funs[i][key].name == key by {
                        if i != funs.len() - 1 || key != name@ {
                            assert(scopes.funs[i].contains_key(key));
                        }
                    }
                },
            }
        },
        Statement::Expr(_) => {},
        Statement::If { cond, then, otherwise } => {
            lemma_scoped_restores(then@, scopes);
            lemma_scoped_restores(otherwise@, scopes);
        },
        Statement::Loop { cond, body } => {
            lemma_scoped_restores(body@, scopes);
        },
    }
}

/// Binding a list of statements keeps the scopes faithful; so are the
/// scopes in which each statement of a compilation unit is bound.
pub proof fn lemma_block_keeps_faithful(nodes: Seq<AyNode<Statement>>, scopes: Scopes)
    requires
        scopes.vars.len() > 0,
        scopes.funs.len() > 0,
        faithful(scopes),
    ensures
        faithful(bind_block(nodes, scopes).0),
        faithful(initial_scopes()),
    decreases nodes.len(),
{
    if nodes.len() > 0 {
        lemma_block_keeps_faithful(nodes.drop_last(), scopes);
        lemma_block_keeps_outer(nodes.drop_last(), scopes);
        let (between, bound) = bind_block(nodes.drop_last(), scopes);
        if bound is Ok {
            lemma_statement_keeps_faithful(nodes.last(), between);
        }
    }
}

/// A reference leads to a declaration of its name: a bound identifier to a
/// variable declaration that declares the identifier, a bound call to a
/// function whose key the call's name spells, in the tense that the call
/// records. The call keeps its name as it was written.
pub proof fn lemma_references_are_faithful(node: AyNode<Expr>, scopes: Scopes)
    requires
        faithful(scopes),
    ensures
        bind_expr(node, scopes) matches Ok(bound) ==> match node.inner {
            Expr::Ident(name) => bound.inner matches ExprView::Var(dec) && dec.names.contains(
                name@,
            ),
            Expr::FunCall { name, .. } => bound.inner matches ExprView::FunCall {
                tense,
                dec,
                name: written,
                ..
            } && written == name@ && key_tense(dec.name, name@) == Some(tense),
            _ => true,
        },
{
    match node.inner {
        Expr::Ident(name) => {
            lemma_lookup_finds_in_layer(scopes.vars, name@);
        },
        Expr::FunCall { name, args } => {
            if resolve(scopes.funs, name@) is Some {
                let key = choose|key: Seq<char>| answers_first(scopes.funs, key, name@);
                lemma_lookup_finds_in_layer(scopes.funs, key);
                crate::tense::lemma_visible_has_depth(scopes.funs, key);
            }
        },
        _ => {},
    }
}

/// Whether a bound expression is sound throughout: every variable
/// declaration that it refers to, however deep, has a value for each name.
pub open spec fn sound_expr(node: AyNode<ExprView>) -> bool
    decreases node, 0nat,
{
    match node.inner {
        ExprView::FunCall { dec, args, .. } => sound_fun(dec) && sound_exprs(args),
        ExprView::Array { items } => sound_exprs(items),
        ExprView::Comparison { left, right, .. } => sound_expr(*left) && sound_expr(*right),
        ExprView::Var(dec) => sound_var(dec),
        ExprView::Negated(inner) => sound_expr(*inner),
        ExprView::Number(_) => true,
        ExprView::String(_) => true,
    }
}

/// Whether each bound expression of a list is sound throughout.
pub open spec fn sound_exprs(nodes: Seq<AyNode<ExprView>>) -> bool
    decreases nodes, 0nat,
{
    forall|i: int| 0 <= i < nodes.len() ==> sound_expr(#[trigger] nodes[i])
}

/// Whether a variable declaration has a value for each name, and sound
/// values.
pub open spec fn sound_var(dec: VarDecView) -> bool
    decreases dec, 0nat,
{
    dec.names.len() == dec.values.len() && sound_exprs(dec.values)
}

/// Whether the body of a function declaration is sound throughout.
pub open spec fn sound_fun(dec: FunDecView) -> bool
    decreases dec, 0nat,
{
    sound_statements(dec.body)
}

/// Whether a bound statement is sound throughout.
pub open spec fn sound_statement(node: AyNode<StatementView>) -> bool
    decreases node, 0nat,
{
    match node.inner {
        StatementView::FunDec(dec) => sound_fun(dec),
        StatementView::VarDec(dec) => sound_var(dec),
        StatementView::Expr(expr) => sound_expr(expr),
        StatementView::If { cond, then, otherwise } => sound_expr(cond) && sound_statements(then)
            && sound_statements(otherwise),
        StatementView::Loop { cond, body } => (cond matches Some(cond) ==> sound_expr(cond))
            && sound_statements(body),
    }
}

/// Whether each bound statement of a list is sound throughout.
pub open spec fn sound_statements(nodes: Seq<AyNode<StatementView>>) -> bool
    decreases nodes, 0nat,
{
    forall|i: int| 0 <= i < nodes.len() ==> sound_statement(#[trigger] nodes[i])
}

/// Whether every declaration that the scopes hold is sound throughout.
pub open spec fn sound_scopes(scopes: Scopes) -> bool {
    &&& scopes.vars.len() > 0
    &&& scopes.funs.len() > 0
    &&& forall|i: int, name: Seq<char>|
        0 <= i < scopes.vars.len() && #[trigger] scopes.vars[i].contains_key(name) ==> sound_var(
            scopes.vars[i][name],
        )
    &&& forall|i: int, key: Seq<char>|
        0 <= i < scopes.funs.len() && #[trigger] scopes.funs[i].contains_key(key) ==> sound_fun(
            scopes.funs[i][key],
        )
}

/// Declaring names with a sound declaration keeps the scopes sound.
proof fn lemma_defined_all_sound(scopes: Scopes, names: Seq<Seq<char>>, dec: VarDecView)
    requires
        sound_scopes(scopes),
        sound_var(dec),
    ensures
        sound_scopes(Scopes { vars: defined_all(scopes.vars, names, dec), funs: scopes.funs }),
    decreases names.len(),
{
    if names.len() > 0 {
        lemma_defined_all_sound(scopes, names.drop_last(), dec);
        let before = defined_all(scopes.vars, names.drop_last(), dec);
        let inner = Scopes { vars: before, funs: scopes.funs };
        let after = defined(before, names.last(), dec);
        assert forall|i: int, name: Seq<char>|
            0 <= i < after.len() && #[trigger] after[i].contains_key(name) implies sound_var(
            after[i][name],
        ) by {
            if i != after.len() - 1 || name != names.last() {
                assert(inner.vars[i].contains_key(name));
            }
        }
    }
}

/// An expression bound in sound scopes is sound throughout.
pub proof fn lemma_bound_expr_sound(node: AyNode<Expr>, scopes: Scopes)
    requires
        sound_scopes(scopes),
    ensures
        bind_expr(node, scopes) matches Ok(bound) ==> sound_expr(bound),
    decreases node, 0nat,
{
    match node.inner {
        Expr::Ident(name) => {
            lemma_lookup_finds_in_layer(scopes.vars, name@);
        },
        Expr::FunCall { name, args } => {
            lemma_bound_exprs_sound(args@, scopes);
            if resolve(scopes.funs, name@) is Some {
                let key = choose|key: Seq<char>| answers_first(scopes.funs, key, name@);
                lemma_lookup_finds_in_layer(scopes.funs, key);
                crate::tense::lemma_visible_has_depth(scopes.funs, key);
            }
        },
        Expr::Negated(inner) => {
            lemma_bound_expr_sound(*inner, scopes);
        },
        _ => {},
    }
}

/// The expressions of a list bound in sound scopes are sound throughout.
pub proof fn lemma_bound_exprs_sound(nodes: Seq<AyNode<Expr>>, scopes: Scopes)
    requires
        sound_scopes(scopes),
    ensures
        bind_exprs(nodes, scopes) matches Ok(bound) ==> sound_exprs(bound),
    decreases nodes, 0nat,
{
    if nodes.len() > 0 {
        lemma_bound_exprs_sound(nodes.drop_last(), scopes);
        lemma_bound_expr_sound(nodes.last(), scopes);
    }
}

/// A statement bound in sound scopes is sound throughout, and leaves the
/// scopes sound: every variable declaration of a bound tree, and every one
/// that a reference in it leads to, has a value for each of its names.
pub proof fn lemma_bound_statement_sound(node: AyNode<Statement>, scopes: Scopes)
    requires
        sound_scopes(scopes),
    ensures
        sound_scopes(bind_statement(node, scopes).0),
        bind_statement(node, scopes).1 matches Ok(bound) ==> sound_statement(bound),
    decreases node, 0nat,
{
    match node.inner {
        Statement::VarDec { names, values } => {
            lemma_bound_exprs_sound(values@, scopes);
            lemma_bound_exprs_len(values@, scopes);
            match bind_exprs(values@, scopes) {
                Err(_) => {},
                Ok(bound) => {
                    if names@.len() == values@.len() {
                        let dec = VarDecView { names: texts_view(names@), values: bound };
                        lemma_defined_all_sound(scopes, dec.names, dec);
                    }
                },
            }
        },
        Statement::FunDec { name, args, body } => {
            lemma_bound_scoped_sound(body@, scopes);
            let (after, bound) = bind_scoped(body@, scopes);
            match bound {
                Err(_) => {},
                Ok(body) => {
                    let dec = FunDecView { name: name@, args: texts_view(args@), body };
                    let funs = defined(after.funs, name@, dec);
                    assert forall|i: int, key: Seq<char>|
                        0 <= i < funs.len() && #[trigger] funs[i].contains_key(
                            key,
                        ) implies sound_fun(funs[i][key]) by {
                        if i != funs.len() - 1 || key != name@ {
                            assert(after.funs[i].contains_key(key));
                        }
                    }
                },
            }
        },
        Statement::Expr(expr) => {
            lemma_bound_expr_sound(expr, scopes);
        },
        Statement::If { cond, then, otherwise } => {
            lemma_bound_expr_sound(cond, scopes);
            lemma_bound_scoped_sound(then@, scopes);
            lemma_bound_scoped_sound(otherwise@, bind_scoped(then@, scopes).0);
        },
        Statement::Loop { cond, body } => {
            if cond is Some {
                lemma_bound_expr_sound(cond->0, scopes);
            }
            lemma_bound_scoped_sound(body@, scopes);
        },
    }
}

/// A block bound in sound scopes is sound throughout, and leaves the scopes
/// sound.
pub proof fn lemma_bound_scoped_sound(nodes: Seq<AyNode<Statement>>, scopes: Scopes)
    requires
        sound_scopes(scopes),
    ensures
        sound_scopes(bind_scoped(nodes, scopes).0),
        bind_scoped(nodes, scopes).1 matches Ok(bound) ==> sound_statements(bound),
    decreases nodes, 1nat,
{
    let inner = entered(scopes);
    assert(sound_scopes(inner)) by {
        assert forall|i: int, name: Seq<char>|
            0 <= i < inner.vars.len() && #[trigger] inner.vars[i].contains_key(
                name,
            ) implies sound_var(inner.vars[i][name]) by {
            if i < scopes.vars.len() {
                assert(scopes.vars[i].contains_key(name));
            }
        }
        assert forall|i: int, key: Seq<char>|
            0 <= i < inner.funs.len() && #[trigger] inner.funs[i].contains_key(
                key,
            ) implies sound_fun(inner.funs[i][key]) by {
            if i < scopes.funs.len() {
                assert(scopes.funs[i].contains_key(key));
            }
        }
    }
    lemma_bound_block_sound(nodes, inner);
    lemma_scoped_restores(nodes, scopes);
}

/// A list of statements bound in sound scopes is sound throughout, and
/// leaves the scopes sound.
pub proof fn lemma_bound_block_sound(nodes: Seq<AyNode<Statement>>, scopes: Scopes)
    requires
        sound_scopes(scopes),
    ensures
        sound_scopes(bind_block(nodes, scopes).0),
        bind_block(nodes, scopes).1 matches Ok(bound) ==> sound_statements(bound),
    decreases nodes, 0nat,
{
    if nodes.len() > 0 {
        lemma_bound_block_sound(nodes.drop_last(), scopes);
        let (between, bound) = bind_block(nodes.drop_last(), scopes);
        if bound is Ok {
            lemma_bound_statement_sound(nodes.last(), between);
        }
    }
}

/// The bound tree of a compilation unit is sound throughout: every variable
/// declaration in it, and every one that a reference in it leads to, has a
/// value for each of its names.
pub proof fn lemma_bound_unit_sound(ast: Seq<AyNode<Statement>>)
    ensures
        bind(ast) matches Ok(bound) ==> sound_statements(bound),
{
    lemma_bound_block_sound(ast, initial_scopes());
}

} // verus!
