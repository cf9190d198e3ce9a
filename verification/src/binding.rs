//! The bound syntax tree, in which every identifier is tied to its
//! declaration, and the binder that produces it.

use crate::error::error::{Error, ErrorKind};
use crate::error::span::Span;
use crate::error::trace::{lemma_reports_all, Frames, Stage, Trace};
use crate::parsing::{texts_view, AyNode, ComparisonOperator, Node};
use crate::parsing::{Expr as PExpr, Statement as PStatement};
use crate::scope::{share, ScopeStack};
use crate::semantics::{
    bind, bind_block, bind_expr, bind_exprs, bind_scoped, bind_statement,
    defined_all, failure, lemma_block_keeps_outer, within, Scopes,
};
use crate::tense::match_function;
use std::rc::Rc;
use vstd::prelude::*;
use vstd::string::StringExecFns;

verus! {

/// A function declaration, shared by every call that resolves to it.
#[derive(PartialEq, Debug)]
pub struct FunDec {
    pub name: String,
    pub args: Vec<String>,
    pub body: Vec<AyNode<Statement>>,
}

/// Which of the three spellings of a function's name a call used.
#[derive(PartialEq, Eq, Debug, Clone, Copy, Structural)]
pub enum Tense {
    Present,
    Imminent,
    Future,
}

/// A variable declaration, shared by every use of one of its names. It may
/// declare several names at once, each with the value at the same position.
#[derive(PartialEq, Debug)]
pub struct VarDec {
    pub names: Vec<String>,
    pub values: Vec<AyNode<Expr>>,
}

/// A statement is anything that cannot be expected to return a value.
#[derive(PartialEq, Debug)]
#[allow(inconsistent_fields)]
pub enum Statement {
    FunDec(Rc<FunDec>),
    VarDec(Rc<VarDec>),
    Expr(AyNode<Expr>),
    If { cond: AyNode<Expr>, then: Vec<AyNode<Statement>>, otherwise: Vec<AyNode<Statement>> },
    Loop { cond: Option<AyNode<Expr>>, body: Vec<AyNode<Statement>> },
}

impl Node for Statement {

}

/// An expression is anything that is or returns a value.
#[derive(PartialEq, Debug)]
pub enum Expr {
    FunCall { tense: Tense, dec: Rc<FunDec>, name: String, args: Vec<AyNode<Expr>> },
    Array { items: Vec<AyNode<Expr>> },
    Comparison { left: Box<AyNode<Expr>>, right: Box<AyNode<Expr>>, operator: ComparisonOperator },
    Number(i64),
    String(String),
    Var(Rc<VarDec>),
    Negated(Box<AyNode<Expr>>),
}

impl Node for Expr {

}

/// What a function declaration holds, as mathematical values.
pub struct FunDecView {
    pub name: Seq<char>,
    pub args: Seq<Seq<char>>,
    pub body: Seq<AyNode<StatementView>>,
}

/// What a variable declaration holds, as mathematical values.
pub struct VarDecView {
    pub names: Seq<Seq<char>>,
    pub values: Seq<AyNode<ExprView>>,
}

/// What a bound statement holds, as mathematical values.
#[allow(inconsistent_fields)]
pub enum StatementView {
    FunDec(FunDecView),
    VarDec(VarDecView),
    Expr(AyNode<ExprView>),
    If {
        cond: AyNode<ExprView>,
        then: Seq<AyNode<StatementView>>,
        otherwise: Seq<AyNode<StatementView>>,
    },
    Loop { cond: Option<AyNode<ExprView>>, body: Seq<AyNode<StatementView>> },
}

/// What a bound expression holds, as mathematical values.
pub enum ExprView {
    FunCall { tense: Tense, dec: FunDecView, name: Seq<char>, args: Seq<AyNode<ExprView>> },
    Array { items: Seq<AyNode<ExprView>> },
    Comparison {
        left: Box<AyNode<ExprView>>,
        right: Box<AyNode<ExprView>>,
        operator: ComparisonOperator,
    },
    Number(i64),
    String(Seq<char>),
    Var(VarDecView),
    Negated(Box<AyNode<ExprView>>),
}

/// What a bound expression holds.
pub open spec fn expr_view(expr: Expr) -> ExprView
    decreases expr,
{
    match expr {
        Expr::FunCall { tense, dec, name, args } => ExprView::FunCall {
            tense,
            dec: fun_dec_view(*dec),
            name: name@,
            args: exprs_view(args@),
        },
        Expr::Array { items } => ExprView::Array { items: exprs_view(items@) },
        Expr::Comparison { left, right, operator } => ExprView::Comparison {
            left: Box::new(expr_node_view(*left)),
            right: Box::new(expr_node_view(*right)),
            operator,
        },
        Expr::Number(value) => ExprView::Number(value),
        Expr::String(text) => ExprView::String(text@),
        Expr::Var(dec) => ExprView::Var(var_dec_view(*dec)),
        Expr::Negated(inner) => ExprView::Negated(Box::new(expr_node_view(*inner))),
    }
}

/// What a bound expression holds, at its place in the source.
pub open spec fn expr_node_view(node: AyNode<Expr>) -> AyNode<ExprView>
    decreases node,
{
    AyNode { span: node.span, inner: expr_view(node.inner) }
}

/// What each bound expression of a list holds.
pub open spec fn exprs_view(nodes: Seq<AyNode<Expr>>) -> Seq<AyNode<ExprView>>
    decreases nodes,
{
    Seq::new(
        nodes.len(),
        |i: int|
            if 0 <= i < nodes.len() {
                expr_node_view(nodes[i])
            } else {
                arbitrary()
            },
    )
}

/// What a variable declaration holds.
pub open spec fn var_dec_view(dec: VarDec) -> VarDecView
    decreases dec,
{
    VarDecView { names: texts_view(dec.names@), values: exprs_view(dec.values@) }
}

/// What a function declaration holds.
pub open spec fn fun_dec_view(dec: FunDec) -> FunDecView
    decreases dec,
{
    FunDecView {
        name: dec.name@,
        args: texts_view(dec.args@),
        body: statements_view(dec.body@),
    }
}

/// What a bound statement holds.
pub open spec fn statement_view(statement: Statement) -> StatementView
    decreases statement,
{
    match statement {
        Statement::FunDec(dec) => StatementView::FunDec(fun_dec_view(*dec)),
        Statement::VarDec(dec) => StatementView::VarDec(var_dec_view(*dec)),
        Statement::Expr(expr) => StatementView::Expr(expr_node_view(expr)),
        Statement::If { cond, then, otherwise } => StatementView::If {
            cond: expr_node_view(cond),
            then: statements_view(then@),
            otherwise: statements_view(otherwise@),
        },
        Statement::Loop { cond, body } => StatementView::Loop {
            cond: match cond {
                Some(cond) => Some(expr_node_view(cond)),
                None => None,
            },
            body: statements_view(body@),
        },
    }
}

/// What a bound statement holds, at its place in the source.
pub open spec fn statement_node_view(node: AyNode<Statement>) -> AyNode<StatementView>
    decreases node,
{
    AyNode { span: node.span, inner: statement_view(node.inner) }
}

/// What each bound statement of a list holds.
pub open spec fn statements_view(nodes: Seq<AyNode<Statement>>) -> Seq<AyNode<StatementView>>
    decreases nodes,
{
    Seq::new(
        nodes.len(),
        |i: int|
            if 0 <= i < nodes.len() {
                statement_node_view(nodes[i])
            } else {
                arbitrary()
            },
    )
}

impl Default for FunDec {
    /// A declaration without name, parameters or body.
    fn default() -> (dec: Self)
        ensures
            dec@ == (FunDecView { name: Seq::empty(), args: Seq::empty(), body: Seq::empty() }),
    {
        let dec = FunDec { name: String::new(), args: Vec::new(), body: Vec::new() };
        assert(texts_view(dec.args@) =~= Seq::empty());
        assert(statements_view(dec.body@) =~= Seq::empty());
        dec
    }
}

impl View for FunDec {
    type V = FunDecView;

    open spec fn view(&self) -> FunDecView {
        fun_dec_view(*self)
    }
}

impl View for VarDec {
    type V = VarDecView;

    open spec fn view(&self) -> VarDecView {
        var_dec_view(*self)
    }
}

impl View for Statement {
    type V = StatementView;

    open spec fn view(&self) -> StatementView {
        statement_view(*self)
    }
}

impl View for Expr {
    type V = ExprView;

    open spec fn view(&self) -> ExprView {
        expr_view(*self)
    }
}

/// What the binding of an expression gave, as mathematical values.
pub open spec fn expr_outcome(bound: Result<AyNode<Expr>, Trace>) -> Result<
    AyNode<ExprView>,
    Frames,
> {
    match bound {
        Ok(node) => Ok(expr_node_view(node)),
        Err(trace) => Err(trace@),
    }
}

/// What the binding of a list of expressions gave, as mathematical values.
pub open spec fn exprs_outcome(bound: Result<Vec<AyNode<Expr>>, Trace>) -> Result<
    Seq<AyNode<ExprView>>,
    Frames,
> {
    match bound {
        Ok(nodes) => Ok(exprs_view(nodes@)),
        Err(trace) => Err(trace@),
    }
}

/// What the binding of a statement gave, as mathematical values.
pub open spec fn statement_outcome(bound: Result<AyNode<Statement>, Trace>) -> Result<
    AyNode<StatementView>,
    Frames,
> {
    match bound {
        Ok(node) => Ok(statement_node_view(node)),
        Err(trace) => Err(trace@),
    }
}

/// What the binding of a list of statements gave, as mathematical values.
pub open spec fn statements_outcome(bound: Result<Vec<AyNode<Statement>>, Trace>) -> Result<
    Seq<AyNode<StatementView>>,
    Frames,
> {
    match bound {
        Ok(nodes) => Ok(statements_view(nodes@)),
        Err(trace) => Err(trace@),
    }
}

/// The scopes that a pair of scope stacks stands for.
pub open spec fn scopes_of(vars: ScopeStack<VarDec>, funs: ScopeStack<FunDec>) -> Scopes {
    Scopes { vars: vars@, funs: funs@ }
}

/// A trace that starts with a failure of the given kind at `span`.
fn fail(kind: ErrorKind, span: &Span, message: String) -> (trace: Trace)
    ensures
        trace@ == failure(kind, *span, message@),
{
    let err = Error::new(Some(kind), span, message);
    let trace = Trace::new(Stage::Binding, err);
    proof {
        lemma_reports_all(err, trace@[0].1);
        assert(trace@ =~= failure(kind, *span, message@));
    }
    trace
}

/// The trace with one more frame: the node at `span`, inside which the
/// failure arose.
fn enclose(trace: Trace, span: &Span) -> (longer: Trace)
    ensures
        longer@ == within(trace@, *span),
{
    let mut trace = trace;
    let ghost before = trace@;
    let err = Error::new(None, span, String::from_str("while binding this"));
    trace.push(Stage::Binding, err);
    proof {
        lemma_reports_all(err, trace@.last().1);
        assert(trace@ =~= within(before, *span));
    }
    trace
}

/// A copy of a list of names.
fn copy_names(names: &Vec<String>) -> (copy: Vec<String>)
    ensures
        copy@ == names@,
{
    let mut copy: Vec<String> = Vec::new();
    let mut at: usize = 0;
    while at < names.len()
        invariant
            at <= names.len(),
            copy@ == names@.take(at as int),
        decreases names.len() - at,
    {
        copy.push(names[at].clone());
        at += 1;
        assert(copy@ =~= names@.take(at as int));
    }
    assert(names@.take(at as int) =~= names@);
    copy
}

/// Once an expression of a list fails, so does the list, with its trace.
proof fn lemma_exprs_fail(nodes: Seq<AyNode<PExpr>>, upto: int, scopes: Scopes)
    requires
        0 <= upto <= nodes.len(),
        bind_exprs(nodes.take(upto), scopes) is Err,
    ensures
        bind_exprs(nodes, scopes) == bind_exprs(nodes.take(upto), scopes),
    decreases nodes.len(),
{
    if upto == nodes.len() {
        assert(nodes.take(upto) =~= nodes);
    } else {
        assert(nodes.drop_last().take(upto) =~= nodes.take(upto));
        lemma_exprs_fail(nodes.drop_last(), upto, scopes);
    }
}

/// Once a statement of a list fails, binding stops there.
proof fn lemma_block_fail(nodes: Seq<AyNode<PStatement>>, upto: int, scopes: Scopes)
    requires
        0 <= upto <= nodes.len(),
        bind_block(nodes.take(upto), scopes).1 is Err,
    ensures
        bind_block(nodes, scopes) == bind_block(nodes.take(upto), scopes),
    decreases nodes.len(),
{
    if upto == nodes.len() {
        assert(nodes.take(upto) =~= nodes);
    } else {
        assert(nodes.drop_last().take(upto) =~= nodes.take(upto));
        lemma_block_fail(nodes.drop_last(), upto, scopes);
    }
}

/// Binds an expression: ties each identifier in it to the variable
/// declaration that its name is bound to, and each call to the function
/// that its name resolves to. Fails on the first name that resolves to
/// nothing, with a trace that starts at that name and has a frame for each
/// expression around it.
pub fn convert_expr(
    node: &AyNode<PExpr>,
    vars: &ScopeStack<VarDec>,
    funs: &ScopeStack<FunDec>,
) -> (bound: Result<AyNode<Expr>, Trace>)
    requires
        vars.wf(),
        funs.wf(),
    ensures
        expr_outcome(bound) == bind_expr(*node, scopes_of(*vars, *funs)),
    decreases node, 0nat,
{
    match &node.inner {
        PExpr::Ident(name) => match vars.lookup(name.as_str()) {
            Some(dec) => Ok(AyNode { span: node.span.clone(), inner: Expr::Var(dec) }),
            None => Err(
                fail(
                    ErrorKind::UnresolvedVariable,
                    &node.span,
                    String::from_str("no variable is declared under the name ").concat(
                        name.as_str(),
                    ),
                ),
            ),
        },
        PExpr::FunCall { name, args } => match convert_exprs(args, vars, funs) {
            Err(trace) => Err(enclose(trace, &node.span)),
            Ok(bound) => match match_function(name.as_str(), funs) {
                Some((tense, dec)) => Ok(
                    AyNode {
                        span: node.span.clone(),
                        inner: Expr::FunCall { tense, dec, name: name.clone(), args: bound },
                    },
                ),
                None => Err(
                    fail(
                        ErrorKind::UnresolvedFunction,
                        &node.span,
                        String::from_str("no declared function is spelled ").concat(name.as_str()),
                    ),
                ),
            },
        },
        PExpr::Number(value) => Ok(AyNode { span: node.span.clone(), inner: Expr::Number(*value) }),
        PExpr::String(text) => Ok(
            AyNode { span: node.span.clone(), inner: Expr::String(text.clone()) },
        ),
        PExpr::Negated(inner) => match convert_expr(&**inner, vars, funs) {
            Err(trace) => Err(enclose(trace, &node.span)),
            Ok(bound) => Ok(
                AyNode { span: node.span.clone(), inner: Expr::Negated(Box::new(bound)) },
            ),
        },
    }
}

/// Binds the expressions of a list, each in the same scopes, and stops at
/// the first that fails.
pub fn convert_exprs(
    nodes: &Vec<AyNode<PExpr>>,
    vars: &ScopeStack<VarDec>,
    funs: &ScopeStack<FunDec>,
) -> (bound: Result<Vec<AyNode<Expr>>, Trace>)
    requires
        vars.wf(),
        funs.wf(),
    ensures
        exprs_outcome(bound) == bind_exprs(nodes@, scopes_of(*vars, *funs)),
    decreases nodes, 0nat,
{
    let ghost scopes = scopes_of(*vars, *funs);
    let mut bound: Vec<AyNode<Expr>> = Vec::new();
    let mut at: usize = 0;
    assert(exprs_view(bound@) =~= Seq::empty());
    while at < nodes.len()
        invariant
            at <= nodes.len(),
            vars.wf(),
            funs.wf(),
            scopes == scopes_of(*vars, *funs),
            bind_exprs(nodes@.take(at as int), scopes) == Ok::<_, Frames>(exprs_view(bound@)),
        decreases nodes.len() - at,
    {
        let ghost done = nodes@.take(at as int);
        let ghost next = nodes@.take(at + 1);
        assert(next.drop_last() =~= done);
        assert(next.last() == nodes@[at as int]);
        match convert_expr(&nodes[at], vars, funs) {
            Err(trace) => {
                proof {
                    lemma_exprs_fail(nodes@, at + 1, scopes);
                }
                return Err(trace);
            },
            Ok(node) => {
                let ghost before = bound@;
                bound.push(node);
                assert(exprs_view(bound@) =~= exprs_view(before).push(expr_node_view(node)));
            },
        }
        at += 1;
    }
    assert(nodes@.take(at as int) =~= nodes@);
    Ok(bound)
}

/// Binds a statement in the scopes that the two stacks hold, and leaves in
/// them what the statement declares: a variable declaration its names, a
/// function declaration its key. What is declared inside a function's body,
/// a branch or a loop's body is gone from the stacks when this returns.
/// Fails on the first name that resolves to nothing and on a variable
/// declaration with more names than values or fewer; the trace starts at
/// the failure and has a frame for each node around it.
pub fn convert_statement(
    node: &AyNode<PStatement>,
    vars: &mut ScopeStack<VarDec>,
    funs: &mut ScopeStack<FunDec>,
) -> (bound: Result<AyNode<Statement>, Trace>)
    requires
        old(vars).wf(),
        old(funs).wf(),
    ensures
        final(vars).wf(),
        final(funs).wf(),
        scopes_of(*final(vars), *final(funs)) == bind_statement(
            *node,
            scopes_of(*old(vars), *old(funs)),
        ).0,
        statement_outcome(bound) == bind_statement(*node, scopes_of(*old(vars), *old(funs))).1,
    decreases node, 0nat,
{
    let ghost scopes = scopes_of(*vars, *funs);
    match &node.inner {
        PStatement::VarDec { names, values } => match convert_exprs(values, vars, funs) {
            Err(trace) => Err(enclose(trace, &node.span)),
            Ok(bound) => if names.len() != values.len() {
                Err(
                    fail(
                        ErrorKind::ArityMismatch,
                        &node.span,
                        String::from_str("the declaration has not as many values as names"),
                    ),
                )
            } else {
                let dec = Rc::new(VarDec { names: copy_names(names), values: bound });
                let ghost declared = texts_view(names@);
                let mut at: usize = 0;
                while at < names.len()
                    invariant
                        at <= names.len(),
                        vars.wf(),
                        declared == texts_view(names@),
                        vars@ == defined_all(scopes.vars, declared.take(at as int), (*dec)@),
                    decreases names.len() - at,
                {
                    assert(declared.take(at + 1).drop_last() =~= declared.take(at as int));
                    vars.define(names[at].clone(), share(&dec));
                    at += 1;
                }
                assert(declared.take(at as int) =~= declared);
                Ok(AyNode { span: node.span.clone(), inner: Statement::VarDec(dec) })
            },
        },
        PStatement::FunDec { name, args, body } => match convert_scoped(body, vars, funs) {
            Err(trace) => Err(enclose(trace, &node.span)),
            Ok(body) => {
                let dec = Rc::new(FunDec { name: name.clone(), args: copy_names(args), body });
                funs.define(name.clone(), share(&dec));
                Ok(AyNode { span: node.span.clone(), inner: Statement::FunDec(dec) })
            },
        },
        PStatement::Expr(expr) => match convert_expr(expr, vars, funs) {
            Err(trace) => Err(enclose(trace, &node.span)),
            Ok(bound) => Ok(AyNode { span: node.span.clone(), inner: Statement::Expr(bound) }),
        },
        PStatement::If { cond, then, otherwise } => match convert_expr(cond, vars, funs) {
            Err(trace) => Err(enclose(trace, &node.span)),
            Ok(cond) => match convert_scoped(then, vars, funs) {
                Err(trace) => Err(enclose(trace, &node.span)),
                Ok(then) => match convert_scoped(otherwise, vars, funs) {
                    Err(trace) => Err(enclose(trace, &node.span)),
                    Ok(otherwise) => Ok(
                        AyNode {
                            span: node.span.clone(),
                            inner: Statement::If { cond, then, otherwise },
                        },
                    ),
                },
            },
        },
        PStatement::Loop { cond, body } => {
            let cond = match cond {
                Some(cond) => match convert_expr(cond, vars, funs) {
                    Err(trace) => {
                        return Err(enclose(trace, &node.span));
                    },
                    Ok(cond) => Some(cond),
                },
                None => None,
            };
            match convert_scoped(body, vars, funs) {
                Err(trace) => Err(enclose(trace, &node.span)),
                Ok(body) => Ok(
                    AyNode { span: node.span.clone(), inner: Statement::Loop { cond, body } },
                ),
            }
        },
    }
}

/// Binds the statements of a block in a layer of their own: opens the layer
/// in both stacks, binds the statements, and closes the layer again, also
/// where a statement failed.
pub fn convert_scoped(
    nodes: &Vec<AyNode<PStatement>>,
    vars: &mut ScopeStack<VarDec>,
    funs: &mut ScopeStack<FunDec>,
) -> (bound: Result<Vec<AyNode<Statement>>, Trace>)
    requires
        old(vars).wf(),
        old(funs).wf(),
    ensures
        final(vars).wf(),
        final(funs).wf(),
        scopes_of(*final(vars), *final(funs)) == bind_scoped(
            nodes@,
            scopes_of(*old(vars), *old(funs)),
        ).0,
        statements_outcome(bound) == bind_scoped(nodes@, scopes_of(*old(vars), *old(funs))).1,
    decreases nodes, 1nat,
{
    vars.push_layer();
    funs.push_layer();
    let ghost inner = scopes_of(*vars, *funs);
    let bound = convert_block(nodes, vars, funs);
    proof {
        lemma_block_keeps_outer(nodes@, inner);
    }
    let closed_vars = vars.pop_layer();
    let closed_funs = funs.pop_layer();
    assert(closed_vars && closed_funs);
    bound
}

/// Binds the statements of a list one after the other, each in the scopes
/// that the one before it left, and stops at the first that fails.
pub fn convert_block(
    nodes: &Vec<AyNode<PStatement>>,
    vars: &mut ScopeStack<VarDec>,
    funs: &mut ScopeStack<FunDec>,
) -> (bound: Result<Vec<AyNode<Statement>>, Trace>)
    requires
        old(vars).wf(),
        old(funs).wf(),
    ensures
        final(vars).wf(),
        final(funs).wf(),
        scopes_of(*final(vars), *final(funs)) == bind_block(
            nodes@,
            scopes_of(*old(vars), *old(funs)),
        ).0,
        statements_outcome(bound) == bind_block(nodes@, scopes_of(*old(vars), *old(funs))).1,
    decreases nodes, 0nat,
{
    let ghost scopes = scopes_of(*vars, *funs);
    let mut bound: Vec<AyNode<Statement>> = Vec::new();
    let mut at: usize = 0;
    assert(statements_view(bound@) =~= Seq::empty());
    while at < nodes.len()
        invariant
            at <= nodes.len(),
            vars.wf(),
            funs.wf(),
            scopes == scopes_of(*old(vars), *old(funs)),
            bind_block(nodes@.take(at as int), scopes) == (
                scopes_of(*vars, *funs),
                Ok::<_, Frames>(statements_view(bound@)),
            ),
        decreases nodes.len() - at,
    {
        let ghost done = nodes@.take(at as int);
        let ghost next = nodes@.take(at + 1);
        assert(next.drop_last() =~= done);
        assert(next.last() == nodes@[at as int]);
        match convert_statement(&nodes[at], vars, funs) {
            Err(trace) => {
                proof {
                    lemma_block_fail(nodes@, at + 1, scopes);
                }
                return Err(trace);
            },
            Ok(node) => {
                let ghost before = bound@;
                bound.push(node);
                assert(statements_view(bound@) =~= statements_view(before).push(
                    statement_node_view(node),
                ));
            },
        }
        at += 1;
    }
    assert(nodes@.take(at as int) =~= nodes@);
    Ok(bound)
}

/// Binds a compilation unit: the statements in order, starting with nothing
/// declared. Gives the bound statements, or the trace of the first failure.
pub fn convert(ast: &Vec<AyNode<PStatement>>) -> (bound: Result<Vec<AyNode<Statement>>, Trace>)
    ensures
        statements_outcome(bound) == bind(ast@),
{
    let mut vars = ScopeStack::<VarDec>::new();
    let mut funs = ScopeStack::<FunDec>::new();
    convert_block(ast, &mut vars, &mut funs)
}

/// Determinism: binding is a function of the tree, so two runs on one tree
/// give the same bound tree, or the same trace.
pub proof fn lemma_binding_is_deterministic(
    ast: Vec<AyNode<PStatement>>,
    first: Result<Vec<AyNode<Statement>>, Trace>,
    second: Result<Vec<AyNode<Statement>>, Trace>,
)
    requires
        statements_outcome(first) == bind(ast@),
        statements_outcome(second) == bind(ast@),
    ensures
        statements_outcome(first) == statements_outcome(second),
{
}

} // verus!
