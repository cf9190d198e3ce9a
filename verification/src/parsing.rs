//! The syntax tree before binding, in which names are still plain text, and
//! how it is built from the tree of rule matches that the grammar yields.

use crate::error::error::{error_at, Error};
use crate::error::span::Span;
use crate::error::trace::{lemma_reports_all, Frames, Stage, Trace};
use crate::number::{number_value, parse_number};
use vstd::prelude::*;
use vstd::string::StringExecFns;

verus! {

/// A node of a syntax tree together with the source range it came from.
#[derive(PartialEq, Debug)]
pub struct AyNode<T> {
    /// Where the node stands in the source.
    pub span: Span,
    /// The node itself.
    pub inner: T,
}

/// Marks the types that are nodes of a syntax tree.
pub trait Node {

}

/// The operator of a comparison.
#[derive(PartialEq, Eq, Debug, Clone, Copy)]
pub enum ComparisonOperator {
    Equal,
    NotEqual,
    Less,
    LessOrEqual,
    Greater,
    GreaterOrEqual,
}

/// A statement is anything that cannot be expected to return a value.
#[derive(PartialEq, Debug)]
#[allow(inconsistent_fields)]
pub enum Statement {
    FunDec { name: String, args: Vec<String>, body: Vec<AyNode<Statement>> },
    VarDec { names: Vec<String>, values: Vec<AyNode<Expr>> },
    Expr(AyNode<Expr>),
    If { cond: AyNode<Expr>, then: Vec<AyNode<Statement>>, otherwise: Vec<AyNode<Statement>> },
    Loop { cond: Option<AyNode<Expr>>, body: Vec<AyNode<Statement>> },
}

impl Node for Statement {

}

/// An expression is anything that is or returns a value.
#[derive(PartialEq, Debug)]
pub enum Expr {
    FunCall { name: String, args: Vec<AyNode<Expr>> },
    Number(i64),
    String(String),
    Ident(String),
    Negated(Box<AyNode<Expr>>),
}

impl Node for Expr {

}

/// The rules of the grammar.
#[allow(non_camel_case_types)]
#[derive(PartialEq, Eq, Structural, Debug, Clone, Copy)]
pub enum Rule {
    EOI,
    program,
    statement,
    expr,
    negation,
    number,
    string,
    ident,
    var_dec,
    if_block,
    block,
}

/// A match of a rule: the rule, the text that it matched and where that
/// stands, and the matches of the rules inside it.
#[derive(PartialEq, Eq, Debug)]
pub struct Pair {
    pub rule: Rule,
    pub span: Span,
    pub text: String,
    pub inner: Vec<Pair>,
}

/// What an unbound statement holds, as mathematical values.
#[allow(inconsistent_fields)]
pub enum StatementView {
    FunDec { name: Seq<char>, args: Seq<Seq<char>>, body: Seq<AyNode<StatementView>> },
    VarDec { names: Seq<Seq<char>>, values: Seq<AyNode<ExprView>> },
    Expr(AyNode<ExprView>),
    If {
        cond: AyNode<ExprView>,
        then: Seq<AyNode<StatementView>>,
        otherwise: Seq<AyNode<StatementView>>,
    },
    Loop { cond: Option<AyNode<ExprView>>, body: Seq<AyNode<StatementView>> },
}

/// What an unbound expression holds, as mathematical values.
pub enum ExprView {
    FunCall { name: Seq<char>, args: Seq<AyNode<ExprView>> },
    Number(i64),
    String(Seq<char>),
    Ident(Seq<char>),
    Negated(Box<AyNode<ExprView>>),
}

/// The texts of a list, as sequences of characters.
pub open spec fn texts_view(texts: Seq<String>) -> Seq<Seq<char>> {
    Seq::new(texts.len(), |i: int| texts[i]@)
}

/// What an expression holds.
pub open spec fn expr_view(expr: Expr) -> ExprView
    decreases expr,
{
    match expr {
        Expr::FunCall { name, args } => ExprView::FunCall { name: name@, args: exprs_view(args@) },
        Expr::Number(value) => ExprView::Number(value),
        Expr::String(text) => ExprView::String(text@),
        Expr::Ident(name) => ExprView::Ident(name@),
        Expr::Negated(inner) => ExprView::Negated(Box::new(expr_node_view(*inner))),
    }
}

/// What an expression holds, at its place in the source.
pub open spec fn expr_node_view(node: AyNode<Expr>) -> AyNode<ExprView>
    decreases node,
{
    AyNode { span: node.span, inner: expr_view(node.inner) }
}

/// What each expression of a list holds.
pub open spec fn exprs_view(nodes: Seq<AyNode<Expr>>) -> Seq<AyNode<ExprView>>
    decreases nodes,
{
    Seq::new(
        nodes.len(),
        |i: int|
            if 0 <= i < nodes.len() {
                expr_node_view(nodes[i])
            } else {
                arbitrary()
            },
    )
}

/// What a statement holds.
pub open spec fn statement_view(statement: Statement) -> StatementView
    decreases statement,
{
    match statement {
        Statement::FunDec { name, args, body } => StatementView::FunDec {
            name: name@,
            args: texts_view(args@),
            body: statements_view(body@),
        },
        Statement::VarDec { names, values } => StatementView::VarDec {
            names: texts_view(names@),
            values: exprs_view(values@),
        },
        Statement::Expr(expr) => StatementView::Expr(expr_node_view(expr)),
        Statement::If { cond, then, otherwise } => StatementView::If {
            cond: expr_node_view(cond),
            then: statements_view(then@),
            otherwise: statements_view(otherwise@),
        },
        Statement::Loop { cond, body } => StatementView::Loop {
            cond: match cond {
                Some(cond) => Some(expr_node_view(cond)),
                None => None,
            },
            body: statements_view(body@),
        },
    }
}

/// What a statement holds, at its place in the source.
pub open spec fn statement_node_view(node: AyNode<Statement>) -> AyNode<StatementView>
    decreases node,
{
    AyNode { span: node.span, inner: statement_view(node.inner) }
}

/// What each statement of a list holds.
pub open spec fn statements_view(nodes: Seq<AyNode<Statement>>) -> Seq<AyNode<StatementView>>
    decreases nodes,
{
    Seq::new(
        nodes.len(),
        |i: int|
            if 0 <= i < nodes.len() {
                statement_node_view(nodes[i])
            } else {
                arbitrary()
            },
    )
}

impl View for Statement {
    type V = StatementView;

    open spec fn view(&self) -> StatementView {
        statement_view(*self)
    }
}

impl View for Expr {
    type V = ExprView;

    open spec fn view(&self) -> ExprView {
        expr_view(*self)
    }
}

/// What the building of an expression gave, as mathematical values.
pub open spec fn expr_outcome(built: Result<AyNode<Expr>, Trace>) -> Result<
    AyNode<ExprView>,
    Frames,
> {
    match built {
        Ok(node) => Ok(expr_node_view(node)),
        Err(trace) => Err(trace@),
    }
}

/// What the building of a list of expressions gave, as mathematical values.
pub open spec fn exprs_outcome(built: Result<Vec<AyNode<Expr>>, Trace>) -> Result<
    Seq<AyNode<ExprView>>,
    Frames,
> {
    match built {
        Ok(nodes) => Ok(exprs_view(nodes@)),
        Err(trace) => Err(trace@),
    }
}

/// What the building of a statement gave, as mathematical values.
pub open spec fn statement_outcome(built: Result<AyNode<Statement>, Trace>) -> Result<
    AyNode<StatementView>,
    Frames,
> {
    match built {
        Ok(node) => Ok(statement_node_view(node)),
        Err(trace) => Err(trace@),
    }
}

/// What the building of a list of statements gave, as mathematical values.
pub open spec fn statements_outcome(built: Result<Vec<AyNode<Statement>>, Trace>) -> Result<
    Seq<AyNode<StatementView>>,
    Frames,
> {
    match built {
        Ok(nodes) => Ok(statements_view(nodes@)),
        Err(trace) => Err(trace@),
    }
}

/// The name of a rule.
pub open spec fn rule_name(rule: Rule) -> Seq<char> {
    match rule {
        Rule::EOI => "EOI"@,
        Rule::program => "program"@,
        Rule::statement => "statement"@,
        Rule::expr => "expr"@,
        Rule::negation => "negation"@,
        Rule::number => "number"@,
        Rule::string => "string"@,
        Rule::ident => "ident"@,
        Rule::var_dec => "var_dec"@,
        Rule::if_block => "if_block"@,
        Rule::block => "block"@,
    }
}

impl Rule {
    /// The rule's name.
    pub fn name(&self) -> (name: &'static str)
        ensures
            name@ == rule_name(*self),
    {
        match self {
            Rule::EOI => "EOI",
            Rule::program => "program",
            Rule::statement => "statement",
            Rule::expr => "expr",
            Rule::negation => "negation",
            Rule::number => "number",
            Rule::string => "string",
            Rule::ident => "ident",
            Rule::var_dec => "var_dec",
            Rule::if_block => "if_block",
            Rule::block => "block",
        }
    }
}

/// The trace of one frame that a stage reports at a match.
pub open spec fn report(stage: Stage, pair: Pair, message: Seq<char>) -> Frames {
    seq![(stage, error_at(None, pair.span, message))]
}

/// The message for a match that lacks a part that its rule has.
pub open spec fn incomplete() -> Seq<char> {
    "a part of this is missing"@
}

/// The message for a number that cannot be read.
pub open spec fn unreadable() -> Seq<char> {
    "unknown parsing error"@
}

/// The message for a match that is not what `rule` asks for.
pub open spec fn expected(rule: Rule) -> Seq<char> {
    "expected "@ + rule_name(rule)
}

/// The message for a rule from which no expression is built.
pub open spec fn no_expression(rule: Rule) -> Seq<char> {
    "Missing expression-generating rule `"@ + rule_name(rule) + "` handling"@
}

/// The message for a rule from which no statement is built.
pub open spec fn no_statement(rule: Rule) -> Seq<char> {
    "Missing statement-generating rule `"@ + rule_name(rule) + "` handling"@
}

/// The message for a rule that has no place at the top of a program.
pub open spec fn unknown_rule(rule: Rule) -> Seq<char> {
    "Unknown rule: "@ + rule_name(rule)
}

/// What building inside `parent` gave: as it is where it succeeded, and
/// with one more frame, at `parent`, where it failed.
pub open spec fn handled<T>(parent: Pair, built: Result<T, Frames>) -> Result<T, Frames> {
    match built {
        Ok(built) => Ok(built),
        Err(frames) => Err(
            frames.push((Stage::Parsing, error_at(None, parent.span, expected(parent.rule)))),
        ),
    }
}

/// The expression that a match stands for.
///
/// A negation holds an expression, wrapped in a match of the rule `expr`.
/// A number is read in base eight. A string and an identifier are their
/// text. No other rule gives an expression.
pub open spec fn built_expr(pair: Pair) -> Result<AyNode<ExprView>, Frames>
    decreases pair,
{
    match pair.rule {
        Rule::negation => if pair.inner@.len() > 0 && pair.inner@[0].inner@.len() > 0 {
            match built_expr(pair.inner@[0].inner@[0]) {
                Err(frames) => Err(frames),
                Ok(inner) => Ok(
                    AyNode { span: pair.span, inner: ExprView::Negated(Box::new(inner)) },
                ),
            }
        } else {
            Err(report(Stage::AstBuilding, pair, incomplete()))
        },
        Rule::number => match number_value(pair.text@) {
            Some(value) => Ok(AyNode { span: pair.span, inner: ExprView::Number(value) }),
            None => Err(report(Stage::Parsing, pair, unreadable())),
        },
        Rule::string => Ok(AyNode { span: pair.span, inner: ExprView::String(pair.text@) }),
        Rule::ident => Ok(AyNode { span: pair.span, inner: ExprView::Ident(pair.text@) }),
        rule => Err(report(Stage::AstBuilding, pair, no_expression(rule))),
    }
}

/// The names that a variable declaration declares: the texts of those of
/// its parts that are identifiers, in order.
pub open spec fn declared_names(parts: Seq<Pair>) -> Seq<Seq<char>>
    decreases parts.len(),
{
    if parts.len() == 0 {
        Seq::empty()
    } else if parts.last().rule == Rule::ident {
        declared_names(parts.drop_last()).push(parts.last().text@)
    } else {
        declared_names(parts.drop_last())
    }
}

/// The number of values of a variable declaration: of those of its parts
/// that are no identifiers.
pub open spec fn value_count(parts: Seq<Pair>) -> nat
    decreases parts.len(),
{
    if parts.len() == 0 {
        0
    } else if parts.last().rule == Rule::ident {
        value_count(parts.drop_last())
    } else {
        value_count(parts.drop_last()) + 1
    }
}

/// The values of a variable declaration: the expressions of those of its
/// parts that are no identifiers, in order, or the trace of the first that
/// fails.
pub open spec fn built_values(parts: Seq<Pair>) -> Result<Seq<AyNode<ExprView>>, Frames>
    decreases parts,
{
    if parts.len() == 0 {
        Ok(Seq::empty())
    } else {
        match built_values(parts.drop_last()) {
            Err(frames) => Err(frames),
            Ok(values) => if parts.last().rule == Rule::ident {
                Ok(values)
            } else {
                match built_expr(parts.last()) {
                    Err(frames) => Err(frames),
                    Ok(value) => Ok(values.push(value)),
                }
            },
        }
    }
}

/// The statement that a match stands for.
///
/// A match of `expr` or of `statement` wraps what it stands for. A variable
/// declaration needs as many values as names. An `if` holds its condition,
/// its first branch and, where there is one, its second; a failure in a
/// branch gets a frame at the `if`. No other rule gives a statement.
pub open spec fn built_statement(pair: Pair) -> Result<AyNode<StatementView>, Frames>
    decreases pair, 0nat,
{
    match pair.rule {
        Rule::expr => if pair.inner@.len() > 0 {
            match built_expr(pair.inner@[0]) {
                Err(frames) => Err(frames),
                Ok(expr) => Ok(AyNode { span: pair.span, inner: StatementView::Expr(expr) }),
            }
        } else {
            Err(report(Stage::AstBuilding, pair, incomplete()))
        },
        Rule::var_dec => if declared_names(pair.inner@).len() != value_count(pair.inner@) {
            Err(report(Stage::Parsing, pair, expected(Rule::var_dec)))
        } else {
            match built_values(pair.inner@) {
                Err(frames) => Err(frames),
                Ok(values) => Ok(
                    AyNode {
                        span: pair.span,
                        inner: StatementView::VarDec { names: declared_names(pair.inner@), values },
                    },
                ),
            }
        },
        Rule::if_block => if pair.inner@.len() > 1 && pair.inner@[0].inner@.len() > 0 {
            match built_expr(pair.inner@[0].inner@[0]) {
                Err(frames) => Err(frames),
                Ok(cond) => match built_block(pair.inner@[1].inner@, pair) {
                    Err(frames) => Err(frames),
                    Ok(then) => if pair.inner@.len() > 2 {
                        match built_block(pair.inner@[2].inner@, pair) {
                            Err(frames) => Err(frames),
                            Ok(otherwise) => Ok(
                                AyNode {
                                    span: pair.span,
                                    inner: StatementView::If { cond, then, otherwise },
                                },
                            ),
                        }
                    } else {
                        Ok(
                            AyNode {
                                span: pair.span,
                                inner: StatementView::If { cond, then, otherwise: Seq::empty() },
                            },
                        )
                    },
                },
            }
        } else {
            Err(report(Stage::AstBuilding, pair, incomplete()))
        },
        Rule::statement => if pair.inner@.len() > 0 {
            built_statement(pair.inner@[0])
        } else {
            Err(report(Stage::AstBuilding, pair, incomplete()))
        },
        rule => Err(report(Stage::AstBuilding, pair, no_statement(rule))),
    }
}

/// The statements of a branch of `parent`, in order, or the trace of the
/// first that fails, with a frame at `parent`.
pub open spec fn built_block(parts: Seq<Pair>, parent: Pair) -> Result<
    Seq<AyNode<StatementView>>,
    Frames,
>
    decreases parts, 0nat,
{
    if parts.len() == 0 {
        Ok(Seq::empty())
    } else {
        match built_block(parts.drop_last(), parent) {
            Err(frames) => Err(frames),
            Ok(statements) => match handled(parent, built_statement(parts.last())) {
                Err(frames) => Err(frames),
                Ok(statement) => Ok(statements.push(statement)),
            },
        }
    }
}

/// The statements of a program: those that its matches of `statement` stand
/// for, in order. The end of the input stands for nothing, and any other
/// rule has no place there.
pub open spec fn parsed(pairs: Seq<Pair>) -> Result<Seq<AyNode<StatementView>>, Frames>
    decreases pairs.len(),
{
    if pairs.len() == 0 {
        Ok(Seq::empty())
    } else {
        match parsed(pairs.drop_last()) {
            Err(frames) => Err(frames),
            Ok(statements) => match pairs.last().rule {
                Rule::statement => match built_statement(pairs.last()) {
                    Err(frames) => Err(frames),
                    Ok(statement) => Ok(statements.push(statement)),
                },
                Rule::EOI => Ok(statements),
                rule => Err(report(Stage::Unknown, pairs.last(), unknown_rule(rule))),
            },
        }
    }
}

/// What a fallible step gave, its trace as mathematical values.
pub open spec fn frames_of<T>(built: Result<T, Trace>) -> Result<T, Frames> {
    match built {
        Ok(built) => Ok(built),
        Err(trace) => Err(trace@),
    }
}

/// A trace of one frame that a stage reports at a match.
fn trace_at(stage: Stage, pair: &Pair, message: String) -> (trace: Trace)
    ensures
        trace@ == report(stage, *pair, message@),
{
    let err = Error::new(None, &pair.span, message);
    let trace = Trace::new(stage, err);
    proof {
        lemma_reports_all(err, trace@[0].1);
        assert(trace@ =~= report(stage, *pair, message@));
    }
    trace
}

/// Hands on what building inside `parent` gave; where it failed, the trace
/// gets one more frame, which says that `parent` was expected there.
pub fn handle<T>(parent: &Pair, built: Result<T, Trace>) -> (out: Result<T, Trace>)
    ensures
        frames_of(out) == handled(*parent, frames_of(built)),
{
    match built {
        Ok(built) => Ok(built),
        Err(trace) => {
            let mut trace = trace;
            let ghost before = trace@;
            let err = Error::new(
                None,
                &parent.span,
                String::from_str("expected ").concat(parent.rule.name()),
            );
            trace.push(Stage::Parsing, err);
            proof {
                lemma_reports_all(err, trace@.last().1);
                assert(trace@ =~= before.push((Stage::Parsing, err@)));
            }
            Err(trace)
        },
    }
}

/// Once a value fails, so do the values, with its trace.
proof fn lemma_values_fail(parts: Seq<Pair>, upto: int)
    requires
        0 <= upto <= parts.len(),
        built_values(parts.take(upto)) is Err,
    ensures
        built_values(parts) == built_values(parts.take(upto)),
    decreases parts.len(),
{
    if upto == parts.len() {
        assert(parts.take(upto) =~= parts);
    } else {
        assert(parts.drop_last().take(upto) =~= parts.take(upto));
        lemma_values_fail(parts.drop_last(), upto);
    }
}

/// Once a statement of a branch fails, so does the branch, with its trace.
proof fn lemma_built_block_fail(parts: Seq<Pair>, upto: int, parent: Pair)
    requires
        0 <= upto <= parts.len(),
        built_block(parts.take(upto), parent) is Err,
    ensures
        built_block(parts, parent) == built_block(parts.take(upto), parent),
    decreases parts.len(),
{
    if upto == parts.len() {
        assert(parts.take(upto) =~= parts);
    } else {
        assert(parts.drop_last().take(upto) =~= parts.take(upto));
        lemma_built_block_fail(parts.drop_last(), upto, parent);
    }
}

/// Once a match at the top fails, so does the program, with its trace.
proof fn lemma_parsed_fail(pairs: Seq<Pair>, upto: int)
    requires
        0 <= upto <= pairs.len(),
        parsed(pairs.take(upto)) is Err,
    ensures
        parsed(pairs) == parsed(pairs.take(upto)),
    decreases pairs.len(),
{
    if upto == pairs.len() {
        assert(pairs.take(upto) =~= pairs);
    } else {
        assert(pairs.drop_last().take(upto) =~= pairs.take(upto));
        lemma_parsed_fail(pairs.drop_last(), upto);
    }
}

/// Builds the expression that a match stands for.
pub fn build_ast_from_expr(pair: &Pair) -> (built: Result<AyNode<Expr>, Trace>)
    ensures
        expr_outcome(built) == built_expr(*pair),
    decreases pair,
{
    match pair.rule {
        Rule::negation => if pair.inner.len() > 0 && pair.inner[0].inner.len() > 0 {
            match build_ast_from_expr(&pair.inner[0].inner[0]) {
                Err(trace) => Err(trace),
                Ok(inner) => Ok(
                    AyNode { span: pair.span.clone(), inner: Expr::Negated(Box::new(inner)) },
                ),
            }
        } else {
            Err(trace_at(Stage::AstBuilding, pair, String::from_str("a part of this is missing")))
        },
        Rule::number => match parse_number(pair.text.as_str()) {
            Some(value) => Ok(AyNode { span: pair.span.clone(), inner: Expr::Number(value) }),
            None => Err(trace_at(Stage::Parsing, pair, String::from_str("unknown parsing error"))),
        },
        Rule::string => Ok(
            AyNode { span: pair.span.clone(), inner: Expr::String(pair.text.clone()) },
        ),
        Rule::ident => Ok(
            AyNode { span: pair.span.clone(), inner: Expr::Ident(pair.text.clone()) },
        ),
        rule => Err(
            trace_at(
                Stage::AstBuilding,
                pair,
                String::from_str("Missing expression-generating rule `").concat(
                    rule.name(),
                ).concat("` handling"),
            ),
        ),
    }
}

/// The names that a variable declaration declares.
fn names_of(parts: &Vec<Pair>) -> (names: Vec<String>)
    ensures
        texts_view(names@) == declared_names(parts@),
{
    let mut names: Vec<String> = Vec::new();
    let mut at: usize = 0;
    assert(texts_view(names@) =~= Seq::empty());
    while at < parts.len()
        invariant
            at <= parts.len(),
            texts_view(names@) == declared_names(parts@.take(at as int)),
        decreases parts.len() - at,
    {
        assert(parts@.take(at + 1).drop_last() =~= parts@.take(at as int));
        if parts[at].rule == Rule::ident {
            let ghost before = names@;
            names.push(parts[at].text.clone());
            assert(texts_view(names@) =~= texts_view(before).push(parts[at as int].text@));
        }
        at += 1;
    }
    assert(parts@.take(at as int) =~= parts@);
    names
}

/// The number of values of a variable declaration.
fn values_in(parts: &Vec<Pair>) -> (count: usize)
    ensures
        count == value_count(parts@),
{
    let mut count: usize = 0;
    let mut at: usize = 0;
    while at < parts.len()
        invariant
            count <= at <= parts.len(),
            count == value_count(parts@.take(at as int)),
        decreases parts.len() - at,
    {
        assert(parts@.take(at + 1).drop_last() =~= parts@.take(at as int));
        if parts[at].rule != Rule::ident {
            count += 1;
        }
        at += 1;
    }
    assert(parts@.take(at as int) =~= parts@);
    count
}

/// Builds the values of a variable declaration.
fn build_values(parts: &Vec<Pair>) -> (built: Result<Vec<AyNode<Expr>>, Trace>)
    ensures
        exprs_outcome(built) == built_values(parts@),
    decreases parts,
{
    let mut values: Vec<AyNode<Expr>> = Vec::new();
    let mut at: usize = 0;
    assert(exprs_view(values@) =~= Seq::empty());
    while at < parts.len()
        invariant
            at <= parts.len(),
            built_values(parts@.take(at as int)) == Ok::<_, Frames>(exprs_view(values@)),
        decreases parts.len() - at,
    {
        assert(parts@.take(at + 1).drop_last() =~= parts@.take(at as int));
        assert(parts@.take(at + 1).last() == parts@[at as int]);
        if parts[at].rule != Rule::ident {
            match build_ast_from_expr(&parts[at]) {
                Err(trace) => {
                    proof {
                        lemma_values_fail(parts@, at + 1);
                    }
                    return Err(trace);
                },
                Ok(value) => {
                    let ghost before = values@;
                    values.push(value);
                    assert(exprs_view(values@) =~= exprs_view(before).push(expr_node_view(value)));
                },
            }
        }
        at += 1;
    }
    assert(parts@.take(at as int) =~= parts@);
    Ok(values)
}

/// Builds the statement that a match stands for.
pub fn build_ast_from_statement(pair: &Pair) -> (built: Result<AyNode<Statement>, Trace>)
    ensures
        statement_outcome(built) == built_statement(*pair),
    decreases pair, 0nat,
{
    match pair.rule {
        Rule::expr => if pair.inner.len() > 0 {
            match build_ast_from_expr(&pair.inner[0]) {
                Err(trace) => Err(trace),
                Ok(expr) => Ok(AyNode { span: pair.span.clone(), inner: Statement::Expr(expr) }),
            }
        } else {
            Err(trace_at(Stage::AstBuilding, pair, String::from_str("a part of this is missing")))
        },
        Rule::var_dec => {
            let names = names_of(&pair.inner);
            assert(texts_view(names@).len() == names@.len());
            if names.len() != values_in(&pair.inner) {
                Err(
                    trace_at(
                        Stage::Parsing,
                        pair,
                        String::from_str("expected ").concat(Rule::var_dec.name()),
                    ),
                )
            } else {
                match build_values(&pair.inner) {
                    Err(trace) => Err(trace),
                    Ok(values) => Ok(
                        AyNode {
                            span: pair.span.clone(),
                            inner: Statement::VarDec { names, values },
                        },
                    ),
                }
            }
        },
        Rule::if_block => if pair.inner.len() > 1 && pair.inner[0].inner.len() > 0 {
            match build_ast_from_expr(&pair.inner[0].inner[0]) {
                Err(trace) => Err(trace),
                Ok(cond) => match build_block(&pair.inner[1].inner, pair) {
                    Err(trace) => Err(trace),
                    Ok(then) => if pair.inner.len() > 2 {
                        match build_block(&pair.inner[2].inner, pair) {
                            Err(trace) => Err(trace),
                            Ok(otherwise) => Ok(
                                AyNode {
                                    span: pair.span.clone(),
                                    inner: Statement::If { cond, then, otherwise },
                                },
                            ),
                        }
                    } else {
                        let otherwise: Vec<AyNode<Statement>> = Vec::new();
                        assert(statements_view(otherwise@) =~= Seq::empty());
                        Ok(
                            AyNode {
                                span: pair.span.clone(),
                                inner: Statement::If { cond, then, otherwise },
                            },
                        )
                    },
                },
            }
        } else {
            Err(trace_at(Stage::AstBuilding, pair, String::from_str("a part of this is missing")))
        },
        Rule::statement => if pair.inner.len() > 0 {
            build_ast_from_statement(&pair.inner[0])
        } else {
            Err(trace_at(Stage::AstBuilding, pair, String::from_str("a part of this is missing")))
        },
        rule => Err(
            trace_at(
                Stage::AstBuilding,
                pair,
                String::from_str("Missing statement-generating rule `").concat(
                    rule.name(),
                ).concat("` handling"),
            ),
        ),
    }
}

/// Builds the statements of a branch of `parent`.
fn build_block(parts: &Vec<Pair>, parent: &Pair) -> (built: Result<
    Vec<AyNode<Statement>>,
    Trace,
>)
    ensures
        statements_outcome(built) == built_block(parts@, *parent),
    decreases parts, 0nat,
{
    let mut statements: Vec<AyNode<Statement>> = Vec::new();
    let mut at: usize = 0;
    assert(statements_view(statements@) =~= Seq::empty());
    while at < parts.len()
        invariant
            at <= parts.len(),
            built_block(parts@.take(at as int), *parent) == Ok::<_, Frames>(
                statements_view(statements@),
            ),
        decreases parts.len() - at,
    {
        assert(parts@.take(at + 1).drop_last() =~= parts@.take(at as int));
        assert(parts@.take(at + 1).last() == parts@[at as int]);
        match handle(parent, build_ast_from_statement(&parts[at])) {
            Err(trace) => {
                proof {
                    lemma_built_block_fail(parts@, at + 1, *parent);
                }
                return Err(trace);
            },
            Ok(statement) => {
                let ghost before = statements@;
                statements.push(statement);
                assert(statements_view(statements@) =~= statements_view(before).push(
                    statement_node_view(statement),
                ));
            },
        }
        at += 1;
    }
    assert(parts@.take(at as int) =~= parts@);
    Ok(statements)
}

/// Builds the syntax tree of a program from the matches at its top.
pub fn parse(pairs: &Vec<Pair>) -> (ast: Result<Vec<AyNode<Statement>>, Trace>)
    ensures
        statements_outcome(ast) == parsed(pairs@),
{
    let mut ast: Vec<AyNode<Statement>> = Vec::new();
    let mut at: usize = 0;
    assert(statements_view(ast@) =~= Seq::empty());
    while at < pairs.len()
        invariant
            at <= pairs.len(),
            parsed(pairs@.take(at as int)) == Ok::<_, Frames>(statements_view(ast@)),
        decreases pairs.len() - at,
    {
        assert(pairs@.take(at + 1).drop_last() =~= pairs@.take(at as int));
        assert(pairs@.take(at + 1).last() == pairs@[at as int]);
        match pairs[at].rule {
            Rule::statement => match build_ast_from_statement(&pairs[at]) {
                Err(trace) => {
                    proof {
                        lemma_parsed_fail(pairs@, at + 1);
                    }
                    return Err(trace);
                },
                Ok(statement) => {
                    let ghost before = ast@;
                    ast.push(statement);
                    assert(statements_view(ast@) =~= statements_view(before).push(
                        statement_node_view(statement),
                    ));
                },
            },
            Rule::EOI => {},
            rule => {
                proof {
                    lemma_parsed_fail(pairs@, at + 1);
                }
                return Err(
                    trace_at(
                        Stage::Unknown,
                        &pairs[at],
                        String::from_str("Unknown rule: ").concat(rule.name()),
                    ),
                );
            },
        }
        at += 1;
    }
    assert(pairs@.take(at as int) =~= pairs@);
    Ok(ast)
}

} // verus!
