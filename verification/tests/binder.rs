use aylang::binding::{convert, convert_expr, convert_statement, Expr, FunDec, Statement, Tense, VarDec};
use aylang::error::error::{ErrorKind, LineColLocation};
use aylang::error::span::Span;
use aylang::error::trace::{Stage, Trace};
use aylang::parsing::{AyNode, Expr as PExpr, Statement as PStatement};
use aylang::scope::ScopeStack;
use std::rc::Rc;

fn span(line: usize, column: usize, width: usize) -> Span {
    Span { start: (line, column), end: (line, column + width), line: format!("line {line}") }
}

fn number(line: usize, value: i64) -> AyNode<PExpr> {
    AyNode { span: span(line, 1, 1), inner: PExpr::Number(value) }
}

fn ident(line: usize, name: &str) -> AyNode<PExpr> {
    AyNode { span: span(line, 1, name.chars().count()), inner: PExpr::Ident(name.to_string()) }
}

fn call(line: usize, name: &str, args: Vec<AyNode<PExpr>>) -> AyNode<PExpr> {
    AyNode { span: span(line, 1, 9), inner: PExpr::FunCall { name: name.to_string(), args } }
}

fn perform(line: usize, expr: AyNode<PExpr>) -> AyNode<PStatement> {
    AyNode { span: span(line, 0, 10), inner: PStatement::Expr(expr) }
}

fn declare(line: usize, names: &[&str], values: Vec<AyNode<PExpr>>) -> AyNode<PStatement> {
    AyNode {
        span: span(line, 0, 12),
        inner: PStatement::VarDec { names: names.iter().map(|name| name.to_string()).collect(), values },
    }
}

fn function(line: usize, name: &str, args: &[&str], body: Vec<AyNode<PStatement>>) -> AyNode<PStatement> {
    AyNode {
        span: span(line, 0, 20),
        inner: PStatement::FunDec {
            name: name.to_string(),
            args: args.iter().map(|name| name.to_string()).collect(),
            body,
        },
    }
}

fn branch(
    line: usize,
    cond: AyNode<PExpr>,
    then: Vec<AyNode<PStatement>>,
    otherwise: Vec<AyNode<PStatement>>,
) -> AyNode<PStatement> {
    AyNode { span: span(line, 0, 30), inner: PStatement::If { cond, then, otherwise } }
}

fn repeat(line: usize, cond: Option<AyNode<PExpr>>, body: Vec<AyNode<PStatement>>) -> AyNode<PStatement> {
    AyNode { span: span(line, 0, 30), inner: PStatement::Loop { cond, body } }
}

fn var_of(statement: &AyNode<Statement>) -> Rc<VarDec> {
    match &statement.inner {
        Statement::VarDec(dec) => dec.clone(),
        other => panic!("not a variable declaration: {other:?}"),
    }
}

fn fun_of(statement: &AyNode<Statement>) -> Rc<FunDec> {
    match &statement.inner {
        Statement::FunDec(dec) => dec.clone(),
        other => panic!("not a function declaration: {other:?}"),
    }
}

fn used_var(statement: &AyNode<Statement>) -> Rc<VarDec> {
    match &statement.inner {
        Statement::Expr(AyNode { inner: Expr::Var(dec), .. }) => dec.clone(),
        other => panic!("not a use of a variable: {other:?}"),
    }
}

fn called(statement: &AyNode<Statement>) -> (Tense, Rc<FunDec>, String) {
    match &statement.inner {
        Statement::Expr(AyNode { inner: Expr::FunCall { tense, dec, name, .. }, .. }) => {
            (*tense, dec.clone(), name.clone())
        }
        other => panic!("not a call: {other:?}"),
    }
}

fn failed(bound: Result<Vec<AyNode<Statement>>, Trace>) -> Trace {
    match bound {
        Ok(bound) => panic!("bound: {bound:?}"),
        Err(trace) => trace,
    }
}

#[test]
fn empty_unit_binds_to_nothing() {
    assert_eq!(convert(&vec![]), Ok(vec![]));
}

#[test]
fn literals_are_copied_through() {
    let text = AyNode { span: span(2, 3, 4), inner: PExpr::String("kaltxì".to_string()) };
    let bound = convert(&vec![perform(1, number(1, 42)), perform(2, text)]).unwrap();
    assert_eq!(
        bound,
        vec![
            AyNode {
                span: span(1, 0, 10),
                inner: Statement::Expr(AyNode { span: span(1, 1, 1), inner: Expr::Number(42) }),
            },
            AyNode {
                span: span(2, 0, 10),
                inner: Statement::Expr(AyNode {
                    span: span(2, 3, 4),
                    inner: Expr::String("kaltxì".to_string()),
                }),
            },
        ]
    );
}

#[test]
fn negation_wraps_the_bound_expression() {
    let negated =
        AyNode { span: span(1, 0, 2), inner: PExpr::Negated(Box::new(number(1, 7))) };
    let vars = ScopeStack::new();
    let funs = ScopeStack::new();
    assert_eq!(
        convert_expr(&negated, &vars, &funs),
        Ok(AyNode {
            span: span(1, 0, 2),
            inner: Expr::Negated(Box::new(AyNode { span: span(1, 1, 1), inner: Expr::Number(7) })),
        })
    );
}

#[test]
fn binding_twice_gives_the_same_tree() {
    let unit = || {
        vec![
            declare(1, &["a", "b"], vec![number(1, 1), number(1, 2)]),
            function(2, "t.aron", &["x"], vec![perform(3, ident(3, "a"))]),
            perform(4, call(4, "tayaron", vec![ident(4, "b")])),
        ]
    };
    let first = convert(&unit());
    let second = convert(&unit());
    assert!(first.is_ok());
    assert_eq!(first, second);
    let broken = || vec![perform(1, ident(1, "nowhere"))];
    assert_eq!(convert(&broken()), convert(&broken()));
}

#[test]
fn variable_use_is_tied_to_its_declaration() {
    let bound = convert(&vec![
        declare(1, &["a"], vec![number(1, 1)]),
        perform(2, ident(2, "a")),
    ])
    .unwrap();
    let dec = var_of(&bound[0]);
    assert_eq!(dec.names, vec!["a".to_string()]);
    assert_eq!(dec.values, vec![AyNode { span: span(1, 1, 1), inner: Expr::Number(1) }]);
    assert!(Rc::ptr_eq(&used_var(&bound[1]), &dec));
}

#[test]
fn variable_cannot_be_used_in_its_own_initializer() {
    let trace = failed(convert(&vec![declare(1, &["a"], vec![ident(1, "a")])]));
    assert_eq!(trace.cause(), Some(ErrorKind::UnresolvedVariable));
}

#[test]
fn initializer_sees_the_outer_declaration_of_the_same_name() {
    let bound = convert(&vec![
        declare(1, &["a"], vec![number(1, 1)]),
        declare(2, &["a"], vec![ident(2, "a")]),
        perform(3, ident(3, "a")),
    ])
    .unwrap();
    let first = var_of(&bound[0]);
    let second = var_of(&bound[1]);
    match &second.values[0].inner {
        Expr::Var(dec) => assert!(Rc::ptr_eq(dec, &first)),
        other => panic!("{other:?}"),
    }
    assert!(Rc::ptr_eq(&used_var(&bound[2]), &second));
}

#[test]
fn unresolved_variable_is_reported_at_the_identifier() {
    let trace = failed(convert(&vec![perform(7, ident(7, "tsun"))]));
    assert_eq!(trace.cause(), Some(ErrorKind::UnresolvedVariable));
    assert_eq!(trace.len(), 2);
    assert_eq!(trace.stage(0), Some(Stage::Binding));
    assert_eq!(trace.stage(1), Some(Stage::Binding));
    assert_eq!(trace.stage(2), None);
    let cause = trace.error(0).unwrap();
    assert_eq!(cause.location, LineColLocation::Span((7, 1), (7, 5)));
    assert_eq!(cause.line, "line 7");
    assert_eq!(cause.message, "no variable is declared under the name tsun");
    let context = trace.error(1).unwrap();
    assert_eq!(context.kind, None);
    assert_eq!(context.location, LineColLocation::Span((7, 0), (7, 10)));
    assert_eq!(context.message, "while binding this");
    assert!(trace.error(2).is_none());
}

#[test]
fn trace_has_a_frame_for_each_enclosing_node() {
    // loop { if 1 { -f(x) } }
    let negated = AyNode {
        span: span(3, 4, 5),
        inner: PExpr::Negated(Box::new(call(3, "f", vec![ident(3, "x")]))),
    };
    let unit = vec![
        function(1, "f", &[], vec![]),
        repeat(2, None, vec![branch(2, number(2, 1), vec![perform(3, negated)], vec![])]),
    ];
    let trace = failed(convert(&unit));
    assert_eq!(trace.cause(), Some(ErrorKind::UnresolvedVariable));
    let places: Vec<LineColLocation> =
        (0..trace.len()).map(|index| trace.error(index).unwrap().location).collect();
    assert_eq!(
        places,
        vec![
            LineColLocation::Span((3, 1), (3, 2)),
            LineColLocation::Span((3, 1), (3, 10)),
            LineColLocation::Span((3, 4), (3, 9)),
            LineColLocation::Span((3, 0), (3, 10)),
            LineColLocation::Span((2, 0), (2, 30)),
            LineColLocation::Span((2, 0), (2, 30)),
        ]
    );
    let kinds: Vec<Option<ErrorKind>> =
        (0..trace.len()).map(|index| trace.error(index).unwrap().kind).collect();
    assert_eq!(kinds, vec![Some(ErrorKind::UnresolvedVariable), None, None, None, None, None]);
}

#[test]
fn unresolved_function_is_reported_at_the_call() {
    let trace = failed(convert(&vec![perform(1, call(1, "taron", vec![]))]));
    assert_eq!(trace.cause(), Some(ErrorKind::UnresolvedFunction));
    let cause = trace.error(0).unwrap();
    assert_eq!(cause.location, LineColLocation::Span((1, 1), (1, 10)));
    assert_eq!(cause.message, "no declared function is spelled taron");
}

#[test]
fn arguments_are_bound_before_the_call_is_resolved() {
    let trace = failed(convert(&vec![perform(1, call(1, "taron", vec![ident(1, "x")]))]));
    assert_eq!(trace.cause(), Some(ErrorKind::UnresolvedVariable));
}

#[test]
fn two_names_one_value_is_an_arity_mismatch() {
    let trace = failed(convert(&vec![declare(5, &["a", "b"], vec![number(5, 1)])]));
    assert_eq!(trace.cause(), Some(ErrorKind::ArityMismatch));
    assert_eq!(trace.len(), 1);
    let cause = trace.error(0).unwrap();
    assert_eq!(cause.location, LineColLocation::Span((5, 0), (5, 12)));
    assert_eq!(cause.message, "the declaration has not as many values as names");
}

#[test]
fn one_name_two_values_is_an_arity_mismatch() {
    let trace = failed(convert(&vec![declare(5, &["a"], vec![number(5, 1), number(5, 2)])]));
    assert_eq!(trace.cause(), Some(ErrorKind::ArityMismatch));
}

#[test]
fn failing_value_is_reported_before_the_arity() {
    let trace = failed(convert(&vec![declare(5, &["a", "b"], vec![ident(5, "x")])]));
    assert_eq!(trace.cause(), Some(ErrorKind::UnresolvedVariable));
}

#[test]
fn two_names_two_values_share_one_declaration() {
    let bound = convert(&vec![
        declare(1, &["a", "b"], vec![number(1, 1), number(1, 2)]),
        perform(2, ident(2, "a")),
        perform(3, ident(3, "b")),
    ])
    .unwrap();
    let dec = var_of(&bound[0]);
    assert_eq!(dec.names, vec!["a".to_string(), "b".to_string()]);
    assert_eq!(dec.values.len(), 2);
    assert!(Rc::ptr_eq(&used_var(&bound[1]), &dec));
    assert!(Rc::ptr_eq(&used_var(&bound[2]), &dec));
}

#[test]
fn name_declared_in_function_body_does_not_escape() {
    let unit = vec![
        function(1, "f", &[], vec![declare(2, &["a"], vec![number(2, 1)]), perform(3, ident(3, "a"))]),
        perform(4, ident(4, "a")),
    ];
    let trace = failed(convert(&unit));
    assert_eq!(trace.cause(), Some(ErrorKind::UnresolvedVariable));
    assert_eq!(trace.error(0).unwrap().location, LineColLocation::Span((4, 1), (4, 2)));
}

#[test]
fn name_declared_in_a_branch_does_not_escape() {
    let unit = vec![
        branch(1, number(1, 1), vec![declare(2, &["a"], vec![number(2, 1)])], vec![]),
        perform(4, ident(4, "a")),
    ];
    assert_eq!(failed(convert(&unit)).cause(), Some(ErrorKind::UnresolvedVariable));
    let unit = vec![
        branch(1, number(1, 1), vec![], vec![function(2, "t.aron", &[], vec![])]),
        perform(4, call(4, "taron", vec![])),
    ];
    assert_eq!(failed(convert(&unit)).cause(), Some(ErrorKind::UnresolvedFunction));
}

#[test]
fn name_declared_in_a_loop_body_does_not_escape() {
    let unit = vec![
        repeat(1, Some(number(1, 1)), vec![declare(2, &["a"], vec![number(2, 1)])]),
        perform(4, ident(4, "a")),
    ];
    assert_eq!(failed(convert(&unit)).cause(), Some(ErrorKind::UnresolvedVariable));
}

#[test]
fn branches_do_not_see_each_other() {
    let unit = vec![branch(
        1,
        number(1, 1),
        vec![declare(2, &["a"], vec![number(2, 1)])],
        vec![perform(3, ident(3, "a"))],
    )];
    let trace = failed(convert(&unit));
    assert_eq!(trace.cause(), Some(ErrorKind::UnresolvedVariable));
    assert_eq!(trace.error(0).unwrap().location, LineColLocation::Span((3, 1), (3, 2)));
}

#[test]
fn branches_see_the_enclosing_scope() {
    let unit = vec![
        declare(1, &["a"], vec![number(1, 1)]),
        branch(2, ident(2, "a"), vec![perform(3, ident(3, "a"))], vec![perform(4, ident(4, "a"))]),
    ];
    let bound = convert(&unit).unwrap();
    let dec = var_of(&bound[0]);
    match &bound[1].inner {
        Statement::If { cond, then, otherwise } => {
            match &cond.inner {
                Expr::Var(cond) => assert!(Rc::ptr_eq(cond, &dec)),
                other => panic!("{other:?}"),
            }
            assert!(Rc::ptr_eq(&used_var(&then[0]), &dec));
            assert!(Rc::ptr_eq(&used_var(&otherwise[0]), &dec));
        }
        other => panic!("{other:?}"),
    }
}

#[test]
fn inner_variable_shadows_and_outer_returns() {
    let unit = vec![
        declare(1, &["a"], vec![number(1, 1)]),
        repeat(
            2,
            None,
            vec![declare(3, &["a"], vec![number(3, 2)]), perform(4, ident(4, "a"))],
        ),
        perform(5, ident(5, "a")),
    ];
    let bound = convert(&unit).unwrap();
    let outer = var_of(&bound[0]);
    match &bound[1].inner {
        Statement::Loop { cond, body } => {
            assert!(cond.is_none());
            let inner = var_of(&body[0]);
            assert!(!Rc::ptr_eq(&inner, &outer));
            assert!(Rc::ptr_eq(&used_var(&body[1]), &inner));
        }
        other => panic!("{other:?}"),
    }
    assert!(Rc::ptr_eq(&used_var(&bound[2]), &outer));
}

#[test]
fn loop_condition_is_bound_outside_the_body() {
    let unit = vec![repeat(
        1,
        Some(ident(1, "a")),
        vec![declare(2, &["a"], vec![number(2, 1)])],
    )];
    let trace = failed(convert(&unit));
    assert_eq!(trace.cause(), Some(ErrorKind::UnresolvedVariable));
    assert_eq!(trace.len(), 2);
}

#[test]
fn two_call_sites_share_the_declaration() {
    let unit = vec![
        function(1, "t.aron", &[], vec![]),
        perform(2, call(2, "taron", vec![])),
        perform(3, call(3, "tayaron", vec![])),
    ];
    let bound = convert(&unit).unwrap();
    let dec = fun_of(&bound[0]);
    let (first_tense, first, first_name) = called(&bound[1]);
    let (second_tense, second, second_name) = called(&bound[2]);
    assert_eq!(first_tense, Tense::Present);
    assert_eq!(second_tense, Tense::Future);
    assert_eq!(first_name, "taron");
    assert_eq!(second_name, "tayaron");
    assert!(Rc::ptr_eq(&first, &second));
    assert!(Rc::ptr_eq(&first, &dec));
}

#[test]
fn declared_function_answers_an_imminent_call() {
    let unit = vec![
        function(1, "t.aron", &["x"], vec![perform(1, number(1, 0))]),
        perform(2, call(2, "tìyaron", vec![number(2, 5)])),
    ];
    let bound = convert(&unit).unwrap();
    let dec = fun_of(&bound[0]);
    assert_eq!(dec.name, "t.aron");
    assert_eq!(dec.args, vec!["x".to_string()]);
    assert_eq!(dec.body.len(), 1);
    match &bound[1].inner {
        Statement::Expr(AyNode { inner: Expr::FunCall { tense, dec: to, name, args }, span: at }) => {
            assert_eq!(*tense, Tense::Imminent);
            assert!(Rc::ptr_eq(to, &dec));
            assert_eq!(name, "tìyaron");
            assert_eq!(args, &vec![AyNode { span: span(2, 1, 1), inner: Expr::Number(5) }]);
            assert_eq!(at, &span(2, 1, 9));
        }
        other => panic!("{other:?}"),
    }
}

#[test]
fn call_before_the_declaration_is_unresolved() {
    let unit = vec![
        perform(1, call(1, "tìyaron", vec![number(1, 5)])),
        function(2, "t.aron", &["x"], vec![]),
    ];
    assert_eq!(failed(convert(&unit)).cause(), Some(ErrorKind::UnresolvedFunction));
}

#[test]
fn parameters_are_not_variables_of_the_body() {
    let unit = vec![function(1, "t.aron", &["x"], vec![perform(1, ident(1, "x"))])];
    assert_eq!(failed(convert(&unit)).cause(), Some(ErrorKind::UnresolvedVariable));
}

#[test]
fn function_is_not_visible_in_its_own_body() {
    let unit = vec![function(1, "f", &[], vec![perform(2, call(2, "f", vec![]))])];
    assert_eq!(failed(convert(&unit)).cause(), Some(ErrorKind::UnresolvedFunction));
}

#[test]
fn function_body_sees_what_stands_before_the_function() {
    let unit = vec![
        declare(1, &["a"], vec![number(1, 1)]),
        function(2, "g", &[], vec![]),
        function(3, "f", &[], vec![perform(4, call(4, "g", vec![ident(4, "a")]))]),
    ];
    let bound = convert(&unit).unwrap();
    let a = var_of(&bound[0]);
    let g = fun_of(&bound[1]);
    let f = fun_of(&bound[2]);
    match &f.body[0].inner {
        Statement::Expr(AyNode { inner: Expr::FunCall { dec, args, .. }, .. }) => {
            assert!(Rc::ptr_eq(dec, &g));
            match &args[0].inner {
                Expr::Var(dec) => assert!(Rc::ptr_eq(dec, &a)),
                other => panic!("{other:?}"),
            }
        }
        other => panic!("{other:?}"),
    }
}

#[test]
fn statement_leaves_its_declaration_in_the_stacks() {
    let mut vars = ScopeStack::new();
    let mut funs = ScopeStack::new();
    let bound = convert_statement(&declare(1, &["a"], vec![number(1, 1)]), &mut vars, &mut funs).unwrap();
    assert!(Rc::ptr_eq(&vars.lookup("a").unwrap(), &var_of(&bound)));
    let inside = vec![declare(2, &["b"], vec![number(2, 1)])];
    let bound = convert_statement(&function(2, "t.aron", &[], inside), &mut vars, &mut funs).unwrap();
    assert!(Rc::ptr_eq(&funs.lookup("t.aron").unwrap(), &fun_of(&bound)));
    assert!(vars.lookup("b").is_none());
    // a failure inside a block leaves the stacks balanced
    let broken = repeat(3, None, vec![declare(3, &["c"], vec![number(3, 1)]), perform(4, ident(4, "x"))]);
    assert!(convert_statement(&broken, &mut vars, &mut funs).is_err());
    assert!(vars.lookup("c").is_none());
    assert!(!vars.pop_layer());
    assert!(!funs.pop_layer());
}
