use aylang::error::error::LineColLocation;
use aylang::error::span::Span;
use aylang::error::trace::{Stage, Trace};
use aylang::number::parse_number;
use aylang::parsing::{
    build_ast_from_expr, build_ast_from_statement, handle, parse, AyNode, Expr, Pair, Rule, Statement,
};
use aylang::text::{is_space_char, range_is, skip_spaces_from, word_end};

fn at(column: usize, text: &str) -> Span {
    Span { start: (1, column), end: (1, column + text.chars().count()), line: "the line".to_string() }
}

fn leaf(rule: Rule, column: usize, text: &str) -> Pair {
    Pair { rule, span: at(column, text), text: text.to_string(), inner: vec![] }
}

fn tree(rule: Rule, column: usize, text: &str, inner: Vec<Pair>) -> Pair {
    Pair { rule, span: at(column, text), text: text.to_string(), inner }
}

fn wrapped(rule: Rule, inner: Pair) -> Pair {
    Pair { rule, span: inner.span.clone(), text: inner.text.clone(), inner: vec![inner] }
}

fn failed<T: std::fmt::Debug>(built: Result<T, Trace>) -> Trace {
    match built {
        Ok(built) => panic!("built: {built:?}"),
        Err(trace) => trace,
    }
}

#[test]
fn numbers_are_read_in_base_eight() {
    assert_eq!(parse_number("0"), Some(0));
    assert_eq!(parse_number("7"), Some(7));
    assert_eq!(parse_number("10"), Some(8));
    assert_eq!(parse_number("17"), Some(15));
    assert_eq!(parse_number("0017"), Some(15));
    assert_eq!(parse_number("+17"), Some(15));
    assert_eq!(parse_number("-17"), Some(-15));
    assert_eq!(parse_number("  17\t"), Some(15));
    assert_eq!(parse_number("777777777777777777777"), Some(i64::MAX));
    assert_eq!(parse_number("-1000000000000000000000"), Some(i64::MIN));
}

#[test]
fn multiplier_words_double_and_triple() {
    assert_eq!(parse_number("17 melo"), Some(30));
    assert_eq!(parse_number("17 pxelo"), Some(45));
    assert_eq!(parse_number("17   melo  "), Some(30));
    assert_eq!(parse_number("-2 pxelo"), Some(-6));
    assert_eq!(parse_number("17 melo ignored"), Some(30));
    assert_eq!(parse_number("-400000000000000000000 melo"), Some(i64::MIN));
}

#[test]
fn unreadable_numbers_are_refused() {
    for text in ["", " ", "8", "18", "1 8", "x", "-", "+", "--1", "1-", "17 tsu", "17 mel", "17melo", "1.0"] {
        assert_eq!(parse_number(text), None, "{text:?}");
    }
    assert_eq!(parse_number("1000000000000000000000"), None);
    assert_eq!(parse_number("-1000000000000000000001"), None);
    assert_eq!(parse_number("400000000000000000000 melo"), None);
    assert_eq!(parse_number("300000000000000000000 pxelo"), None);
    assert_eq!(parse_number("7777777777777777777777777777777777777777777777777"), None);
}

#[test]
fn words_are_bounded_by_white_space() {
    let text: Vec<char> = " \u{a0}ab\tc".chars().collect();
    assert_eq!(skip_spaces_from(&text, 0), 2);
    assert_eq!(word_end(&text, 2), 4);
    assert_eq!(skip_spaces_from(&text, 4), 5);
    assert_eq!(word_end(&text, 5), 6);
    assert_eq!(skip_spaces_from(&text, 6), 6);
    assert_eq!(word_end(&text, 6), 6);
    assert!(range_is(&text, 2, 4, &vec!['a', 'b']));
    assert!(!range_is(&text, 2, 4, &vec!['a', 'c']));
    assert!(!range_is(&text, 2, 4, &vec!['a']));
    for c in ['\u{0}', '\u{8}', '\u{e}', 'a', '\u{200b}', '\u{feff}'] {
        assert_eq!(is_space_char(c), c.is_whitespace(), "{:x}", c as u32);
    }
    for code in 0..0x3100u32 {
        if let Some(c) = char::from_u32(code) {
            assert_eq!(is_space_char(c), c.is_whitespace(), "{code:x}");
        }
    }
}

#[test]
fn leaves_stand_for_their_text() {
    assert_eq!(
        build_ast_from_expr(&leaf(Rule::ident, 3, "tsun")),
        Ok(AyNode { span: at(3, "tsun"), inner: Expr::Ident("tsun".to_string()) })
    );
    assert_eq!(
        build_ast_from_expr(&leaf(Rule::string, 0, "\"kaltxì\"")),
        Ok(AyNode { span: at(0, "\"kaltxì\""), inner: Expr::String("\"kaltxì\"".to_string()) })
    );
    assert_eq!(
        build_ast_from_expr(&leaf(Rule::number, 0, "12 melo")),
        Ok(AyNode { span: at(0, "12 melo"), inner: Expr::Number(20) })
    );
}

#[test]
fn negation_holds_a_wrapped_expression() {
    let negation = tree(Rule::negation, 0, "-5", vec![wrapped(Rule::expr, leaf(Rule::number, 1, "5"))]);
    assert_eq!(
        build_ast_from_expr(&negation),
        Ok(AyNode {
            span: at(0, "-5"),
            inner: Expr::Negated(Box::new(AyNode { span: at(1, "5"), inner: Expr::Number(5) })),
        })
    );
    let empty = tree(Rule::negation, 0, "-", vec![]);
    let trace = failed(build_ast_from_expr(&empty));
    assert_eq!(trace.stage(0), Some(Stage::AstBuilding));
    assert_eq!(trace.error(0).unwrap().message, "a part of this is missing");
    let hollow = tree(Rule::negation, 0, "-", vec![leaf(Rule::expr, 1, "")]);
    assert_eq!(failed(build_ast_from_expr(&hollow)).error(0).unwrap().message, "a part of this is missing");
}

#[test]
fn unreadable_number_is_a_parsing_error() {
    let trace = failed(build_ast_from_expr(&leaf(Rule::number, 4, "19")));
    assert_eq!(trace.len(), 1);
    assert_eq!(trace.stage(0), Some(Stage::Parsing));
    let err = trace.error(0).unwrap();
    assert_eq!(err.message, "unknown parsing error");
    assert_eq!(err.location, LineColLocation::Span((1, 4), (1, 6)));
    assert_eq!(err.line, "the line");
    assert_eq!(err.kind, None);
}

#[test]
fn other_rules_give_no_expression() {
    let trace = failed(build_ast_from_expr(&leaf(Rule::var_dec, 0, "a = 1")));
    assert_eq!(trace.stage(0), Some(Stage::AstBuilding));
    assert_eq!(
        trace.error(0).unwrap().message,
        "Missing expression-generating rule `var_dec` handling"
    );
    let trace = failed(build_ast_from_expr(&leaf(Rule::expr, 0, "1")));
    assert_eq!(trace.error(0).unwrap().message, "Missing expression-generating rule `expr` handling");
}

#[test]
fn statement_wraps_what_it_stands_for() {
    let statement = wrapped(Rule::statement, wrapped(Rule::expr, leaf(Rule::number, 2, "11")));
    assert_eq!(
        build_ast_from_statement(&statement),
        Ok(AyNode {
            span: at(2, "11"),
            inner: Statement::Expr(AyNode { span: at(2, "11"), inner: Expr::Number(9) }),
        })
    );
    let trace = failed(build_ast_from_statement(&leaf(Rule::statement, 0, "")));
    assert_eq!(trace.error(0).unwrap().message, "a part of this is missing");
    let trace = failed(build_ast_from_statement(&leaf(Rule::number, 0, "1")));
    assert_eq!(trace.stage(0), Some(Stage::AstBuilding));
    assert_eq!(trace.error(0).unwrap().message, "Missing statement-generating rule `number` handling");
    let trace = failed(build_ast_from_statement(&leaf(Rule::block, 0, "{}")));
    assert_eq!(trace.error(0).unwrap().message, "Missing statement-generating rule `block` handling");
}

#[test]
fn variable_declaration_pairs_names_and_values() {
    let dec = tree(
        Rule::var_dec,
        0,
        "a, b = 1, \"x\"",
        vec![
            leaf(Rule::ident, 0, "a"),
            leaf(Rule::ident, 3, "b"),
            leaf(Rule::number, 7, "1"),
            leaf(Rule::string, 10, "\"x\""),
        ],
    );
    assert_eq!(
        build_ast_from_statement(&dec),
        Ok(AyNode {
            span: at(0, "a, b = 1, \"x\""),
            inner: Statement::VarDec {
                names: vec!["a".to_string(), "b".to_string()],
                values: vec![
                    AyNode { span: at(7, "1"), inner: Expr::Number(1) },
                    AyNode { span: at(10, "\"x\""), inner: Expr::String("\"x\"".to_string()) },
                ],
            },
        })
    );
}

#[test]
fn variable_declaration_needs_as_many_values_as_names() {
    let dec = tree(
        Rule::var_dec,
        0,
        "a, b = 1",
        vec![leaf(Rule::ident, 0, "a"), leaf(Rule::ident, 3, "b"), leaf(Rule::number, 7, "1")],
    );
    let trace = failed(build_ast_from_statement(&dec));
    assert_eq!(trace.len(), 1);
    assert_eq!(trace.stage(0), Some(Stage::Parsing));
    assert_eq!(trace.error(0).unwrap().message, "expected var_dec");
    // the count is taken before any value is built
    let dec = tree(
        Rule::var_dec,
        0,
        "a, b = 9",
        vec![leaf(Rule::ident, 0, "a"), leaf(Rule::ident, 3, "b"), leaf(Rule::number, 7, "9")],
    );
    assert_eq!(failed(build_ast_from_statement(&dec)).error(0).unwrap().message, "expected var_dec");
    let dec = tree(
        Rule::var_dec,
        0,
        "a = 9",
        vec![leaf(Rule::ident, 0, "a"), leaf(Rule::number, 4, "9")],
    );
    assert_eq!(failed(build_ast_from_statement(&dec)).error(0).unwrap().message, "unknown parsing error");
}

fn condition() -> Pair {
    wrapped(Rule::expr, leaf(Rule::ident, 4, "c"))
}

fn block_of(column: usize, texts: &[&str]) -> Pair {
    let inner = texts
        .iter()
        .map(|text| wrapped(Rule::statement, wrapped(Rule::expr, leaf(Rule::number, column, text))))
        .collect();
    tree(Rule::block, column, "{..}", inner)
}

#[test]
fn if_without_second_branch_has_an_empty_one() {
    let branch = tree(Rule::if_block, 0, "txo c {1 2}", vec![condition(), block_of(6, &["1", "2"])]);
    match build_ast_from_statement(&branch).unwrap().inner {
        Statement::If { cond, then, otherwise } => {
            assert_eq!(cond, AyNode { span: at(4, "c"), inner: Expr::Ident("c".to_string()) });
            assert_eq!(then.len(), 2);
            assert_eq!(
                then[1],
                AyNode {
                    span: at(6, "2"),
                    inner: Statement::Expr(AyNode { span: at(6, "2"), inner: Expr::Number(2) }),
                }
            );
            assert!(otherwise.is_empty());
        }
        other => panic!("{other:?}"),
    }
}

#[test]
fn if_with_second_branch_holds_both() {
    let branch = tree(
        Rule::if_block,
        0,
        "txo c {1} txokefyaw {2 3}",
        vec![condition(), block_of(6, &["1"]), block_of(20, &["2", "3"])],
    );
    match build_ast_from_statement(&branch).unwrap().inner {
        Statement::If { then, otherwise, .. } => {
            assert_eq!(then.len(), 1);
            assert_eq!(otherwise.len(), 2);
        }
        other => panic!("{other:?}"),
    }
}

#[test]
fn failure_in_a_branch_gets_a_frame_at_the_if() {
    let branch = tree(
        Rule::if_block,
        0,
        "txo c {1 9}",
        vec![condition(), block_of(6, &["1", "9"])],
    );
    let trace = failed(build_ast_from_statement(&branch));
    assert_eq!(trace.len(), 2);
    assert_eq!(trace.stage(0), Some(Stage::Parsing));
    assert_eq!(trace.error(0).unwrap().message, "unknown parsing error");
    assert_eq!(trace.stage(1), Some(Stage::Parsing));
    assert_eq!(trace.error(1).unwrap().message, "expected if_block");
    assert_eq!(trace.error(1).unwrap().location, LineColLocation::Span((1, 0), (1, 11)));
    let incomplete = tree(Rule::if_block, 0, "txo c", vec![condition()]);
    assert_eq!(
        failed(build_ast_from_statement(&incomplete)).error(0).unwrap().message,
        "a part of this is missing"
    );
}

#[test]
fn handle_adds_a_frame_only_to_a_failure() {
    let parent = leaf(Rule::if_block, 2, "txo");
    assert_eq!(handle(&parent, Ok::<u8, Trace>(3)), Ok(3));
    let inner = Trace::new_from_pair(&leaf(Rule::number, 5, "9"), "inner".to_string());
    let trace = failed(handle(&parent, Err::<u8, Trace>(inner)));
    assert_eq!(trace.len(), 2);
    assert_eq!(trace.error(0).unwrap().message, "inner");
    assert_eq!(trace.stage(0), Some(Stage::Parsing));
    assert_eq!(trace.error(1).unwrap().message, "expected if_block");
    assert_eq!(trace.error(1).unwrap().location, LineColLocation::Span((1, 2), (1, 5)));
}

#[test]
fn trace_takes_frames_at_matches() {
    let mut trace = Trace::new_from_pair(&leaf(Rule::ident, 1, "ab"), "first".to_string());
    trace.push_pest_error(Stage::AstBuilding, &leaf(Rule::expr, 0, "abc"), "second".to_string());
    assert_eq!(trace.len(), 2);
    assert_eq!(trace.stage(0), Some(Stage::Parsing));
    assert_eq!(trace.stage(1), Some(Stage::AstBuilding));
    assert_eq!(trace.error(0).unwrap().location, LineColLocation::Span((1, 1), (1, 3)));
    assert_eq!(trace.error(1).unwrap().message, "second");
    assert_eq!(trace.error(1).unwrap().line, "the line");
}

#[test]
fn program_is_its_statements() {
    let pairs = vec![
        wrapped(Rule::statement, wrapped(Rule::expr, leaf(Rule::number, 0, "1"))),
        wrapped(Rule::statement, wrapped(Rule::expr, leaf(Rule::ident, 2, "a"))),
        leaf(Rule::EOI, 3, ""),
    ];
    let ast = parse(&pairs).unwrap();
    assert_eq!(ast.len(), 2);
    assert_eq!(ast[1].inner, Statement::Expr(AyNode { span: at(2, "a"), inner: Expr::Ident("a".to_string()) }));
    assert_eq!(parse(&vec![]), Ok(vec![]));
}

#[test]
fn other_rules_have_no_place_at_the_top() {
    let pairs = vec![
        wrapped(Rule::statement, wrapped(Rule::expr, leaf(Rule::number, 0, "1"))),
        leaf(Rule::number, 2, "1"),
        wrapped(Rule::statement, wrapped(Rule::expr, leaf(Rule::number, 0, "9"))),
    ];
    let trace = failed(parse(&pairs));
    assert_eq!(trace.len(), 1);
    assert_eq!(trace.stage(0), Some(Stage::Unknown));
    assert_eq!(trace.error(0).unwrap().message, "Unknown rule: number");
    let pairs = vec![wrapped(Rule::statement, wrapped(Rule::expr, leaf(Rule::number, 0, "9")))];
    assert_eq!(failed(parse(&pairs)).error(0).unwrap().message, "unknown parsing error");
}
