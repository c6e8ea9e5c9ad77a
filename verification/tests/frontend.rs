use lib::diagnostics::display::DiagnosticsDisplay;
use lib::diagnostics::{Diagnostic, DiagnosticBag, DiagnosticKind};
use lib::frontend;
use lib::lexer::Lexer;
use lib::parser::ast::Ast;
use lib::parser::display::fits_within;
use lib::parser::Parser;
use lib::pp::macros::setup_std_macros;
use lib::pp::{Error, PreProcessor};
use lib::source::Source;
use lib::span::Span;

const CYAN: &str = "\x1b[36m\x1b[1m";
const MAGENTA: &str = "\x1b[35m\x1b[1m";
const RESET: &str = "\x1b[0m";

fn strings(v: &[&str]) -> Vec<String> {
    v.iter().map(|s| s.to_string()).collect()
}

/// The messages and spans that parsing the input reports.
fn reported(input: &str) -> Vec<(String, usize, usize)> {
    let mut lexer = Lexer::new(input.to_string());
    let mut parser = Parser::new(&mut lexer, DiagnosticBag::new());
    let _ = parser.parse();
    parser
        .diagnostics
        .diagnostics
        .iter()
        .map(|d| {
            assert!(matches!(d.kind, DiagnosticKind::Error));
            (d.message.clone(), d.span.start, d.span.end)
        })
        .collect()
}

#[test]
fn parser_reports_nothing_for_valid_input() {
    assert!(reported("let x = 1;\nx = x + 2 * 3;\n").is_empty());
    assert!(reported("while x < 3 {\n x = x + 1;\n};").is_empty());
}

#[test]
fn parser_reports_missing_semicolon() {
    assert_eq!(
        reported("let x = 1"),
        vec![("expected: ';', found: 'EoF'".to_string(), 9, 9)]
    );
}

#[test]
fn parser_reports_bad_let_and_recovers() {
    assert_eq!(
        reported("let 5 = 1;"),
        vec![
            ("expected identifier, found 'Integer(5)'".to_string(), 4, 4),
            ("expected: ';', found: 'Integer(5)'".to_string(), 4, 4),
            ("unknown statement '='".to_string(), 6, 6),
            ("expected: ';', found: 'Integer(1)'".to_string(), 8, 8),
            ("unknown statement ';'".to_string(), 9, 9),
            ("expected: ';', found: 'EoF'".to_string(), 10, 10),
        ]
    );
}

#[test]
fn parser_reports_blank_after_minus() {
    assert_eq!(
        reported("let x = - 1;"),
        vec![("expected: '-', found: '' ''".to_string(), 9, 9)]
    );
    assert!(reported("let x = -1;").is_empty());
}

#[test]
fn parser_reports_missing_expression_and_brace() {
    assert_eq!(
        reported("let x = ;"),
        vec![("expected expression, found ';'".to_string(), 8, 8)].into_iter().chain(vec![(
            "expected: ';', found: 'EoF'".to_string(),
            9,
            9
        )]).collect::<Vec<_>>()
    );
    assert_eq!(
        reported("if x { x = 1; ;"),
        vec![
            ("unknown statement ';'".to_string(), 14, 14),
            ("expected: ';', found: 'EoF'".to_string(), 15, 15),
            ("expected: '}', found: 'EoF'".to_string(), 15, 15),
            ("expected: ';', found: 'EoF'".to_string(), 15, 15),
        ]
    );
}

#[test]
fn frontend_check_valid_program() {
    let checked = frontend::check("let x = 1;".to_string());
    assert!(checked.diagnostics.is_empty());
    assert!(checked.result.is_ok());
    let expected = format!(
        "\n{}Statement:{} Declare x\n  {}Expression:{} 1\n",
        MAGENTA, RESET, CYAN, RESET
    );
    assert_eq!(checked.tree, Some(expected));
    assert!(matches!(checked.ast, Ast::Sequence(ref s) if s.statements.len() == 1));
}

#[test]
fn frontend_check_reports() {
    let checked = frontend::check("x = ;".to_string());
    assert!(checked.result.is_err());
    let messages: Vec<String> = checked.diagnostics.iter().map(|d| d.message.clone()).collect();
    assert_eq!(
        messages,
        vec!["expected expression, found ';'".to_string(), "expected: ';', found: 'EoF'".to_string()]
    );
}

#[test]
fn tree_depth_check() {
    let mut lexer = Lexer::new("let x = (1 + 2) * 3;".to_string());
    let mut parser = Parser::new(&mut lexer, DiagnosticBag::new());
    let ast = parser.parse();
    assert!(fits_within(&ast, 0, usize::MAX));
    assert!(fits_within(&ast, 0, 3));
    assert!(!fits_within(&ast, 0, 2));
    assert!(!fits_within(&ast, 5, 4));
}

#[test]
fn renderable_diagnostics() {
    let src = Source::new("let x = 1;\nfoo".to_string());
    let diags = vec![
        Diagnostic { kind: DiagnosticKind::Error, message: "a".to_string(), span: Span::new(4, 4) },
        Diagnostic { kind: DiagnosticKind::Error, message: "b".to_string(), span: Span::new(12, 13) },
        Diagnostic { kind: DiagnosticKind::Error, message: "c".to_string(), span: Span::new(5, 4) },
        Diagnostic { kind: DiagnosticKind::Error, message: "d".to_string(), span: Span::new(40, 41) },
        Diagnostic { kind: DiagnosticKind::Error, message: "e".to_string(), span: Span::new(11, 11) },
    ];
    let display = DiagnosticsDisplay::new(&src, &diags);
    assert!(display.is_renderable(&diags[0]));
    assert!(display.is_renderable(&diags[1]));
    assert!(!display.is_renderable(&diags[2]));
    assert!(!display.is_renderable(&diags[3]));
    // the first byte of a line belongs to that line
    assert!(display.is_renderable(&diags[4]));
    let expected = format!("\x1b[31m\x1b[1mf\x1b[0moo\n^\n|\n+-- \x1b[33m\x1b[1me (\x1b[0m2\x1b[33m\x1b[1m:\x1b[0m1\x1b[33m\x1b[1m)\x1b[0m\n");
    assert_eq!(display.stringify(&diags[4]), expected);
    // past a final line ending there is no line to show
    let ended = Source::new("ab\n".to_string());
    let after = DiagnosticsDisplay::new(&ended, &diags);
    let past_end = Diagnostic { kind: DiagnosticKind::Error, message: "f".to_string(), span: Span::new(3, 3) };
    assert!(!after.is_renderable(&past_end));
    let empty = Source::new(String::new());
    let shown = DiagnosticsDisplay::new(&empty, &diags);
    assert!(!shown.is_renderable(&diags[0]));
}

#[test]
fn assemble_program() {
    let mut pp = PreProcessor::new();
    setup_std_macros(&mut pp);
    let lines = strings(&["; a comment", "", "nop", ":top", ".defvar x 5", "push !x", "jmp !top"]);
    assert_eq!(pp.assemble(&lines).ok(), Some("nop\npush 5\njmp 2\n".to_string()));
    assert_eq!(pp.instruction_count, 3);
}

#[test]
fn assemble_stops_at_failing_line() {
    let mut pp = PreProcessor::new();
    setup_std_macros(&mut pp);
    let lines = strings(&["nop", "", "push !y", "nop"]);
    match pp.assemble(&lines) {
        Err((2, Error::UnknownToken(t))) => assert_eq!(t, "y"),
        _ => panic!("expected the third line to fail"),
    }
    assert_eq!(pp.instruction_count, 2);
}
