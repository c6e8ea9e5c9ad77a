#![allow(
    clippy::identity_op,
    clippy::erasing_op,
    clippy::neg_multiply,
    clippy::double_neg
)]

use lib::diagnostics::DiagnosticBag;
use lib::lexer::Lexer;
use lib::parser::evaluator::AstEvaluator;
use lib::parser::Parser;

fn assert_eval(input: &str, expected: isize) {
    let mut lexer = Lexer::new(input.to_string());
    let diagnostics = DiagnosticBag::new();
    let mut parser = Parser::new(&mut lexer, diagnostics);
    let program = parser.parse();
    let mut evaluator = AstEvaluator::default();
    evaluator.visit_ast(&program);
    assert_eq!(evaluator.last_value.unwrap(), expected);
}

#[test]
fn evaluator_literal_int() {
    assert_eval("let x = 123;", 123);
}

#[test]
fn evaluator_unary() {
    assert_eval("let x = -123;", -123);
}

#[test]
fn evaluator_binary() {
    assert_eq!(1 + 2, 3);
    assert_eval("let x = 1 + 2;", 3);
    assert_eq!(1 - 2, -1);
    assert_eval("let x = 1 - 2;", -1);
    assert_eq!(1 * 2, 2);
    assert_eval("let x = 1 * 2;", 2);
    assert_eq!(2 / 1, 2);
    assert_eval("let x = 1 / 2;", 0);
}

#[test]
fn evaluator_complex() {
    assert_eq!(1 + 2 * 3, 7);
    assert_eval("let x = 1 + 2 * 3;", 7);
    assert_eq!(1 * 2 + 3, 5);
    assert_eval("let x = 1 * 2 + 3;", 5);
    assert_eq!(1 + 0 / 3, 1);
    assert_eval("let x = 1 + 0 / 3;", 1);
    assert_eq!(4 / 2 + 3, 5);
    assert_eval("let x = 2 / 1 + 3;", 5);
}

#[test]
fn evaluator_complex_unary() {
    assert_eq!(-1 + 2 * 3, 5);
    assert_eval("let x = -1 + 2 * 3;", 5);
    assert_eq!(-1 * 2 + 3, 1);
    assert_eval("let x = -1 * 2 + 3;", 1);
}

#[test]
fn evaluator_complex_paren() {
    assert_eq!((1 + 2) * 3, 9);
    assert_eval("let x = (1 + 2) * 3;", 9);
    assert_eq!(1 * (2 + 3), 5);
    assert_eval("let x = 1 * (2 + 3);", 5);
    assert_eq!(1 + (0 / 3), 1);
    assert_eval("let x = 1 + (0 / 3);", 1);
}

#[test]
fn evaluator_complex_paren_unary() {
    assert_eq!(-1 + (2 * 3), 5);
    assert_eval("let x = -1 + (2 * 3);", 5);
    assert_eq!(-1 * (2 + 3), -5);
    assert_eval("let x = -1 * (2 + 3);", -5);
}

#[test]
fn evaluator_complex_unary_parent() {
    assert_eq!(-(1 + 2) * 3, -9);
    assert_eval("let x = -(1 + 2) * 3;", -9);
    assert_eq!(-1 * -(-2 + 3), 1);
    assert_eval("let x = -1 * -(-2 + 3);", 1);
}

#[test]
fn evaluator_fuzzy() {
    assert_eq!(----------------------------------------------45, 45);
    assert_eval(
        "let x = ----------------------------------------------45;",
        45,
    );
    assert_eq!(1 + 2 + 3 + 4 + 5 + 6 + 7 + 8 + 9 + 10, 55);
    assert_eval("let x = 1 + 2 + 3 + 4 + 5 + 6 + 7 + 8 + 9 + 10;", 55);
    assert_eq!(1 + 2 * 3 + 4 * 5 + 6 * 7 + 8 * 9 + 10, 151);
    assert_eval("let x = 1 + 2 * 3 + 4 * 5 + 6 * 7 + 8 * 9 + 10;", 151);
    assert_eq!(1 * 2 + 3 * 4 + 5 * 6 + 7 * 8 + 9 * 10, 190);
    assert_eval("let x = 1 * 2 + 3 * 4 + 5 * 6 + 7 * 8 + 9 * 10;", 190);
    assert_eq!(1 + 2 * 3 * 4 + 5 * 6 * 7 + 8 * 9 * 10, 955);
    assert_eval("let x = 1 + 2 * 3 * 4 + 5 * 6 * 7 + 8 * 9 * 10;", 955);
    assert_eval(
        "let x = (((((((((((((((((((((((((((((1)))))))))))))))))))))))))))));",
        1,
    );
}

#[test]
fn evaluator_variable_keeps_last_value() {
    let mut lexer = Lexer::new("let y = 2; let x = y + 1;".to_string());
    let mut parser = Parser::new(&mut lexer, DiagnosticBag::new());
    let program = parser.parse();
    let mut evaluator = AstEvaluator::new();
    evaluator.visit_ast(&program);
    assert_eq!(evaluator.last_value, Some(3));
    assert!(parser.diagnostics.is_empty());

    let mut lexer = Lexer::new("let x = y + 1;".to_string());
    let mut parser = Parser::new(&mut lexer, DiagnosticBag::new());
    let program = parser.parse();
    let mut evaluator = AstEvaluator::new();
    evaluator.visit_ast(&program);
    assert_eq!(evaluator.last_value, None);
}

#[test]
fn evaluator_overflow_has_no_value() {
    assert_eq!(
        {
            let mut lexer = Lexer::new("let x = 9223372036854775807 + 1;".to_string());
            let mut parser = Parser::new(&mut lexer, DiagnosticBag::new());
            let program = parser.parse();
            let mut evaluator = AstEvaluator::new();
            evaluator.visit_ast(&program);
            evaluator.last_value
        },
        None
    );
}

#[test]
fn evaluator_equal_precedence_groups_left() {
    // an operator as strong as the one before applies to everything before it
    assert_eval("let x = 8 - 4 - 2;", 2);
    assert_eval("let x = 16 / 4 / 2;", 2);
    assert_eval("let x = 2 * 3 - 4 - 1;", 1);
    assert_eval("let x = 1 - 2 + 3;", 2);
    assert_eval("let x = 8 / 4 / 2;", 1);
    assert_eval("let x = 2 + 3 * 4 - 5;", 9);
}
