use lib::ast::display::AstDisplay;
use lib::ast::evaluator::AstEvaluator;
use lib::ast::{ItemKind, Stmt, StmtKind};
use lib::ast::parser::Parser as StmtParser;
use lib::ast::types::{Literal, Primitive};
use lib::ast::Ast;
use lib::cache::Cache;
use lib::diagnostics::{DiagnosticBag, DiagnosticKind};
use lib::io::MappedMemoryBuffer;
use lib::lexer::{Lexer, Token};
use lib::memory::Addressable;
use lib::op::{decode_program, DecodeError, Instruction};
use lib::parser::ast::Pattern;
use lib::span::Span;

fn statements(input: &str) -> Ast {
    let mut lexer = Lexer::new(input.to_string());
    let mut parser = StmtParser::new(&mut lexer);
    Ast::parse(&mut parser, Token::Eof).unwrap()
}

#[test]
fn statement_display_binary() {
    let ast = statements("let x = 1 + 2;");
    let mut display = AstDisplay::new();
    assert_eq!(
        display.build(&ast),
        "Statement: let\n  Expression: \n    Binary: Add\n    Expression: 1\n    Expression: 2\n"
    );
    assert_eq!(display.ident, 0);
}

#[test]
fn statement_display_nested() {
    let ast = statements("if 1 {\nprint -5;\n};");
    let mut display = AstDisplay::new();
    assert_eq!(
        display.build(&ast),
        "Statement: if\n  Expression: 1  Statement: print\n    Expression: \n      Unary: Neg\n      Expression: 5\n\n"
    );
}

#[test]
fn primitive_and_literal_tokens() {
    let mut lexer = Lexer::new("42 \"hi\"".to_string());
    let mut parser = StmtParser::new(&mut lexer);
    assert!(matches!(Primitive::parse(&mut parser), Primitive::Int(42)));
    match Literal::parse(&mut parser) {
        Literal::String(s) => assert_eq!(s, "hi"),
    }
    assert_eq!(parser.current_token, Token::Eof);
}

#[test]
fn cache_definitions() {
    let mut cache = Cache::new(DiagnosticBag::new());
    let p = Pattern { name: "x".to_string(), span: Span::new(4, 4) };
    assert_eq!(cache.push_definition(&p), 0);
    let q = Pattern { name: "y".to_string(), span: Span::new(9, 9) };
    assert_eq!(cache.push_definition(&q), 1);
    let found = cache.lookup(&1).unwrap();
    assert_eq!(found.name, "y");
    assert_eq!(found.span, Span::new(9, 9));
    assert!(cache.lookup(&2).is_none());
    cache.diagnostics().warning("w".to_string(), Span::new(0, 0));
    assert_eq!(cache.diagnostics.diagnostics.len(), 1);
    assert_eq!(cache.diagnostics.diagnostics[0].kind, DiagnosticKind::Warning);
}

#[test]
fn mapped_buffer_read_write() {
    let mut m = MappedMemoryBuffer::new(vec![1, 2, 3]);
    assert_eq!(m.read(1), Some(2));
    assert_eq!(m.read(3), None);
    assert!(m.write(2, 9));
    assert!(!m.write(3, 9));
    assert_eq!(m.read2(1), Some(0x0902));
    m.zero_all();
    assert_eq!(m.0, vec![0, 0, 0]);
}

/// The last value after evaluating the expression of the first `let`.
fn eval_let(input: &str) -> Option<isize> {
    let ast = statements(input);
    let mut evaluator = AstEvaluator::new();
    match &ast.items[0].kind {
        ItemKind::Statement(Stmt { kind: StmtKind::Let(_, e) }) => evaluator.visit_expr(e),
        _ => panic!("expected a let statement"),
    }
    evaluator.last_value
}

#[test]
fn statement_evaluator() {
    assert_eq!(eval_let("let x = 7;"), Some(7));
    // in the statement parser an operator's right operand is the rest of the
    // expression, as `nested_parenthesis_binary_expression` shows
    assert_eq!(eval_let("let x = 2 * 3 + 1;"), Some(8));
    assert_eq!(eval_let("let x = 1 - 2 - 3;"), Some(2));
    assert_eq!(eval_let("let x = (1 - 2) - 3;"), Some(-4));
    assert_eq!(eval_let("let x = (1 - 8) / 2;"), Some(-3));
    assert_eq!(eval_let("let x = 1 < 2;"), None);
    assert_eq!(eval_let("let x = y + 1;"), None);
    // a unary operand passes its value through
    assert_eq!(eval_let("let x = -5;"), Some(5));
}

#[test]
fn decode_program_words() {
    let (is, e) = decode_program(&vec![0x01, 0x07, 0x20, 0x00, 0x00, 0x00, 0x05]);
    assert_eq!(is, vec![Instruction::Push(7), Instruction::AddStack, Instruction::Nop]);
    assert_eq!(e, None);
    let (is, e) = decode_program(&vec![0x00, 0x00, 0x77, 0x00, 0x01, 0x02]);
    assert_eq!(is, vec![Instruction::Nop]);
    assert_eq!(e, Some(DecodeError::UnknownOpcode(0x77)));
    assert_eq!(decode_program(&vec![]), (vec![], None));
}
