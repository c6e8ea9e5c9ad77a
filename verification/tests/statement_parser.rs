use lib::ast::parser::{ParseError, Parser};
use lib::ast::{Ast, BinOp, Expr, ExprKind, Item, ItemKind, Literal, Parse, Print, Stmt, StmtKind};
use lib::lexer::{Lexer, Token};

#[derive(Debug, PartialEq)]
enum ASTNode {
    While,
    If,
    Let,
    Binary,
    Unary,
    Integer(isize),
    String(String),
    Ident(String),
}

fn flatten_expr(expr: &Expr, out: &mut Vec<ASTNode>) {
    match &expr.kind {
        ExprKind::Binary(_, lhs, rhs) => {
            out.push(ASTNode::Binary);
            flatten_expr(&lhs.ptr, out);
            flatten_expr(&rhs.ptr, out);
        }
        ExprKind::Unary(_, e) => {
            out.push(ASTNode::Unary);
            flatten_expr(&e.ptr, out);
        }
        ExprKind::Ident(s) => out.push(ASTNode::Ident(s.clone())),
        ExprKind::Literal(Literal::Integer(i)) => out.push(ASTNode::Integer(*i)),
        ExprKind::Literal(Literal::String(s)) => out.push(ASTNode::String(s.clone())),
    }
}

fn flatten_items(items: &[Item], out: &mut Vec<ASTNode>) {
    for item in items {
        let ItemKind::Statement(stmt) = &item.kind;
        match &stmt.kind {
            StmtKind::Let(name, e) => {
                out.push(ASTNode::Let);
                out.push(ASTNode::Ident(name.clone()));
                flatten_expr(e, out);
            }
            StmtKind::If(c, body) => {
                out.push(ASTNode::If);
                flatten_expr(c, out);
                flatten_items(body, out);
            }
            StmtKind::While(c, body) => {
                out.push(ASTNode::While);
                flatten_expr(c, out);
                flatten_items(body, out);
            }
            StmtKind::Print(p) => flatten_expr(&p.expression, out),
        }
    }
}

fn assert_ast(input: &str, expected: Vec<ASTNode>) {
    let mut lex = Lexer::new(input.to_string());
    let mut parser = Parser::new(&mut lex);
    let ast = Ast::parse(&mut parser, Token::Eof).unwrap();
    let mut nodes = Vec::new();
    flatten_items(&ast.items, &mut nodes);
    assert_eq!(nodes, expected);
}

#[test]
fn parser_step() {
    let input = "1 2 3 4";
    let mut lex = Lexer::new(input.to_string());
    let mut parser = Parser::new(&mut lex);
    assert_eq!(parser.current_token, Token::Int(1.to_string()));
    assert_eq!(parser.next_token, Token::Int(2.to_string()));
    parser.step();
    assert_eq!(parser.current_token, Token::Int(2.to_string()));
    assert_eq!(parser.next_token, Token::Int(3.to_string()));
    parser.step();
    assert_eq!(parser.current_token, Token::Int(3.to_string()));
    assert_eq!(parser.next_token, Token::Int(4.to_string()));
    parser.step();
    assert_eq!(parser.current_token, Token::Int(4.to_string()));
    assert_eq!(parser.next_token, Token::Eof);
}

#[test]
fn parser_eat() {
    let input = "1 2 3 4";
    let mut lex = Lexer::new(input.to_string());
    let mut parser = Parser::new(&mut lex);
    assert_eq!(parser.current_token, Token::Int(1.to_string()));
    assert_eq!(parser.eat(), Token::Int(1.to_string()));
    assert_eq!(parser.current_token, Token::Int(2.to_string()));
    assert_eq!(parser.eat(), Token::Int(2.to_string()));
    assert_eq!(parser.current_token, Token::Int(3.to_string()));
    assert_eq!(parser.eat(), Token::Int(3.to_string()));
    assert_eq!(parser.current_token, Token::Int(4.to_string()));
    assert_eq!(parser.eat(), Token::Int(4.to_string()));
    assert_eq!(parser.current_token, Token::Eof);
}

#[test]
fn parser_comp_current_token() {
    let input = "1";
    let mut lex = Lexer::new(input.to_string());
    let parser = Parser::new(&mut lex);
    assert!(parser.current_token(Token::Int(1.to_string())));
}

#[test]
fn parser_comp_next_token() {
    let input = "1";
    let mut lex = Lexer::new(input.to_string());
    let parser = Parser::new(&mut lex);
    assert!(parser.next_token(Token::Eof));
}

#[test]
fn print_statement() {
    let input = "PRINT \"hello, world!\"";
    let mut lex = Lexer::new(input.to_string());
    let mut parser = Parser::new(&mut lex);
    let result = Stmt::parse_kind(&mut parser).unwrap();

    let expected = StmtKind::Print(Print {
        expression: Expr { kind: ExprKind::Literal(Literal::String("hello, world!".to_string())) },
    });

    assert_eq!(result, expected);
}

#[test]
fn validation_scheme() {
    let input = "while 1 { \nlet bar = \"TEST\"; \nif 1 == 1 { \nlet foo = 45; \n}; \n};\n";
    let expected = vec![
        ASTNode::While,
        ASTNode::Integer(1),
        ASTNode::Let,
        ASTNode::Ident("bar".to_string()),
        ASTNode::String("TEST".to_string()),
        ASTNode::If,
        ASTNode::Binary,
        ASTNode::Integer(1),
        ASTNode::Integer(1),
        ASTNode::Let,
        ASTNode::Ident("foo".to_string()),
        ASTNode::Integer(45),
    ];

    assert_ast(input, expected);
}

#[test]
fn if_statement_binary_condition() {
    let input = "let x = 1; if x == 1 { \nlet foo = \"hello, world!\"; };";

    let expected = vec![
        ASTNode::Let,
        ASTNode::Ident("x".to_string()),
        ASTNode::Integer(1),
        ASTNode::If,
        ASTNode::Binary,
        ASTNode::Ident("x".to_string()),
        ASTNode::Integer(1),
        ASTNode::Let,
        ASTNode::Ident("foo".to_string()),
        ASTNode::String("hello, world!".to_string()),
    ];

    assert_ast(input, expected)
}

#[test]
fn if_statement_binary_condition_newline() {
    let input = "let x = 1; if x == 1 { \nlet foo = \"hello, world!\"; }; \n";

    let expected = vec![
        ASTNode::Let,
        ASTNode::Ident("x".to_string()),
        ASTNode::Integer(1),
        ASTNode::If,
        ASTNode::Binary,
        ASTNode::Ident("x".to_string()),
        ASTNode::Integer(1),
        ASTNode::Let,
        ASTNode::Ident("foo".to_string()),
        ASTNode::String("hello, world!".to_string()),
    ];

    assert_ast(input, expected)
}

#[test]
fn if_statement_primary_ident_condition() {
    let input = "let x = 1; if x { \nlet foo = \"hello, world!\"; };";

    let expected = vec![
        ASTNode::Let,
        ASTNode::Ident("x".to_string()),
        ASTNode::Integer(1),
        ASTNode::If,
        ASTNode::Ident("x".to_string()),
        ASTNode::Let,
        ASTNode::Ident("foo".to_string()),
        ASTNode::String("hello, world!".to_string()),
    ];

    assert_ast(input, expected)
}

#[test]
fn if_statement_primary_ident_condition_newline() {
    let input = "let x = 1; if x { \nlet foo = \"hello, world!\"; }; \n";

    let expected = vec![
        ASTNode::Let,
        ASTNode::Ident("x".to_string()),
        ASTNode::Integer(1),
        ASTNode::If,
        ASTNode::Ident("x".to_string()),
        ASTNode::Let,
        ASTNode::Ident("foo".to_string()),
        ASTNode::String("hello, world!".to_string()),
    ];

    assert_ast(input, expected)
}

#[test]
fn while_statement() {
    let input = "while \"TMP\" { \nlet foo = \"hello, world!\"; };";

    let expected = vec![
        ASTNode::While,
        ASTNode::String("TMP".to_string()),
        ASTNode::Let,
        ASTNode::Ident("foo".to_string()),
        ASTNode::String("hello, world!".to_string()),
    ];

    assert_ast(input, expected)
}

#[test]
fn while_statement_newline() {
    let input = "while \"TMP\" { \nlet foo = \"hello, world!\"; }; \n";

    let expected = vec![
        ASTNode::While,
        ASTNode::String("TMP".to_string()),
        ASTNode::Let,
        ASTNode::Ident("foo".to_string()),
        ASTNode::String("hello, world!".to_string()),
    ];

    assert_ast(input, expected)
}

#[test]
fn while_statement_nested_statements() {
    let input = "while \"TMP\" { \nlet x = \"hello, world!\"; \nlet y = \"hello, world 2!\"; \nlet z = \"hello, world 3!\"; \n };";

    let expected = vec![
        ASTNode::While,
        ASTNode::String("TMP".to_string()),
        ASTNode::Let,
        ASTNode::Ident("x".to_string()),
        ASTNode::String("hello, world!".to_string()),
        ASTNode::Let,
        ASTNode::Ident("y".to_string()),
        ASTNode::String("hello, world 2!".to_string()),
        ASTNode::Let,
        ASTNode::Ident("z".to_string()),
        ASTNode::String("hello, world 3!".to_string()),
    ];

    assert_ast(input, expected)
}

#[test]
fn while_statement_nested_block_statements() {
    let input = "while \"TMP\" { \nlet x = \"hello, world!\";\nif \"TMP\" { \nwhile \"TMP\" { \nlet y = \"hello, world 3!\";\n }; \n }; \n };";

    let expected = vec![
        ASTNode::While,
        ASTNode::String("TMP".to_string()),
        ASTNode::Let,
        ASTNode::Ident("x".to_string()),
        ASTNode::String("hello, world!".to_string()),
        ASTNode::If,
        ASTNode::String("TMP".to_string()),
        ASTNode::While,
        ASTNode::String("TMP".to_string()),
        ASTNode::Let,
        ASTNode::Ident("y".to_string()),
        ASTNode::String("hello, world 3!".to_string()),
    ];

    assert_ast(input, expected)
}

#[test]
fn let_statement() {
    let input = "let Ident = 123;";

    let expected = vec![
        ASTNode::Let,
        ASTNode::Ident("Ident".to_string()),
        ASTNode::Integer(123),
    ];

    assert_ast(input, expected)
}

#[test]
fn identifier() {
    let input = "let test = \"some value\"; if test { let foo = test; };";

    let expected = vec![
        ASTNode::Let,
        ASTNode::Ident("test".to_string()),
        ASTNode::String("some value".to_string()),
        ASTNode::If,
        ASTNode::Ident("test".to_string()),
        ASTNode::Let,
        ASTNode::Ident("foo".to_string()),
        ASTNode::Ident("test".to_string()),
    ];

    assert_ast(input, expected);
}

#[test]
fn expression_literal_int() {
    let input = "let foo = 123;";

    let expected = vec![
        ASTNode::Let,
        ASTNode::Ident("foo".to_string()),
        ASTNode::Integer(123),
    ];

    assert_ast(input, expected);
}

#[test]
fn literal_string() {
    let input = "let foo = \"hello, world!\";";

    let expected = vec![
        ASTNode::Let,
        ASTNode::Ident("foo".to_string()),
        ASTNode::String("hello, world!".to_string()),
    ];

    assert_ast(input, expected);
}

#[test]
fn expression_unary() {
    let input = "let foo = -123;";

    let expected = vec![
        ASTNode::Let,
        ASTNode::Ident("foo".to_string()),
        ASTNode::Unary,
        ASTNode::Integer(123),
    ];

    assert_ast(input, expected);
}

#[test]
fn expression_binary() {
    let input = "let foo = 123 * 456;";

    let expected = vec![
        ASTNode::Let,
        ASTNode::Ident("foo".to_string()),
        ASTNode::Binary,
        ASTNode::Integer(123),
        ASTNode::Integer(456),
    ];

    assert_ast(input, expected);
}

#[test]
fn binary_precedence() {
    let input = "let foo = 123 + 456 * 789;";

    let expected = vec![
        ASTNode::Let,
        ASTNode::Ident("foo".to_string()),
        ASTNode::Binary,
        ASTNode::Integer(123),
        ASTNode::Binary,
        ASTNode::Integer(456),
        ASTNode::Integer(789),
    ];

    assert_ast(input, expected);
}

#[test]
fn parenthesis_binary_expression() {
    let input = "let x = (1 + 2);";

    let expected = vec![
        ASTNode::Let,
        ASTNode::Ident("x".to_string()),
        ASTNode::Binary,
        ASTNode::Integer(1),
        ASTNode::Integer(2),
    ];

    assert_ast(input, expected)
}

#[test]
fn binary_expression_nested_parenthesis() {
    let input = "let x = 2*(1 + (2 * 3));";

    let expected = vec![
        ASTNode::Let,
        ASTNode::Ident("x".to_string()),
        ASTNode::Binary,
        ASTNode::Integer(2),
        ASTNode::Binary,
        ASTNode::Integer(1),
        ASTNode::Binary,
        ASTNode::Integer(2),
        ASTNode::Integer(3),
    ];

    assert_ast(input, expected)
}

#[test]
fn nested_parenthesis_binary_expression() {
    let input = "let x = (1 + (2 * 3)) * 4 + 2;";

    let expected = vec![
        ASTNode::Let,
        ASTNode::Ident("x".to_string()),
        ASTNode::Binary,
        ASTNode::Binary,
        ASTNode::Integer(1),
        ASTNode::Binary,
        ASTNode::Integer(2),
        ASTNode::Integer(3),
        ASTNode::Binary,
        ASTNode::Integer(4),
        ASTNode::Integer(2),
    ];

    assert_ast(input, expected)
}

#[test]
fn statement_parser_errors() {
    let run = |input: &str| {
        let mut lex = Lexer::new(input.to_string());
        let mut parser = Parser::new(&mut lex);
        Ast::parse(&mut parser, Token::Eof).err()
    };
    assert_eq!(run("let x = 1; let x = 2;"), Some(ParseError::SymbolAlreadyDefined("x".to_string())));
    assert_eq!(run("let x = 1"), Some(ParseError::Expected(Token::SemiColon, Token::Eof)));
    assert_eq!(run("let 1 = 1;"), Some(ParseError::UnexpectedToken(Token::Int("1".to_string()))));
    assert_eq!(run("x;"), Some(ParseError::UnexpectedToken(Token::Ident("x".to_string()))));
    assert_eq!(run("let x = 99999999999999999999;"), Some(ParseError::InvalidInteger("99999999999999999999".to_string())));
    assert_eq!(run("if 1 { let y = 2;"), Some(ParseError::UnexpectedToken(Token::Eof)));
    assert_eq!(run(""), None);
}

#[test]
fn parse_trait_reads_constructs() {
    let mut lexer = Lexer::new("let x = 1; 2 + 3".to_string());
    let mut parser = Parser::new(&mut lexer);
    let item = <Item as Parse>::parse(&mut parser).ok().unwrap();
    assert!(matches!(item.kind, ItemKind::Statement(Stmt { kind: StmtKind::Let(ref n, _) }) if n == "x"));
    let e = <Expr as Parse>::parse(&mut parser).ok().unwrap();
    assert!(matches!(e.kind, ExprKind::Binary(BinOp::Add, _, _)));
}
