use lib::diagnostics::DiagnosticBag;
use lib::lexer::Lexer;
use lib::parser::ast::{Ast, Binary, Definition, If, Literal, Sequence, Unary, Variable, While};
use lib::parser::visitor::{Visitor, Walkable};
use lib::parser::Parser;
use lib::ast::parser::Parser as StmtParser;
use lib::ast::visitor::{Visitor as StmtVisitor, Walkable as StmtWalkable};
use lib::ast::{Ast as StmtAst, Expr, ExprKind, Item, ItemKind, Literal as StmtLiteral, Stmt, StmtKind};
use lib::lexer::Token;

/// Records the kind of each node it is handed, walking into every child.
#[derive(Default)]
struct Recorder {
    seen: Vec<&'static str>,
}

impl Visitor for Recorder {
    fn visit_ast(&mut self, ast: &Ast) {
        ast.walk(self);
    }

    fn visit_sequence(&mut self, seq: &Sequence) {
        self.seen.push("sequence");
        for stmt in &seq.statements {
            stmt.walk(self);
        }
    }

    fn visit_binary(&mut self, bin: &Binary) {
        self.seen.push("binary");
        bin.left.ptr.walk(self);
        bin.right.ptr.walk(self);
    }

    fn visit_unary(&mut self, un: &Unary) {
        self.seen.push("unary");
        un.operand.ptr.walk(self);
    }

    fn visit_literal(&mut self, _lit: &Literal) {
        self.seen.push("literal");
    }

    fn visit_definition(&mut self, def: &Definition) {
        self.seen.push("let");
        def.pattern.name.walk(self);
        def.value.ptr.walk(self);
    }

    fn visit_assignment(&mut self, def: &Definition) {
        self.seen.push("assign");
        def.value.ptr.walk(self);
    }

    fn visit_if(&mut self, if_expr: &If) {
        self.seen.push("if");
        if_expr.condition.ptr.walk(self);
        if_expr.body.ptr.walk(self);
    }

    fn visit_while(&mut self, while_expr: &While) {
        self.seen.push("while");
        while_expr.condition.ptr.walk(self);
        while_expr.body.ptr.walk(self);
    }

    fn visit_variable(&mut self, _var: &Variable) {
        self.seen.push("variable");
    }
}

#[test]
fn walk_hands_each_node_to_its_method() {
    let mut lexer = Lexer::new("let x = -1 + y;".to_string());
    let mut parser = Parser::new(&mut lexer, DiagnosticBag::new());
    let program = parser.parse();
    let mut recorder = Recorder::default();
    recorder.visit_ast(&program);
    assert_eq!(recorder.seen, vec!["sequence", "let", "binary", "unary", "literal", "variable"]);
}

#[test]
fn walk_skips_error_nodes() {
    let mut recorder = Recorder::default();
    Ast::Error.walk(&mut recorder);
    "name".to_string().walk(&mut recorder);
    assert!(recorder.seen.is_empty());
}

/// Records the statement tree's nodes, walking into every part.
#[derive(Default)]
struct StmtRecorder {
    seen: Vec<String>,
}

impl StmtVisitor for StmtRecorder {
    fn visit_ast(&mut self, ast: &StmtAst) {
        for item in &ast.items {
            item.walk(self);
        }
    }

    fn visit_item(&mut self, item: &Item) {
        item.walk(self);
    }

    fn visit_item_kind(&mut self, kind: &ItemKind) {
        kind.walk(self);
    }

    fn visit_stmt(&mut self, stmt: &Stmt) {
        self.seen.push("stmt".to_string());
        stmt.walk(self);
    }

    fn visit_stmt_kind(&mut self, stmt: &StmtKind) {
        stmt.walk(self);
    }

    fn visit_expr(&mut self, expr: &Expr) {
        self.seen.push("expr".to_string());
        expr.walk(self);
    }

    fn visit_expr_kind(&mut self, expr: &ExprKind) {
        expr.walk(self);
    }

    fn visit_literal(&mut self, lit: &StmtLiteral) {
        self.seen.push(format!("{:?}", lit));
        lit.walk(self);
    }
}

#[test]
fn statement_walk_reaches_every_expression() {
    let mut lexer = Lexer::new("let x = 1 + 2;".to_string());
    let mut parser = StmtParser::new(&mut lexer);
    let ast = StmtAst::parse(&mut parser, Token::Eof).unwrap();
    let mut recorder = StmtRecorder::default();
    recorder.visit_ast(&ast);
    assert_eq!(recorder.seen, vec!["stmt", "expr", "expr", "Integer(1)", "expr", "Integer(2)"]);
}
