use lib::diagnostics::{DiagnosticBag, DiagnosticKind};
use lib::lexer::Lexer;
use lib::parser::ast::{Ast, LiteralKind, Pattern};
use lib::parser::ptr::P;
use lib::resolver::DefinitionInfo;
use lib::span::Span;
use lib::parser::Parser;
use lib::resolver::bound_ast::BoundAst;
use lib::resolver::scope::Scope;
use lib::resolver::{NameResolver, ResolveVisitor};

fn parse(input: &str) -> Ast {
    let mut lexer = Lexer::new(input.to_string());
    let mut parser = Parser::new(&mut lexer, DiagnosticBag::new());
    let ast = parser.parse();
    assert!(parser.diagnostics.diagnostics.is_empty());
    ast
}

fn resolve(input: &str) -> (Ast, NameResolver) {
    let mut ast = parse(input);
    let mut resolver = NameResolver::new(DiagnosticBag::new());
    resolver.resolve(&mut ast);
    (ast, resolver)
}

fn messages(r: &NameResolver) -> Vec<(DiagnosticKind, String)> {
    r.diagnostics.diagnostics.iter().map(|d| (d.kind, d.message.clone())).collect()
}

fn statements(ast: &Ast) -> &Vec<Ast> {
    match ast {
        Ast::Sequence(s) => &s.statements,
        _ => panic!("expected a sequence"),
    }
}

#[test]
fn resolver_links_variables() {
    let (ast, r) = resolve("let x = 1;\nlet y = x;\n");
    assert_eq!(r.definitions.len(), 2);
    assert_eq!(r.definitions[0].uses, 1);
    assert_eq!(r.definitions[1].uses, 0);
    let stmts = statements(&ast);
    match &stmts[1] {
        Ast::Let(d) => {
            assert_eq!(d.id, Some(1));
            match &*d.value.ptr {
                Ast::Variable(v) => assert_eq!(v.definition, Some(0)),
                _ => panic!("expected a variable"),
            }
        }
        _ => panic!("expected a let"),
    }
    assert_eq!(messages(&r), vec![(DiagnosticKind::Warning, "unused variable: 'y'".to_string())]);
}

#[test]
fn resolver_undeclared_reference() {
    let (_, r) = resolve("let y = z;");
    assert_eq!(
        messages(&r),
        vec![
            (DiagnosticKind::Error, "symbol: 'z' is never declared".to_string()),
            (DiagnosticKind::Warning, "unused variable: 'y'".to_string()),
        ]
    );
}

#[test]
fn resolver_no_shadowing() {
    let (ast, r) = resolve("let x = 1;\nlet x = 2;\n");
    assert_eq!(r.definitions.len(), 1);
    match &statements(&ast)[1] {
        Ast::Let(d) => assert_eq!(d.id, None),
        _ => panic!("expected a let"),
    }
    assert_eq!(
        messages(&r),
        vec![
            (DiagnosticKind::Error, "symbol: 'x' already exists in scope".to_string()),
            (DiagnosticKind::Warning, "unused variable: 'x'".to_string()),
        ]
    );
}

#[test]
fn resolver_undeclared_assignment() {
    let (ast, r) = resolve("x = 3;");
    assert_eq!(r.definitions.len(), 0);
    match &statements(&ast)[0] {
        Ast::Assignment(d) => assert_eq!(d.id, None),
        _ => panic!("expected an assignment"),
    }
    assert_eq!(messages(&r), vec![(DiagnosticKind::Error, "undeclared symbol: 'x'".to_string())]);
}

#[test]
fn resolver_assignment_redefines() {
    let (ast, r) = resolve("let x = 1;\nx = x + 1;\nlet y = x;\n");
    assert_eq!(r.definitions.len(), 3);
    // the assignment's value reads the first definition, `y` the second
    assert_eq!(r.definitions[0].uses, 1);
    assert_eq!(r.definitions[1].uses, 1);
    match &statements(&ast)[2] {
        Ast::Let(d) => match &*d.value.ptr {
            Ast::Variable(v) => assert_eq!(v.definition, Some(1)),
            _ => panic!("expected a variable"),
        },
        _ => panic!("expected a let"),
    }
}

#[test]
fn resolver_block_scopes() {
    let (_, r) = resolve("let a = 1;\nif a { let b = a; };\nlet b = 2;\n");
    assert_eq!(r.definitions.len(), 3);
    assert_eq!(r.definitions[0].uses, 2);
    let m = messages(&r);
    assert_eq!(m.len(), 2);
    assert!(m.iter().all(|(k, t)| *k == DiagnosticKind::Warning && t == "unused variable: 'b'"));
}

#[test]
fn resolver_scope_lookup() {
    let mut s = Scope::new();
    assert_eq!(s.lookup_symbol("x"), None);
    s.define_symbol("x", 4);
    assert_eq!(s.lookup_symbol("x"), Some(&4));
    s.define_symbol("x", 7);
    assert_eq!(s.lookup_symbol("x"), Some(&7));
}

#[test]
fn resolver_lookup_innermost() {
    let mut r = NameResolver::new(DiagnosticBag::new());
    r.push_scope();
    let ast = parse("let v = 1;");
    let def = match &statements(&ast)[0] {
        Ast::Let(d) => d,
        _ => panic!("expected a let"),
    };
    r.push_definition(def);
    assert_eq!(r.definitions.len(), 1);
    assert_eq!(r.lookup_symbol("v"), None);
    r.pop_scope();
    assert_eq!(r.scopes.len(), 0);
}

#[test]
fn bound_ast_conversion() {
    let ast = parse("let x = 1;\nx = 2;\n");
    match ast.into_bound() {
        BoundAst::Sequence(s) => {
            assert_eq!(s.statements.len(), 2);
            for st in &s.statements {
                match st {
                    BoundAst::Definition(d) => {
                        assert_eq!(d.pattern.name, "x");
                        assert_eq!(d.id, 0);
                        assert_eq!(d.uses, 0);
                        assert!(matches!(&*d.value.ptr, BoundAst::Literal(_)));
                    }
                    _ => panic!("expected a definition"),
                }
            }
        }
        _ => panic!("expected a sequence"),
    }
}

#[test]
fn resolver_readme_example() {
    let program = "let foo = 1;
while 1 >= 1 { 
    # let foo = 400;
    if foo < 401 {
        while 1 == 1 {
            let bap = foo;
        };
    };
};

let baz = 0;
# let baz = 1;
# let bar = baz * 3 + 2;
if foo > 0 {
    let bap = \"foo is positive!\";
    baz = bap;
};
";
    let (_, r) = resolve(program);
    let names: Vec<(String, u32)> = r.definitions.iter().map(|d| (d.pattern.name.clone(), d.uses)).collect();
    assert_eq!(
        names,
        vec![
            ("foo".to_string(), 3),
            ("bap".to_string(), 0),
            ("baz".to_string(), 0),
            ("bap".to_string(), 1),
            ("baz".to_string(), 0),
        ]
    );
    assert_eq!(
        messages(&r),
        vec![
            (DiagnosticKind::Warning, "unused variable: 'bap'".to_string()),
            (DiagnosticKind::Warning, "unused variable: 'baz'".to_string()),
            (DiagnosticKind::Warning, "unused variable: 'baz'".to_string()),
        ]
    );
}

#[test]
fn resolver_resolves_again() {
    let (mut ast, _) = resolve("let x = 1;\nlet y = x;\nz = 2;\n");
    let mut again = NameResolver::new(DiagnosticBag::new());
    again.resolve(&mut ast);
    assert_eq!(again.definitions.len(), 2);
    match &statements(&ast)[1] {
        Ast::Let(d) => {
            assert_eq!(d.id, Some(1));
            match &*d.value.ptr {
                Ast::Variable(v) => assert_eq!(v.definition, Some(0)),
                _ => panic!("expected a variable"),
            }
        }
        _ => panic!("expected a let"),
    }
    match &statements(&ast)[2] {
        Ast::Assignment(d) => assert_eq!(d.id, None),
        _ => panic!("expected an assignment"),
    }
}

#[test]
fn parsed_tree_has_no_bindings() {
    let ast = parse("let x = 1;\nlet y = x;\n");
    let stmts = statements(&ast);
    for s in stmts {
        match s {
            Ast::Let(d) => {
                assert_eq!(d.id, None);
                if let Ast::Variable(v) = &*d.value.ptr {
                    assert_eq!(v.definition, None);
                }
            }
            _ => panic!("expected a let"),
        }
    }
}

#[test]
fn push_definition_records_pattern_and_value() {
    let ast = parse("let x = 41;\n");
    let mut r = NameResolver::new(DiagnosticBag::new());
    match &statements(&ast)[0] {
        Ast::Let(d) => {
            r.push_definition(d);
            assert_eq!(r.definitions.len(), 1);
            assert_eq!(r.definitions[0].pattern.name, "x");
            assert_eq!(r.definitions[0].pattern.span, d.pattern.span);
            assert_eq!(r.definitions[0].uses, 0);
            match &*r.definitions[0].value.ptr {
                Ast::Literal(l) => assert!(matches!(l.kind, LiteralKind::Int(41))),
                _ => panic!("expected a literal"),
            }
        }
        _ => panic!("expected a let"),
    }
    assert!(r.scopes.is_empty());
}

#[test]
fn scopes_restored_after_pop() {
    let info = |n: &str| DefinitionInfo {
        pattern: Pattern { name: n.to_string(), span: Span::new(0, 0) },
        value: P(Ast::Error),
        uses: 0,
    };
    let mut r = NameResolver::new(DiagnosticBag::new());
    r.push_scope();
    let outer = r.define_symbol("x", info("x"));
    r.push_scope();
    let inner = r.define_symbol("x", info("x"));
    let y = r.define_symbol("y", info("y"));
    assert_eq!(r.lookup_symbol("x"), Some(inner));
    assert_eq!(r.lookup_symbol("y"), Some(y));
    r.pop_scope();
    assert_eq!(r.lookup_symbol("x"), Some(outer));
    assert_eq!(r.lookup_symbol("y"), None);
    assert_eq!(r.definitions.len(), 3);
}

#[test]
fn resolve_visitor_defines_nodes() {
    let mut ast = parse("let x = 1;\nlet y = x;\n");
    let mut r = NameResolver::new(DiagnosticBag::new());
    ResolveVisitor::define(&mut ast, &mut r);
    assert_eq!(r.definitions.len(), 2);
    assert!(r.diagnostics.diagnostics.is_empty());
    match &statements(&ast)[1] {
        Ast::Let(d) => match &*d.value.ptr {
            Ast::Variable(v) => assert_eq!(v.definition, Some(0)),
            _ => panic!("expected a variable"),
        },
        _ => panic!("expected a let"),
    }
}
