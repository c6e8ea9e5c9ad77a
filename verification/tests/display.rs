use lib::diagnostics::display::DiagnosticsDisplay;
use lib::diagnostics::{Diagnostic, DiagnosticBag, DiagnosticKind};
use lib::escape_codes::Color;
use lib::lexer::Lexer;
use lib::parser::display::AstDisplay;
use lib::parser::Parser;
use lib::source::Source;
use lib::span::Span;
use lib::vm::Machine;
use lib::register::Register;

const RED: &str = "\x1b[31m\x1b[1m";
const ORANGE: &str = "\x1b[33m\x1b[1m";
const CYAN: &str = "\x1b[36m\x1b[1m";
const MAGENTA: &str = "\x1b[35m\x1b[1m";
const RESET: &str = "\x1b[0m";

#[test]
fn source_lines() {
    let src = Source::new("ab\ncd\r\nef".to_string());
    assert_eq!(src.line_index(0), 0);
    assert_eq!(src.line_index(1), 0);
    assert_eq!(src.line_index(4), 1);
    assert_eq!(src.line_index(9), 2);
    // the first byte of a line belongs to that line, a line ending to the line it ends
    assert_eq!(src.line_index(3), 1);
    assert_eq!(src.line_index(2), 0);
    assert_eq!(src.line_index(7), 2);
    assert_eq!(Source::new("a\nbc".to_string()).line_index(2), 1);
    assert_eq!(src.line(0), b"ab".to_vec());
    assert_eq!(src.line(1), b"cd".to_vec());
    assert_eq!(src.line(2), b"ef".to_vec());
    assert_eq!(src.line_start(0), 0);
    assert_eq!(src.line_start(1), 3);
    assert_eq!(src.line_start(2), 6);
    assert_eq!(src.line_start(7), 9);
}

#[test]
fn source_final_newline() {
    let src = Source::new("a\n\nb\n".to_string());
    assert_eq!(src.lines_before(5).len(), 3);
    assert_eq!(src.line(1), Vec::<u8>::new());
    assert_eq!(src.lines_before(0).len(), 0);
}

#[test]
fn stringify_diagnostic() {
    let src = Source::new("ab\ncd".to_string());
    let d = Diagnostic { kind: DiagnosticKind::Error, message: "bad".to_string(), span: Span::new(4, 4) };
    let diags = vec![Diagnostic { kind: DiagnosticKind::Error, message: "bad".to_string(), span: Span::new(4, 4) }];
    let display = DiagnosticsDisplay::new(&src, &diags);
    let expected = format!(
        "c{}d{}\n ^\n |\n +-- {}bad ({}2{}:{}2{}){}\n",
        RED, RESET, ORANGE, RESET, ORANGE, RESET, ORANGE, RESET
    );
    assert_eq!(display.stringify(&d), expected);
    assert_eq!(display.stringify_bytes(&d), expected.as_bytes().to_vec());
}

#[test]
fn stringify_long_line() {
    let text = "let value = 12345678901234567890 + 3;";
    let src = Source::new(text.to_string());
    let diags: Vec<Diagnostic> = Vec::new();
    let display = DiagnosticsDisplay::new(&src, &diags);
    let d = Diagnostic { kind: DiagnosticKind::Warning, message: "m".to_string(), span: Span::new(30, 31) };
    let expected = format!(
        "3456789012345678{}90{} + 3;\n{}^^\n{}|\n{}+-- {}m ({}1{}:{}31{}){}\n",
        RED, RESET, " ".repeat(16), " ".repeat(16), " ".repeat(16), ORANGE, RESET, ORANGE, RESET, ORANGE, RESET
    );
    assert_eq!(display.stringify(&d), expected);
}

#[test]
fn ast_display_let() {
    let mut lexer = Lexer::new("let x = 1;".to_string());
    let mut parser = Parser::new(&mut lexer, DiagnosticBag::new());
    let ast = parser.parse();
    let mut display = AstDisplay::new();
    let out = display.build(&ast);
    let expected = format!(
        "\n{}Statement:{} Declare x\n  {}Expression:{} 1\n",
        MAGENTA, RESET, CYAN, RESET
    );
    assert_eq!(out, expected);
    assert_eq!(display.ident, 0);
}

#[test]
fn ast_display_binary() {
    let mut lexer = Lexer::new("let y = a + 2;".to_string());
    let mut parser = Parser::new(&mut lexer, DiagnosticBag::new());
    let ast = parser.parse();
    let mut display = AstDisplay::new();
    let out = display.build(&ast);
    let expected = format!(
        "\n{m}Statement:{r} Declare y\n  {c}Expression:{r} \n    {c}Left:{r} a\n    {c}Op:{r} Add\n    {c}Right:{r} 2\n  \n",
        m = MAGENTA,
        c = CYAN,
        r = RESET
    );
    assert_eq!(out, expected);
}

#[test]
fn color_codes() {
    assert_eq!(Color::Red.as_ref(), RED);
    assert_eq!(Color::Orange.as_ref(), ORANGE);
    assert_eq!(Color::Cyan.as_ref(), CYAN);
    assert_eq!(Color::Magenta.as_ref(), MAGENTA);
    assert_eq!(Color::Reset.as_ref(), RESET);
}

#[test]
fn machine_state_text() {
    let mut m = Machine::new();
    assert_eq!(
        m.state(),
        "A: 0 | B: 0 | C: 0 | M: 0 | SP: 0 | PC: 0 | BP: 0 | Flags: 0000000000000000"
    );
    m.set_register(Register::A, 65535);
    m.set_register(Register::BP, 10);
    m.set_register(Register::PC, 2);
    assert_eq!(
        m.state(),
        "A: 65535 | B: 0 | C: 0 | M: 0 | SP: 0 | PC: 2 | BP: 10 | Flags: 0000000000000010"
    );
}

#[test]
fn source_line_starts() {
    let text = "ab\ncde\n\nf";
    let src = Source::new(text.to_string());
    assert_eq!(src.line_start(0), 0);
    for k in 0..3 {
        let start = src.line_start(k);
        let line = src.line(k);
        assert_eq!(&text.as_bytes()[start..start + line.len()], &line[..]);
        assert_eq!(src.line_start(k + 1), start + line.len() + 1);
    }
}
