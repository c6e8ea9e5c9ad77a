//! The compiler front end: takes a program's text, parses it into a syntax
//! tree and checks what was reported along the way.
use vstd::prelude::*;

use crate::diagnostics::{diag_v, CompilerError, DiagV, Diagnostic, DiagnosticBag};
use crate::lexer::{strings_closed, Lexer, TokenV};
use crate::parser::ast::Ast;
use crate::parser::display::{fits, fits_within, shown, AstDisplay};
use crate::parser::grammar::{sp_sequence, view_ast, AstV};
use crate::parser::{lex_stream, Parser};
use crate::source::Source;

verus! {

/// What checking a program yields.
pub struct Checked {
    /// The syntax tree.
    pub ast: Ast,
    /// The syntax tree as the display renders it, unless it nests too deeply
    /// for the indentation to be counted.
    pub tree: Option<String>,
    /// What was reported, in order.
    pub diagnostics: Vec<Diagnostic>,
    /// Compilation stops when anything was reported.
    pub result: Result<(), CompilerError>,
}

/// The syntax tree (as values), the index after it and the diagnostics that
/// parsing a program's text gives.
pub open spec fn spec_parse(input: Seq<char>) -> (AstV, nat, Seq<DiagV>) {
    sp_sequence(lex_stream(vstd::utf8::encode_utf8(input), 0), 0, TokenV::Eof)
}

/// Parses a program, renders its syntax tree and checks whether anything was
/// reported.
pub fn check(input: String) -> (c: Checked)
    requires
        vstd::utf8::encode_utf8(input@).len() < usize::MAX,
        strings_closed(vstd::utf8::encode_utf8(input@), 0),
    ensures
        view_ast(c.ast) == spec_parse(input@).0,
        c.diagnostics@.map_values(|d: Diagnostic| diag_v(d)) == spec_parse(input@).2,
        c.tree is Some <==> fits(c.ast, 0, usize::MAX as int),
        c.tree matches Some(t) ==> t@ == shown(c.ast, 0),
        c.result is Ok <==> c.diagnostics@.len() == 0,
{
    let source = Source::new(input.clone());
    let mut lexer = Lexer::new(input);
    let mut parser = Parser::new(&mut lexer, DiagnosticBag::new());
    let ast = parser.parse();
    let tree = if fits_within(&ast, 0, usize::MAX) {
        let mut display = AstDisplay::new();
        Some(display.build(&ast))
    } else {
        None
    };
    let result = parser.diagnostics.check(&source);
    proof {
        assert(parser.diags().subrange(0, parser.diags().len() as int) =~= parser.diags());
    }
    Checked { ast, tree, diagnostics: parser.diagnostics.diagnostics, result }
}

} // verus!
