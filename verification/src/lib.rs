pub mod ast;
pub mod cache;
pub mod diagnostics;
pub mod escape_codes;
pub mod frontend;
pub mod io;
pub mod lexer;
pub mod memory;
pub mod op;
pub mod source;
pub mod resolver;
pub mod span;
pub mod text;
pub mod token;
pub mod vm;
pub mod words;
pub mod parser;
pub mod pp;
pub mod register;
