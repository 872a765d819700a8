//! A front end for a minimal Lisp: a lexer that turns source text into spanned
//! tokens and a recursive-descent parser that turns the tokens into a syntax tree.

pub mod ast;
pub mod chars;
pub mod error;
pub mod lexer;
pub mod lexer_laws;
pub mod offsets;
pub mod parser;
pub mod parser_laws;
pub mod span;
