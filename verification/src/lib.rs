//! The front end of a small, dynamically-typed, C-like expression language:
//! a lexical scanner that turns text into tokens, and a Pratt parser that
//! turns tokens into a syntax tree, collecting error messages instead of
//! aborting. Scanning and parsing are specified by the pure functions
//! `lexer::scan_at` and `parser::sp_parse_program`, and the executable
//! scanner and parser are proved to follow them exactly.

pub mod ast;
pub mod lexer;
pub mod parser;
pub mod tokens;

pub use tokens::Token;
pub use tokens::TokenType;
