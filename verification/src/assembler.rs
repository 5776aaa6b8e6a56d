//! The assembler front end: lexers, token parsers, error values and label
//! bookkeeping.
pub mod compiler;
pub mod error;
pub mod lexer;
pub mod parser;
pub mod program;
pub mod stream;
pub mod target;
