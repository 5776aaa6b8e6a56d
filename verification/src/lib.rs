//! A stack-based virtual machine toolkit: bytecode definitions, a small
//! code-generation layer and the lexer/parser front end of its assembler.

pub mod data;
pub mod code;
pub mod gen;
pub mod text;
pub mod assembler;
pub mod vm;
