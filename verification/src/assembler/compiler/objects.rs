pub mod ident;
pub mod label;
pub mod statement;
pub mod ty;
