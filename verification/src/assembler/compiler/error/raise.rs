//! Builds `Err` values for the compiler's error kinds.
use crate::assembler::compiler::error::{
    got_loc, got_text, is_single_error, spec_expected_either_msg, spec_expected_msg, spec_got_loc,
    spec_not_declared_msg, spec_redeclared_msg, spec_unclosed_msg, str_list_debug, Error, ErrorType,
};
use crate::assembler::compiler::objects::ident::Ident;
use crate::assembler::compiler::parser::lexer::{Token, TokenType};
use crate::assembler::compiler::parser::{spec_operand_debug, Operand};
use vstd::prelude::*;

verus! {


/// `expected <one of expc>, got <token or nothing>`, at the location of the token found.
pub fn expected_either_got<T>(expc: &[&str], got: Option<Token>) -> (res: Result<T, Error>)
    ensures
        res matches Err(e) && is_single_error(e, Some(ErrorType::ExpectedGot), spec_got_loc(got),
            spec_expected_either_msg(expc@.map_values(|s: &str| s@), got)),
{
    let err = Error::new().ty(ErrorType::ExpectedGot).loc(got_loc(&got));
    let mut msg = String::from_str("expected `");
    msg.append(str_list_debug(expc).as_str());
    msg.append("`, got ");
    msg.append(got_text(&got).as_str());
    Err(err.msg(msg))
}

/// `expected <expc>, got <token or nothing>`, at the location of the token found.
pub fn expected_got<T>(expc: TokenType, got: Option<Token>) -> (res: Result<T, Error>)
    ensures
        res matches Err(e) && is_single_error(e, Some(ErrorType::ExpectedGot), spec_got_loc(got),
            spec_expected_msg(expc, got)),
{
    let err = Error::new().ty(ErrorType::ExpectedGot).loc(got_loc(&got));
    let mut msg = String::from_str("expected `");
    msg.append(expc.debug_string().as_str());
    msg.append("`, got ");
    msg.append(got_text(&got).as_str());
    Err(err.msg(msg))
}

/// The message of `not_a_value`.
pub open spec fn spec_not_a_value_msg(op: Operand) -> Seq<char> {
    "`"@ + spec_operand_debug(op) + "` cannot be interpreted as value"@
}

/// `<operand> cannot be interpreted as value`, at location `(0, 0, 0)`.
pub fn not_a_value<T>(op: Operand) -> (res: Result<T, Error>)
    ensures
        res matches Err(e) && is_single_error(e, Some(ErrorType::NotAValue), (0usize, 0usize, 0usize),
            spec_not_a_value_msg(op)),
{
    let err = Error::new().ty(ErrorType::NotAValue);
    let mut msg = String::from_str("`");
    msg.append(op.debug_string().as_str());
    msg.append("` cannot be interpreted as value");
    Err(err.msg(msg))
}

/// `label <ident> was not declared`, at the location of the identifier.
pub fn not_declared<T>(ident: &Ident) -> (res: Result<T, Error>)
    ensures
        res matches Err(e) && is_single_error(e, Some(ErrorType::NotDeclared), ident.loc,
            spec_not_declared_msg(*ident)),
{
    let err = Error::new().ty(ErrorType::NotDeclared).loc(ident.loc);
    let mut msg = String::from_str("label `");
    msg.append(ident.raw.as_str());
    msg.append("` was not declared");
    Err(err.msg(msg))
}

/// `redeclaration of label <ident>`, at location `(0, 0, 0)`.
pub fn redeclared<T>(ident: &Ident) -> (res: Result<T, Error>)
    ensures
        res matches Err(e) && is_single_error(e, Some(ErrorType::Redeclared),
            (0usize, 0usize, 0usize), spec_redeclared_msg(*ident)),
{
    let mut msg = String::from_str("redeclaration of label `");
    msg.append(ident.raw.as_str());
    msg.append("`");
    Err(Error::new().ty(ErrorType::Redeclared).msg(msg))
}

/// A string literal that is not closed before the end of the line.
pub fn unclosed_string<T>() -> (res: Result<T, Error>)
    ensures
        res matches Err(e) && is_single_error(e, None, (0usize, 0usize, 0usize), spec_unclosed_msg()),
{
    Err(Error::new().msg(String::from_str("unclosed string literal")))
}

} // verus!
