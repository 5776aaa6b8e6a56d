//! Builds `Err` values for the error kinds of the line-based assembler.
use crate::assembler::error::{is_single_error, Error, ErrorType};
use crate::assembler::parser::lexer::{spec_lex_kind_debug, LexIdent, LexToken, LexTokenType};
use crate::assembler::parser::Operand;

use vstd::prelude::*;

verus! {

/// What an `expected ..., got ...` message says was found.
pub open spec fn spec_lex_got_text(got: Option<LexToken>) -> Seq<char> {
    match got {
        Some(t) => "`"@ + spec_lex_kind_debug(t.ty@) + "`"@,
        None => "nothing"@,
    }
}

/// The message of `expected_got`.
pub open spec fn spec_lex_expected_msg(expc: LexTokenType, got: Option<LexToken>) -> Seq<char> {
    "expected `"@ + spec_lex_kind_debug(expc@) + "`, got "@ + spec_lex_got_text(got)
}

/// `expected <expc>, got <token or nothing>`, at the location of the token found.
pub fn expected_got<T>(expc: LexTokenType, got: Option<LexToken>) -> (res: Result<T, Error>)
    ensures
        res matches Err(e) && is_single_error(e, ErrorType::ExpectedGot, match got {
            Some(t) => t.loc,
            None => (0usize, 0usize, 0usize),
        }, spec_lex_expected_msg(expc, got)),
{
    let mut err = Error::new(ErrorType::ExpectedGot);
    let got_text = match &got {
        Some(t) => {
            err = err.loc(t.loc);
            let mut s = String::from_str("`");
            s.append(t.ty.debug_string().as_str());
            s.append("`");
            s
        },
        None => String::from_str("nothing"),
    };
    let mut msg = String::from_str("expected `");
    msg.append(expc.debug_string().as_str());
    msg.append("`, got ");
    msg.append(got_text.as_str());
    Err(err.msg(msg))
}

/// `label <ident> was not declared`, at the location of the identifier.
pub fn not_declared<T>(ident: &LexIdent) -> (res: Result<T, Error>)
    ensures
        res matches Err(e) && is_single_error(e, ErrorType::NotDeclared, ident.loc, "label `"@
            + ident.raw@ + "` was not declared"@),
{
    let err = Error::new(ErrorType::NotDeclared).loc(ident.loc);
    let mut msg = String::from_str("label `");
    msg.append(ident.raw.as_str());
    msg.append("` was not declared");
    Err(err.msg(msg))
}

/// `redeclaration of label <ident>`, at location `(0, 0, 0)`.
pub fn redeclared<T>(ident: &LexIdent) -> (res: Result<T, Error>)
    ensures
        res matches Err(e) && is_single_error(e, ErrorType::Redeclared, (0usize, 0usize, 0usize),
            "redeclaration of label `"@ + ident.raw@ + "`"@),
{
    let mut msg = String::from_str("redeclaration of label `");
    msg.append(ident.raw.as_str());
    msg.append("`");
    Err(Error::new(ErrorType::Redeclared).msg(msg))
}

/// An operand that should have been a constant: an error of that kind without
/// message, at location `(0, 0, 0)`.
pub fn not_a_value<T>(raw: Operand) -> (res: Result<T, Error>)
    ensures
        res matches Err(e) && e.ty == ErrorType::NotAValue && e.loc == (0usize, 0usize, 0usize)
            && e.content@.len() == 0,
{
    Err(Error::new(ErrorType::NotAValue))
}

} // verus!
