use lovm::assembler::error::raise;
use lovm::assembler::error::{Error, ErrorType};
use lovm::assembler::parser::lexer::{LexIdent, LexToken, LexTokenType};

const RED: &str = "\u{1b}[31mErr\u{1b}[0m";

fn is_err_line(line: &str, rest: &str) -> bool {
    line == format!("Err {}", rest) || line == format!("{} {}", RED, rest)
}

#[test]
fn error_new_msg_loc() {
    let e = Error::new(ErrorType::Untyped).loc((2, 0, 1)).msg("bad".to_string());
    assert_eq!(e.ty, ErrorType::Untyped);
    assert_eq!(e.loc, (2, 0, 1));
    assert!(is_err_line(&e.content[0], "(2, 0, 1): bad"));
}

#[test]
fn error_to_string_concatenates_lines() {
    let e = Error::new(ErrorType::NotAValue).msg("a".to_string()).msg("b".to_string());
    let s = e.to_string();
    assert!(s == "Err (0, 0, 0): aErr (0, 0, 0): b" || s == format!("{} (0, 0, 0): a{} (0, 0, 0): b", RED, RED));
    assert_eq!(Error::new(ErrorType::Redeclared).to_string(), "");
}

#[test]
fn raise_expected_got_with_token() {
    let got = LexToken::new((0, 4, 7), "def");
    let e = raise::expected_got::<()>(LexTokenType::Punct(':'), Some(got)).unwrap_err();
    assert_eq!(e.ty, ErrorType::ExpectedGot);
    assert_eq!(e.loc, (0, 4, 7));
    assert!(is_err_line(
        &e.content[0],
        "(0, 4, 7): expected `Punct(':')`, got `Ident(LexIdent { loc: (0, 4, 7), raw: \"def\" })`"
    ));
}

#[test]
fn raise_expected_got_nothing() {
    let e = raise::expected_got::<()>(LexTokenType::Punct(','), None).unwrap_err();
    assert_eq!(e.loc, (0, 0, 0));
    assert!(is_err_line(&e.content[0], "(0, 0, 0): expected `Punct(',')`, got nothing"));
}

#[test]
fn raise_not_declared_and_redeclared() {
    let id = LexIdent::new((7, 1, 4), "lbl".to_string());
    let e = raise::not_declared::<u8>(&id).unwrap_err();
    assert_eq!(e.ty, ErrorType::NotDeclared);
    assert_eq!(e.loc, (7, 1, 4));
    assert!(is_err_line(&e.content[0], "(7, 1, 4): label `lbl` was not declared"));
    let r = raise::redeclared::<u8>(&id).unwrap_err();
    assert_eq!(r.ty, ErrorType::Redeclared);
    assert_eq!(r.loc, (0, 0, 0));
    assert!(is_err_line(&r.content[0], "(0, 0, 0): redeclaration of label `lbl`"));
}
