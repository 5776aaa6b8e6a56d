use lovm::assembler::compiler::error::raise;
use lovm::assembler::compiler::error::{Error, ErrorType};
use lovm::assembler::compiler::objects::ident::Ident;
use lovm::assembler::compiler::objects::label::Label;
use lovm::assembler::compiler::objects::ty::Type;
use lovm::assembler::compiler::parser::lexer::{lex_line, try_lex_line, Token, TokenType};
use lovm::assembler::compiler::parser::{expect, take_deref, take_separator, take_softpunct, take_type};
use lovm::assembler::compiler::unit::{find_entry, merge_labels, LabelTable};
use lovm::assembler::parser::keyword::Keyword;
use lovm::assembler::stream::TokenStream;

const RED: &str = "\u{1b}[31mErr\u{1b}[0m";

fn is_err_line(line: &str, rest: &str) -> bool {
    line == format!("Err {}", rest) || line == format!("{} {}", RED, rest)
}

fn kinds(toks: &[Token]) -> Vec<((usize, usize, usize), String)> {
    toks.iter()
        .map(|t| {
            let k = match &t.ty {
                TokenType::Ident(i) => format!("id {}", i.raw),
                TokenType::Keyword(k) => format!("kw {:?}", k),
                TokenType::Str(s) => format!("str {}", s),
                TokenType::Punct(c) => format!("p {}", c),
                TokenType::SoftPunct => "soft".to_string(),
            };
            (t.loc, k)
        })
        .collect()
}

fn ident(loc: (usize, usize, usize), raw: &str) -> Ident {
    Ident::new(loc, raw.to_string())
}

#[test]
fn lex_line_words_punctuation_and_soft_punctuation() {
    let toks = lex_line(0, "mov A, B").unwrap();
    assert_eq!(
        kinds(&toks),
        vec![
            ((0, 0, 3), "kw Mov".to_string()),
            ((0, 3, 4), "soft".to_string()),
            ((0, 4, 5), "id A".to_string()),
            ((0, 5, 6), "p ,".to_string()),
            ((0, 6, 7), "soft".to_string()),
            ((0, 7, 8), "id B".to_string()),
        ]
    );
}

#[test]
fn lex_line_merges_runs_of_spaces() {
    let toks = lex_line(2, "a  b").unwrap();
    assert_eq!(
        kinds(&toks),
        vec![((2, 0, 1), "id a".to_string()), ((2, 1, 3), "soft".to_string()), ((2, 3, 4), "id b".to_string())]
    );
}

#[test]
fn lex_line_string_literal() {
    let toks = lex_line(0, "dv \"hi\"").unwrap();
    assert_eq!(
        kinds(&toks),
        vec![
            ((0, 0, 2), "kw Dv".to_string()),
            ((0, 2, 3), "soft".to_string()),
            ((0, 0, 0), "str hi".to_string()),
            ((0, 3, 4), "id \"".to_string()),
        ]
    );
}

#[test]
fn lex_line_escaped_quote() {
    let toks = lex_line(0, "\"a\\\"b\"").unwrap();
    assert!(matches!(&toks[0].ty, TokenType::Str(s) if s == "a\"b"));
}

#[test]
fn lex_line_unclosed_string() {
    let e = lex_line(0, "\"abc").unwrap_err();
    assert_eq!(e.content.len(), 1);
    assert!(is_err_line(&e.content[0], "(0, 0, 0): unclosed string literal"));
    assert!(e.ty.is_none());
}

#[test]
fn compiler_lex_line_empty() {
    assert!(lex_line(0, "").unwrap().is_empty());
}

#[test]
fn token_new_reads_keywords() {
    assert!(matches!(Token::new((0, 0, 3), "ret").ty, TokenType::Keyword(Keyword::Ret)));
    assert!(matches!(Token::new((0, 0, 3), "xyz").ty, TokenType::Ident(ref i) if i.raw == "xyz" && i.loc == (0, 0, 3)));
}

fn stream(src: &str) -> TokenStream<Token> {
    TokenStream::new(lex_line(0, src).unwrap())
}

#[test]
fn take_softpunct_and_deref() {
    let mut it = stream(" *A");
    take_softpunct(&mut it);
    assert!(take_deref(&mut it));
    assert!(!take_deref(&mut it));
    assert!(matches!(it.next(), Some(Token { ty: TokenType::Ident(ref i), .. }) if i.raw == "A"));
    assert!(it.next().is_none());
}

#[test]
fn expect_accepts_the_expected_token() {
    let mut it = stream(",x");
    assert!(expect(&mut it, TokenType::Punct(',')).is_ok());
    assert!(matches!(it.next(), Some(Token { ty: TokenType::Ident(_), .. })));
}

#[test]
fn expect_reports_the_token_found() {
    let mut it = stream("A,B");
    let e = expect(&mut it, TokenType::Punct(',')).unwrap_err();
    assert!(matches!(e.ty, Some(ErrorType::ExpectedGot)));
    assert_eq!(e.loc, (0, 0, 1));
    assert!(is_err_line(
        &e.content[0],
        "(0, 0, 1): expected `Punct(',')`, got `Ident(Ident { loc: (0, 0, 1), raw: \"A\" })`"
    ));
    // the stream is drained
    assert!(it.next().is_none());
}

#[test]
fn expect_reports_nothing_at_the_end() {
    let mut it: TokenStream<Token> = TokenStream::new(vec![]);
    let e = expect(&mut it, TokenType::SoftPunct).unwrap_err();
    assert_eq!(e.loc, (0, 0, 0));
    assert!(is_err_line(&e.content[0], "(0, 0, 0): expected `SoftPunct`, got nothing"));
}

#[test]
fn take_separator_with_spaces() {
    let mut it = stream(" , B");
    assert!(take_separator(&mut it).is_ok());
    assert!(matches!(it.next(), Some(Token { ty: TokenType::Ident(ref i), .. }) if i.raw == "B"));
    let mut it2 = stream(" B");
    let e = take_separator(&mut it2).unwrap_err();
    assert_eq!(e.loc, (0, 1, 2));
}

#[test]
fn take_type_annotations() {
    let mut it = stream("@i64 A");
    assert_eq!(take_type(&mut it), Some(Type::I64));
    take_softpunct(&mut it);
    assert!(matches!(it.next(), Some(Token { ty: TokenType::Ident(ref i), .. }) if i.raw == "A"));
    let mut it2 = stream("@foo");
    assert_eq!(take_type(&mut it2), None);
    assert!(it2.next().is_none());
    let mut it3 = stream("A");
    assert_eq!(take_type(&mut it3), None);
    assert!(it3.next().is_some());
}

#[test]
fn type_from_str_and_numbers() {
    assert_eq!(Type::from_str("ref"), Ok(Type::Ref));
    assert_eq!(Type::from_str("f64"), Ok(Type::F64));
    assert_eq!(Type::from_str("u8"), Err(()));
    let n: i8 = Type::T.into();
    assert_eq!(n, 5);
    let u: usize = Type::I.into();
    assert_eq!(u, 1);
}

#[test]
fn ident_is_register() {
    assert!(ident((0, 0, 1), "D").is_register());
    assert!(!ident((0, 0, 1), "d").is_register());
    assert!(ident((0, 0, 1), "x") == ident((9, 9, 9), "x"));
}

#[test]
fn label_builders_and_export() {
    let l = Label::new();
    assert!(!l.is_exported());
    let main = Label::new().declaration(&ident((0, 0, 4), "main"), 3);
    assert!(main.is_exported());
    let used = Label::new().location(&ident((1, 0, 1), "x"), 7).location(&ident((2, 0, 1), "x"), 9);
    assert_eq!(used.locations.len(), 2);
    assert_eq!(used.locations[1].1, 9);
    assert!(used.decl.is_none());
    let mut public = Label::new();
    public.public = true;
    assert!(public.is_exported());
}

#[test]
fn merge_labels_hands_over_declarations() {
    let mut ctx = LabelTable {
        entries: vec![
            (ident((0, 0, 1), "x"), Label::new().location(&ident((0, 0, 1), "x"), 2)),
            (ident((0, 0, 1), "z"), Label::new()),
        ],
    };
    let scope = LabelTable {
        entries: vec![
            (ident((5, 0, 1), "x"), Label::new().declaration(&ident((5, 0, 1), "x"), 40)),
            (ident((6, 0, 1), "y"), Label::new().declaration(&ident((6, 0, 1), "y"), 41)),
        ],
    };
    assert!(merge_labels(&mut ctx, &scope).is_ok());
    assert_eq!(ctx.entries.len(), 2);
    let x = &ctx.entries[0].1;
    assert_eq!(x.decl.as_ref().map(|d| d.1), Some(40));
    assert_eq!(x.locations.len(), 1);
    assert!(ctx.entries[1].1.decl.is_none());
    assert_eq!(find_entry(&ctx.entries, "z"), Some(1));
    assert_eq!(find_entry(&ctx.entries, "y"), None);
}

#[test]
fn error_builders() {
    let e = Error::new().ty(ErrorType::NotDeclared).loc((1, 2, 3)).msg("m".to_string());
    assert_eq!(e.loc, (1, 2, 3));
    assert!(matches!(e.ty, Some(ErrorType::NotDeclared)));
    assert_eq!(e.content.len(), 1);
    assert!(is_err_line(&e.content[0], "(1, 2, 3): m"));
    let s = e.to_string();
    assert!(s == "Err (1, 2, 3): m\n" || s == format!("{} (1, 2, 3): m\n", RED));
    let empty = Error::new();
    assert_eq!(empty.to_string(), "");
    assert_eq!(empty.loc, (0, 0, 0));
}

#[test]
fn error_keeps_lines_in_order() {
    let e = Error::new().msg("a".to_string()).loc((4, 4, 4)).msg("b".to_string());
    assert_eq!(e.content.len(), 2);
    assert!(is_err_line(&e.content[0], "(0, 0, 0): a"));
    assert!(is_err_line(&e.content[1], "(4, 4, 4): b"));
}

#[test]
fn raise_expected_either_got() {
    let e = raise::expected_either_got::<()>(&["label", "instruction"], None).unwrap_err();
    assert!(is_err_line(&e.content[0], "(0, 0, 0): expected `[\"label\", \"instruction\"]`, got nothing"));
    let t = Token::new((3, 1, 2), "#");
    let e2 = raise::expected_either_got::<()>(&["label"], Some(t)).unwrap_err();
    assert_eq!(e2.loc, (3, 1, 2));
    assert!(is_err_line(
        &e2.content[0],
        "(3, 1, 2): expected `[\"label\"]`, got `Ident(Ident { loc: (3, 1, 2), raw: \"#\" })`"
    ));
}

#[test]
fn raise_expected_got_keyword() {
    let t = Token::new((0, 0, 3), "ret");
    let e = raise::expected_got::<()>(TokenType::Str("s".to_string()), Some(t)).unwrap_err();
    assert!(is_err_line(&e.content[0], "(0, 0, 3): expected `Str(\"s\")`, got `Keyword(Ret)`"));
}

#[test]
fn compiler_raise_not_declared_and_redeclared() {
    let id = ident((1, 2, 3), "foo");
    let e = raise::not_declared::<()>(&id).unwrap_err();
    assert_eq!(e.loc, (1, 2, 3));
    assert!(matches!(e.ty, Some(ErrorType::NotDeclared)));
    assert!(is_err_line(&e.content[0], "(1, 2, 3): label `foo` was not declared"));
    let r = raise::redeclared::<()>(&id).unwrap_err();
    assert_eq!(r.loc, (0, 0, 0));
    assert!(matches!(r.ty, Some(ErrorType::Redeclared)));
    assert!(is_err_line(&r.content[0], "(0, 0, 0): redeclaration of label `foo`"));
}

#[test]
fn token_type_duplicate_and_equality() {
    let a = TokenType::Ident(ident((0, 0, 1), "q"));
    let b = a.duplicate();
    assert!(a == b);
    assert!(TokenType::Punct(',') != TokenType::Punct('.'));
    assert!(TokenType::SoftPunct == TokenType::SoftPunct);
}

#[test]
fn lex_line_string_with_wide_character() {
    // the string literal counts as one position: the last word is cut out
    // at the byte of the opening quote
    let toks = lex_line(0, "dv \"é\"").unwrap();
    assert_eq!(
        kinds(&toks),
        vec![
            ((0, 0, 2), "kw Dv".to_string()),
            ((0, 2, 3), "soft".to_string()),
            ((0, 0, 0), "str é".to_string()),
            ((0, 3, 4), "id \"".to_string()),
        ]
    );
}

#[test]
fn try_lex_line_panics_inside_a_character() {
    assert!(try_lex_line(0, "aé b").is_none());
    assert!(try_lex_line(0, "éa").is_some());
    assert!(try_lex_line(0, "mov A, B").is_some());
}
