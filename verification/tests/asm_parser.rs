use lovm::assembler::parser::keyword::Keyword;
use lovm::assembler::parser::lexer::{lex_line, try_lex_line, LexIdent, LexToken, LexTokenType};
use lovm::assembler::parser::{into_statement, parse, try_parse, Ast, Operand};
use lovm::assembler::stream::TokenStream;
use lovm::text::{byte_slice, try_byte_slice};
use lovm::assembler::target::{Instruction, Register};

fn is_reg(op: &Operand, r: Register) -> bool {
    matches!(op, Operand::Register(x) if *x == r)
}

#[test]
fn parse_mov_register_constant() {
    let ast = parse("mov A, #5").unwrap();
    assert_eq!(ast.len(), 1);
    match &ast[0] {
        Ast::Statement2(Keyword::Mov, a, Operand::Value(v)) => {
            assert!(is_reg(a, Register::A));
            assert_eq!(v, "5");
        }
        other => panic!("unexpected {:?}", other),
    }
}

#[test]
fn parse_label_comment_and_lines() {
    let ast = parse("start: add A, B ; comment\npush C").unwrap();
    assert_eq!(ast.len(), 3);
    assert!(matches!(&ast[0], Ast::Label(l) if l == "start"));
    match &ast[1] {
        Ast::Statement2(Keyword::Add, a, b) => {
            assert!(is_reg(a, Register::A));
            assert!(is_reg(b, Register::B));
        }
        other => panic!("unexpected {:?}", other),
    }
    match &ast[2] {
        Ast::Statement1(Keyword::Push, c) => assert!(is_reg(c, Register::C)),
        other => panic!("unexpected {:?}", other),
    }
}

#[test]
fn parse_skips_empty_and_comment_lines() {
    let ast = parse("; only a comment\n\nret").unwrap();
    assert_eq!(ast.len(), 1);
    assert!(matches!(&ast[0], Ast::Statement(Keyword::Ret)));
    assert_eq!(parse("").unwrap().len(), 0);
}

#[test]
fn parse_mov_with_dereference() {
    let ast = parse("mov *A, B").unwrap();
    match &ast[0] {
        Ast::Statement2(Keyword::Mov, Operand::Deref(a), b) => {
            assert!(is_reg(a, Register::A));
            assert!(is_reg(b, Register::B));
        }
        other => panic!("unexpected {:?}", other),
    }
}

#[test]
fn parse_label_operand_is_ident() {
    let ast = parse("jmp loop").unwrap();
    assert!(matches!(&ast[0], Ast::Statement1(Keyword::Jmp, Operand::Ident(s)) if s == "loop"));
}

#[test]
fn parse_label_without_colon() {
    assert_eq!(parse("A").unwrap_err(), "expected `Punct(':')`, got `None`");
}

#[test]
fn parse_label_followed_by_word() {
    assert_eq!(
        parse("abc def").unwrap_err(),
        "expected `Punct(':')`, got `Some(LexToken { loc: (0, 4, 7), ty: Ident(LexIdent { loc: (0, 4, 7), raw: \"def\" }) })`"
    );
}

#[test]
fn parse_line_starting_with_punctuation() {
    assert_eq!(parse("#5").unwrap_err(), "line does not start with instruction");
}

#[test]
fn parse_missing_operand() {
    assert_eq!(parse("push").unwrap_err(), "unexpected token `None`");
    assert_eq!(parse("jmp #").unwrap_err(), "expected constant value");
    assert_eq!(
        parse("push ,").unwrap_err(),
        "unexpected token `Some(LexToken { loc: (0, 5, 6), ty: Punct(',') })`"
    );
}

#[test]
fn parse_error_on_second_line() {
    assert_eq!(parse("ret\n,").unwrap_err(), "line does not start with instruction");
}

#[test]
fn lex_line_tokens_and_locations() {
    let toks = lex_line(0, "mov A, #5");
    let got: Vec<((usize, usize, usize), String)> = toks
        .iter()
        .map(|t| {
            let kind = match &t.ty {
                LexTokenType::Keyword(k) => format!("kw {:?}", k),
                LexTokenType::Ident(i) => format!("id {}", i.raw),
                LexTokenType::Punct(c) => format!("p {}", c),
            };
            (t.loc, kind)
        })
        .collect();
    assert_eq!(
        got,
        vec![
            ((0, 0, 3), "kw Mov".to_string()),
            ((0, 4, 5), "id A".to_string()),
            ((0, 4, 6), "p ,".to_string()),
            ((0, 7, 8), "p #".to_string()),
            ((0, 8, 9), "id 5".to_string()),
        ]
    );
}

#[test]
fn lex_line_empty() {
    assert!(lex_line(3, "").is_empty());
    assert!(lex_line(3, "   ").is_empty());
}

#[test]
fn lex_token_new_reads_keywords() {
    let t = LexToken::new((1, 2, 5), "pop");
    assert!(matches!(t.ty, LexTokenType::Keyword(Keyword::Pop)));
    let u = LexToken::new((1, 2, 5), "foo");
    match u.ty {
        LexTokenType::Ident(i) => {
            assert_eq!(i.raw, "foo");
            assert_eq!(i.loc, (1, 2, 5));
        }
        _ => panic!("expected an identifier"),
    }
}

#[test]
fn lex_ident_equality_by_text() {
    let a = LexIdent::new((0, 0, 1), "x".to_string());
    let b = LexIdent::new((5, 5, 6), "x".to_string());
    let c = LexIdent::new((0, 0, 1), "y".to_string());
    assert!(a == b);
    assert!(a != c);
}

#[test]
fn keyword_from_str() {
    assert_eq!(Keyword::from_str("coal"), Ok(Keyword::Coal));
    assert_eq!(Keyword::from_str("dv"), Ok(Keyword::Dv));
    assert_eq!(Keyword::from_str("pusha"), Ok(Keyword::Pusha));
    assert_eq!(Keyword::from_str("MOV"), Err("not an keyword"));
    assert_eq!(Keyword::from_str(""), Err("not an keyword"));
}

#[test]
fn keyword_arguments() {
    assert_eq!(Keyword::Mov.arguments(), 2);
    assert_eq!(Keyword::Coal.arguments(), 2);
    assert_eq!(Keyword::Dv.arguments(), 1);
    assert_eq!(Keyword::Jlt.arguments(), 1);
    assert_eq!(Keyword::Popa.arguments(), 0);
}

#[test]
fn keyword_into_inx() {
    assert_eq!(Keyword::Jeq.into_inx(), Instruction::Jeq);
    assert_eq!(Keyword::Coal.into_inx(), Instruction::Coal);
    assert_eq!(Keyword::Inc.into_inx(), Instruction::Inc);
}

#[test]
fn keyword_text_roundtrip() {
    for kw in [Keyword::Inc, Keyword::Shr, Keyword::Jge, Keyword::Call, Keyword::Mov, Keyword::Dv] {
        let text = kw.debug_name().to_lowercase();
        assert_eq!(Keyword::from_str(&text), Ok(kw));
    }
}

#[test]
fn register_from_str() {
    assert_eq!(Register::from_str("C"), Ok(Register::C));
    assert_eq!(Register::from_str("c"), Err(()));
    assert_eq!(Register::from_str("AB"), Err(()));
}

#[test]
fn lex_line_word_with_wide_character() {
    // counts run over characters and cut bytes: `éa` gives the word `é`
    let toks = lex_line(0, "éa");
    assert_eq!(toks.len(), 1);
    match &toks[0].ty {
        LexTokenType::Ident(i) => assert_eq!(i.raw, "é"),
        other => panic!("unexpected {:?}", other),
    }
    assert_eq!(toks[0].loc, (0, 0, 2));
}

#[test]
fn lexing_inside_a_character_panics() {
    assert!(try_lex_line(0, "aé b").is_none());
    assert!(try_parse("ret\naé b").is_none());
    // a comment is cut off before lexing
    assert!(parse("mov A, B ; é").is_ok());
    // the first error ends parsing before a later line is lexed
    assert_eq!(try_parse(",\naé b").unwrap().unwrap_err(), "line does not start with instruction");
}

#[test]
fn into_statement_reads_all_tokens_of_the_line() {
    let mut it = TokenStream::new(lex_line(0, "*A, B"));
    match into_statement(Keyword::Mov, &mut it).unwrap() {
        Ast::Statement2(Keyword::Mov, Operand::Deref(a), b) => {
            assert!(is_reg(&a, Register::A));
            assert!(is_reg(&b, Register::B));
        }
        other => panic!("unexpected {:?}", other),
    }
    assert!(it.next().is_none());
    let mut it = TokenStream::new(lex_line(0, "A B"));
    assert!(into_statement(Keyword::Push, &mut it).is_ok());
    assert!(it.next().is_some());
}

#[test]
fn byte_slices_fall_on_character_boundaries() {
    assert_eq!(try_byte_slice("aé", 0, 3), Some("aé"));
    assert_eq!(try_byte_slice("aé", 1, 3), Some("é"));
    assert_eq!(try_byte_slice("aé", 0, 2), None);
    assert_eq!(try_byte_slice("aé", 2, 1), None);
    assert_eq!(try_byte_slice("aé", 0, 4), None);
    assert_eq!(byte_slice("mov A", 4, 5), "A");
}
