use lovm::assembler::compiler::objects::ty::Type;
use lovm::assembler::compiler::parser::{parse, try_parse, Ast, Operand};
use lovm::assembler::parser::keyword::Keyword;
use lovm::assembler::program::Value;
use lovm::assembler::target::Register;

const RED: &str = "\u{1b}[31mErr\u{1b}[0m";

fn is_err_line(line: &str, rest: &str) -> bool {
    line == format!("Err {}", rest) || line == format!("{} {}", RED, rest)
}

fn is_reg(o: &Option<Operand>, r: Register) -> bool {
    matches!(o, Some(Operand::Register(x)) if *x == r)
}

#[test]
fn grammar_mov_register_constant() {
    let ast = parse("mov A, #5").unwrap();
    assert_eq!(ast.len(), 1);
    match &ast[0] {
        Ast::Statement(st) => {
            assert_eq!(st.kw, Keyword::Mov);
            assert_eq!(st.ty, None);
            assert!(is_reg(&st.arg1, Register::A));
            assert!(matches!(st.arg2, Some(Operand::Value(Value::I(5)))));
        }
        other => panic!("unexpected {:?}", other),
    }
}

#[test]
fn grammar_label_then_statement() {
    let ast = parse("main: ret").unwrap();
    assert_eq!(ast.len(), 2);
    match &ast[0] {
        Ast::Label(i) => {
            assert_eq!(i.raw, "main");
            assert_eq!(i.loc, (0, 0, 4));
        }
        other => panic!("unexpected {:?}", other),
    }
    assert!(matches!(&ast[1], Ast::Statement(st) if st.kw == Keyword::Ret && st.arg1.is_none()));
}

#[test]
fn grammar_macro_call() {
    let ast = parse(".export main").unwrap();
    match &ast[0] {
        Ast::Macro(name, ops) => {
            assert_eq!(name.raw, "export");
            assert_eq!(ops.len(), 1);
            assert!(matches!(&ops[0], Operand::Ident(i) if i.raw == "main" && i.loc == (0, 8, 12)));
        }
        other => panic!("unexpected {:?}", other),
    }
}

#[test]
fn grammar_macro_comma_is_left_to_the_next_operand() {
    let e = parse(".include a, b").unwrap_err();
    assert!(e.ty.is_none());
    assert!(is_err_line(
        &e.content[0],
        "(0, 0, 0): unexpected token `Some(Token { loc: (0, 10, 11), ty: Punct(',') })`"
    ));
}

#[test]
fn grammar_type_annotation() {
    let ast = parse("add@i64 A, B").unwrap();
    match &ast[0] {
        Ast::Statement(st) => {
            assert_eq!(st.kw, Keyword::Add);
            assert_eq!(st.ty, Some(Type::I64));
            assert!(is_reg(&st.arg1, Register::A));
            assert!(is_reg(&st.arg2, Register::B));
        }
        other => panic!("unexpected {:?}", other),
    }
}

#[test]
fn grammar_mov_dereference_and_label_operand() {
    let ast = parse("mov *A, x").unwrap();
    match &ast[0] {
        Ast::Statement(st) => {
            assert!(matches!(&st.arg1, Some(Operand::Deref(b)) if matches!(**b, Operand::Register(Register::A))));
            assert!(matches!(&st.arg2, Some(Operand::Ident(i)) if i.raw == "x"));
        }
        other => panic!("unexpected {:?}", other),
    }
}

#[test]
fn grammar_line_must_start_with_label_or_instruction() {
    let e = parse("@foo").unwrap_err();
    assert_eq!(e.loc, (0, 0, 1));
    assert!(is_err_line(
        &e.content[0],
        "(0, 0, 1): expected `[\"label\", \"instruction\"]`, got `Punct('@')`"
    ));
    let r = parse("A: ret").unwrap_err();
    assert!(is_err_line(
        &r.content[0],
        "(0, 0, 1): expected `[\"label\", \"instruction\"]`, got `Ident(Ident { loc: (0, 0, 1), raw: \"A\" })`"
    ));
}

#[test]
fn grammar_label_needs_a_colon() {
    let e = parse("foo bar").unwrap_err();
    assert_eq!(e.loc, (0, 3, 4));
    assert!(is_err_line(&e.content[0], "(0, 3, 4): expected `Punct(':')`, got `SoftPunct`"));
}

#[test]
fn grammar_unclosed_string() {
    let e = parse("dv \"abc").unwrap_err();
    assert!(is_err_line(&e.content[0], "(0, 0, 0): unclosed string literal"));
}

#[test]
fn grammar_comments_and_empty_lines() {
    let ast = parse("; c\n\nret ; x").unwrap();
    assert_eq!(ast.len(), 1);
    assert!(matches!(&ast[0], Ast::Statement(st) if st.kw == Keyword::Ret));
}

#[test]
fn grammar_panics_are_refused() {
    assert!(try_parse("push #x").is_none());
    assert!(try_parse("add@ A, B").is_none());
    assert!(try_parse("push #7").is_some());
}

#[test]
fn grammar_missing_operand() {
    let e = parse("push").unwrap_err();
    assert!(is_err_line(&e.content[0], "(0, 0, 0): unexpected token `None`"));
    let c = parse("jmp #").unwrap_err();
    assert!(is_err_line(&c.content[0], "(0, 0, 0): expected constant value"));
}
