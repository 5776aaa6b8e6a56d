use lovm::assembler::compiler::error::ErrorType;
use lovm::assembler::compiler::objects::ident::Ident;
use lovm::assembler::compiler::objects::statement::Statement;
use lovm::assembler::compiler::objects::ty::Type;
use lovm::assembler::compiler::parser::{parse, Ast, Operand};
use lovm::assembler::compiler::unit::Unit;
use lovm::assembler::parser::keyword::Keyword;
use lovm::assembler::program::{Code, Value};
use lovm::assembler::target::{Instruction, Register};

const RED: &str = "\u{1b}[31mErr\u{1b}[0m";

fn is_err_line(line: &str, rest: &str) -> bool {
    line == format!("Err {}", rest) || line == format!("{} {}", RED, rest)
}

fn ident(raw: &str, loc: (usize, usize, usize)) -> Ident {
    Ident::new(loc, raw.to_string())
}

/// Compiles each statement and label of `src` into a fresh unit.
fn compile(src: &str) -> Unit {
    let mut unit = Unit::from(src.to_string());
    for step in parse(src).unwrap() {
        match step {
            Ast::Statement(st) => unit.compile_statement(st).unwrap(),
            Ast::Label(id) => {
                let off = unit.code.len();
                unit.declare_label(id, off).unwrap()
            },
            other => panic!("unexpected {:?}", other),
        }
    }
    unit
}

fn inx(i: Instruction) -> Code {
    Code::Instruction(i)
}

#[test]
fn unit_mov_register_constant() {
    let u = compile("mov A, #5");
    assert_eq!(u.code, vec![
        inx(Instruction::Push),
        Code::Value(Value::I(5)),
        inx(Instruction::Pop),
        Code::Register(Register::A),
    ]);
    assert!(u.labels.entries.is_empty());
}

#[test]
fn unit_mov_through_dereferences() {
    let u = compile("mov *A, *B");
    assert_eq!(u.code, vec![
        inx(Instruction::Push),
        Code::Register(Register::B),
        inx(Instruction::Load),
        inx(Instruction::Push),
        Code::Register(Register::A),
        inx(Instruction::Store),
    ]);
}

#[test]
fn unit_typed_operator_casts_its_target() {
    let u = compile("add@i64 A, #1");
    assert_eq!(u.code, vec![
        inx(Instruction::Push),
        Code::Register(Register::A),
        inx(Instruction::Cast),
        Code::Value(Value::I(2)),
        inx(Instruction::Push),
        Code::Value(Value::I(1)),
        inx(Instruction::Add),
        inx(Instruction::Pop),
        Code::Register(Register::A),
    ]);
}

#[test]
fn unit_cmp_and_plain_instructions() {
    let u = compile("cmp A, #3\nret\npush B");
    assert_eq!(u.code, vec![
        inx(Instruction::Push),
        Code::Register(Register::A),
        inx(Instruction::Push),
        Code::Value(Value::I(3)),
        inx(Instruction::Cmp),
        inx(Instruction::Ret),
        inx(Instruction::Push),
        Code::Register(Register::B),
    ]);
}

#[test]
fn unit_records_label_uses_and_declarations() {
    let u = compile("jmp end\nend: ret\njmp end");
    assert_eq!(u.code, vec![
        inx(Instruction::Jmp),
        Code::Value(Value::Ref(usize::MAX)),
        inx(Instruction::Ret),
        inx(Instruction::Jmp),
        Code::Value(Value::Ref(usize::MAX)),
    ]);
    assert_eq!(u.labels.entries.len(), 1);
    let (key, label) = &u.labels.entries[0];
    assert_eq!(key.raw, "end");
    let decl = label.decl.as_ref().unwrap();
    assert_eq!(decl.1, 2);
    let uses: Vec<usize> = label.locations.iter().map(|(_, p)| *p).collect();
    assert_eq!(uses, vec![1, 4]);
}

#[test]
fn unit_redeclared_label_is_an_error() {
    let mut u = Unit::from(String::new());
    u.declare_label(ident("a", (0, 0, 1)), 0).unwrap();
    let err = u.declare_label(ident("a", (1, 0, 1)), 3).unwrap_err();
    assert_eq!(err.ty, Some(ErrorType::Redeclared));
    assert!(is_err_line(&err.content[0], "(0, 0, 0): redeclaration of label `a`"));
    assert_eq!(u.labels.entries[0].1.decl.as_ref().unwrap().1, 0);
}

#[test]
fn unit_dv_pushes_its_constant() {
    let mut u = Unit::from(String::new());
    u.compile_statement(Statement::from(Keyword::Dv, None).arg1(Operand::Value(Value::I64(300)))).unwrap();
    u.compile_statement(Statement::from(Keyword::Dv, Some(Type::I)).arg1(Operand::Value(Value::I64(300)))).unwrap();
    u.compile_statement(Statement::from(Keyword::Dv, Some(Type::T)).arg1(Operand::Value(Value::I(1)))).unwrap();
    u.compile_statement(Statement::from(Keyword::Dv, Some(Type::Ref)).arg1(Operand::Value(Value::T(true)))).unwrap();
    assert_eq!(u.code, vec![
        Code::Value(Value::I64(300)),
        Code::Value(Value::I(44)),
        Code::Value(Value::T(true)),
        Code::Value(Value::Ref(1)),
    ]);
}

#[test]
fn unit_dv_errors() {
    let mut u = Unit::from(String::new());
    let err = u.compile_statement(Statement::from(Keyword::Dv, None)).unwrap_err();
    assert_eq!(err.ty, Some(ErrorType::ExpectedGot));
    assert!(is_err_line(&err.content[0], "(0, 0, 0): expected `[\"label\", \"const\"]`, got nothing"));
    let err = u.compile_statement(Statement::from(Keyword::Dv, None).arg1(Operand::Register(Register::C))).unwrap_err();
    assert_eq!(err.ty, Some(ErrorType::NotAValue));
    assert!(is_err_line(&err.content[0], "(0, 0, 0): `Register(C)` cannot be interpreted as value"));
    let err = u
        .compile_statement(Statement::from(Keyword::Dv, None).arg1(Operand::Ident(ident("x", (2, 3, 4)))))
        .unwrap_err();
    assert!(is_err_line(
        &err.content[0],
        "(0, 0, 0): `Ident(Ident { loc: (2, 3, 4), raw: \"x\" })` cannot be interpreted as value"
    ));
    assert!(u.code.is_empty());
}

#[test]
fn unit_operand_debug_text() {
    assert_eq!(Operand::Value(Value::I(-7)).debug_string(), "Value(I(-7))");
    assert_eq!(Operand::Value(Value::I64(i64::MIN)).debug_string(), "Value(I64(-9223372036854775808))");
    assert_eq!(Operand::Deref(Box::new(Operand::Value(Value::T(false)))).debug_string(), "Deref(Value(T(false)))");
    assert_eq!(Operand::Value(Value::Ref(12)).debug_string(), "Value(Ref(12))");
}

#[test]
fn unit_from_path_and_push_inx() {
    let mut u = Unit::from_path("ret".to_string(), "a/b.asm".to_string());
    assert_eq!(u.path.as_deref(), Some("a/b.asm"));
    assert_eq!(u.src, "ret");
    u.push_inx(Instruction::Ret);
    u.compile_operand(Operand::Register(Register::D)).unwrap();
    assert_eq!(u.code, vec![inx(Instruction::Ret), Code::Register(Register::D)]);
}

#[test]
fn unit_link_resolves_declared_labels() {
    let mut u = compile("jmp end\nend: ret\njmp end");
    u.link().unwrap();
    assert_eq!(u.code, vec![
        inx(Instruction::Jmp),
        Code::Value(Value::Ref(2)),
        inx(Instruction::Ret),
        inx(Instruction::Jmp),
        Code::Value(Value::Ref(2)),
    ]);
}

#[test]
fn unit_link_reports_each_undeclared_use() {
    let mut u = compile("jmp a\ncall b\njmp a");
    let err = u.link().unwrap_err();
    assert_eq!(err.ty, None);
    assert_eq!(err.content.len(), 3);
    assert!(is_err_line(&err.content[0], "(0, 4, 5): label `a` was not declared"));
    assert!(is_err_line(&err.content[1], "(2, 4, 5): label `a` was not declared"));
    assert!(is_err_line(&err.content[2], "(1, 5, 6): label `b` was not declared"));
}

#[test]
fn unit_link_appends_included_units() {
    let mut lib = compile("helper: ret");
    lib.link().unwrap();
    let mut main = compile("call helper\nret");
    main.sub_units.push(lib);
    main.link().unwrap();
    assert_eq!(main.code, vec![
        inx(Instruction::Call),
        Code::Value(Value::Ref(3)),
        inx(Instruction::Ret),
        inx(Instruction::Ret),
    ]);
    let (_, label) = &main.labels.entries[0];
    assert_eq!(label.decl.as_ref().unwrap().1, 3);
    // the included unit's declaration moved behind the unit's own cells
    assert_eq!(main.sub_units[0].code, vec![inx(Instruction::Ret)]);
    assert_eq!(main.sub_units[0].labels.entries[0].1.decl.as_ref().unwrap().1, 3);
}

#[test]
fn unit_link_with_included_units_reports_undeclared_uses() {
    let mut lib = compile("helper: ret");
    lib.link().unwrap();
    let mut main = compile("call helper\njmp missing");
    main.sub_units.push(lib);
    let err = main.link().unwrap_err();
    assert_eq!(err.content.len(), 1);
    assert!(is_err_line(&err.content[0], "(1, 4, 11): label `missing` was not declared"));
    // every cell is in, the included unit's behind the unit's own
    assert_eq!(main.code.len(), 5);
    assert_eq!(main.code[4], inx(Instruction::Ret));
    assert_eq!(main.code[1], Code::Value(Value::Ref(4)));
}
