use lovm::assembler::compiler::{try_compile, Compiler};
use lovm::assembler::error::ErrorType;
use lovm::assembler::program::{parse_i64, Code, Value};
use lovm::assembler::target::{Instruction, Register};

const RED: &str = "\u{1b}[31mErr\u{1b}[0m";

fn is_err_line(line: &str, rest: &str) -> bool {
    line == format!("Err {}", rest) || line == format!("{} {}", RED, rest)
}

fn inx(i: Instruction) -> Code {
    Code::Instruction(i)
}

fn labels(p: &lovm::assembler::program::Program) -> Vec<(&str, usize)> {
    p.labels.iter().map(|(n, o)| (n.as_str(), *o)).collect()
}

#[test]
fn compile_mov_register_constant() {
    let p = Compiler::new().compile("mov A, #5").unwrap();
    assert_eq!(
        p.code,
        vec![inx(Instruction::Push), Code::Value(Value::I(5)), inx(Instruction::Pop), Code::Register(Register::A)]
    );
    assert!(p.labels.is_empty());
}

#[test]
fn compile_forward_label_is_patched() {
    let p = Compiler::new().compile("jmp end\nadd A, B\nend: ret").unwrap();
    assert_eq!(
        p.code,
        vec![
            inx(Instruction::Jmp),
            Code::Value(Value::Ref(9)),
            inx(Instruction::Push),
            Code::Register(Register::A),
            inx(Instruction::Push),
            Code::Register(Register::B),
            inx(Instruction::Add),
            inx(Instruction::Pop),
            Code::Register(Register::A),
            inx(Instruction::Ret),
        ]
    );
    assert_eq!(labels(&p), vec![("end", 9)]);
}

#[test]
fn compile_backward_label() {
    let p = Compiler::new().compile("start: push A\njmp start").unwrap();
    assert_eq!(
        p.code,
        vec![inx(Instruction::Push), Code::Register(Register::A), inx(Instruction::Jmp), Code::Value(Value::Ref(0))]
    );
    assert_eq!(labels(&p), vec![("start", 0)]);
}

#[test]
fn compile_labels_in_order_of_first_use() {
    let p = Compiler::new().compile("jmp b\njmp a\na: ret\nb: ret").unwrap();
    assert_eq!(
        p.code,
        vec![
            inx(Instruction::Jmp),
            Code::Value(Value::Ref(5)),
            inx(Instruction::Jmp),
            Code::Value(Value::Ref(4)),
            inx(Instruction::Ret),
            inx(Instruction::Ret),
        ]
    );
    assert_eq!(labels(&p), vec![("b", 5), ("a", 4)]);
}

#[test]
fn compile_mov_through_addresses() {
    let p = Compiler::new().compile("mov *A, *B").unwrap();
    assert_eq!(
        p.code,
        vec![
            inx(Instruction::Push),
            Code::Register(Register::B),
            inx(Instruction::Load),
            inx(Instruction::Push),
            Code::Register(Register::A),
            inx(Instruction::Store),
        ]
    );
}

#[test]
fn compile_compare_and_constants() {
    let p = Compiler::new().compile("cmp A, #1\ndv #300\ndv #-5\ndv #true").unwrap();
    assert_eq!(
        p.code,
        vec![
            inx(Instruction::Cmp),
            Code::Register(Register::A),
            Code::Value(Value::I(1)),
            Code::Value(Value::I64(300)),
            Code::Value(Value::I(-5)),
            Code::Value(Value::T(true)),
        ]
    );
}

#[test]
fn compile_redeclared_label() {
    let e = Compiler::new().compile("a: ret\na: ret").unwrap_err();
    assert_eq!(e.ty, ErrorType::Redeclared);
    assert_eq!(e.loc, (0, 0, 0));
    assert_eq!(e.content.len(), 1);
    assert!(is_err_line(&e.content[0], "(0, 0, 0): redeclaration of label `a`"));
}

#[test]
fn compile_undeclared_label() {
    let e = Compiler::new().compile("jmp nowhere").unwrap_err();
    assert_eq!(e.ty, ErrorType::NotDeclared);
    assert!(is_err_line(&e.content[0], "(0, 0, 0): label `nowhere` was not declared"));
}

#[test]
fn compile_declared_value_must_be_a_constant() {
    let e = Compiler::new().compile("dv A").unwrap_err();
    assert_eq!(e.ty, ErrorType::NotAValue);
    assert!(e.content.is_empty());
}

#[test]
fn compile_parse_error_is_passed_on() {
    let e = Compiler::new().compile("#5").unwrap_err();
    assert_eq!(e.ty, ErrorType::Untyped);
    assert!(is_err_line(&e.content[0], "(0, 0, 0): line does not start with instruction"));
}

#[test]
fn try_compile_refuses_unreadable_constants() {
    assert!(try_compile("dv #x1").is_none());
    assert!(try_compile("push #99999999999999999999").is_none());
    assert!(try_compile("ret").is_some());
}

#[test]
fn compile_first_fault_wins() {
    // the redeclaration comes before the unreadable constant
    let r = try_compile("a: ret\na: ret\ndv #x").unwrap();
    assert_eq!(r.unwrap_err().ty, ErrorType::Redeclared);
}

#[test]
fn value_from_str_reads_constants() {
    assert_eq!(Value::try_from_str("127"), Some(Value::I(127)));
    assert_eq!(Value::try_from_str("128"), Some(Value::I64(128)));
    assert_eq!(Value::try_from_str("-128"), Some(Value::I(-128)));
    assert_eq!(Value::try_from_str("-129"), Some(Value::I64(-129)));
    assert_eq!(Value::try_from_str("+7"), Some(Value::I(7)));
    assert_eq!(Value::try_from_str("true"), Some(Value::T(true)));
    assert_eq!(Value::try_from_str("false"), Some(Value::T(false)));
    assert_eq!(Value::try_from_str("True"), None);
    assert_eq!(Value::from_str("0"), Value::I(0));
}

#[test]
fn parse_i64_edges() {
    assert_eq!(parse_i64("9223372036854775807"), Some(i64::MAX));
    assert_eq!(parse_i64("-9223372036854775808"), Some(i64::MIN));
    assert_eq!(parse_i64("9223372036854775808"), None);
    assert_eq!(parse_i64("-9223372036854775809"), None);
    assert_eq!(parse_i64("000123"), Some(123));
    assert_eq!(parse_i64(""), None);
    assert_eq!(parse_i64("-"), None);
    assert_eq!(parse_i64("+"), None);
    assert_eq!(parse_i64("1a"), None);
    assert_eq!(parse_i64(" 1"), None);
    assert_eq!(parse_i64("-0"), Some(0));
    for s in ["0", "42", "-17", "+3", "123456789012"] {
        assert_eq!(parse_i64(s), s.parse::<i64>().ok());
    }
}

#[test]
fn try_compile_takes_wide_characters_where_nothing_is_cut() {
    assert!(matches!(try_compile("mov A, B ; é"), Some(Ok(_))));
    assert!(try_compile("aé b").is_none());
}
