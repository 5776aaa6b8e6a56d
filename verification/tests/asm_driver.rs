use lovm::assembler::compiler::driver::{check_program, compile_source, into_program, Compiler};
use lovm::assembler::compiler::error::ErrorType;
use lovm::assembler::program::{Code, Value};
use lovm::assembler::target::{Instruction, Register};

const RED: &str = "\u{1b}[31mErr\u{1b}[0m";

fn is_err_line(line: &str, rest: &str) -> bool {
    line == format!("Err {}", rest) || line == format!("{} {}", RED, rest)
}

fn inx(i: Instruction) -> Code {
    Code::Instruction(i)
}

#[test]
fn driver_starts_without_unit() {
    let c = Compiler::new();
    assert!(c.unit.is_none());
}

#[test]
fn driver_compiles_and_links_a_program() {
    let mut c = Compiler::new();
    c.compile_path("main:\nmov A, #5\njmp main", "src/main.asm".to_string()).unwrap();
    {
        let u = c.unit.as_ref().unwrap();
        assert_eq!(u.path.as_deref(), Some("src/main.asm"));
        assert_eq!(u.src, "main:\nmov A, #5\njmp main");
        assert_eq!(u.code.len(), 6);
    }
    let u = c.finish().unwrap();
    assert!(c.unit.is_none());
    assert_eq!(u.code, vec![
        inx(Instruction::Push),
        Code::Value(Value::I(5)),
        inx(Instruction::Pop),
        Code::Register(Register::A),
        inx(Instruction::Jmp),
        Code::Value(Value::Ref(0)),
    ]);
}

#[test]
fn driver_export_marks_a_declared_label_public() {
    let mut c = Compiler::new();
    c.compile_path(".export main\nmain: ret", "m.asm".to_string()).unwrap();
    let u = c.finish().unwrap();
    assert_eq!(u.code, vec![inx(Instruction::Ret)]);
    assert_eq!(u.labels.entries.len(), 1);
    let (id, label) = &u.labels.entries[0];
    assert_eq!(id.raw, "main");
    assert!(label.public);
    assert_eq!(label.decl.as_ref().unwrap().1, 0);
}

#[test]
fn driver_export_after_declaration() {
    let mut c = Compiler::new();
    c.compile_path("start: ret\n.export start", "m.asm".to_string()).unwrap();
    let u = c.unit.as_ref().unwrap();
    assert_eq!(u.labels.entries.len(), 1);
    assert!(u.labels.entries[0].1.public);
    assert!(u.labels.entries[0].1.is_exported());
}

#[test]
fn driver_export_of_an_unknown_label_makes_a_public_one() {
    let mut c = Compiler::new();
    c.compile_path(".export later", "m.asm".to_string()).unwrap();
    let u = c.finish().unwrap();
    assert!(u.code.is_empty());
    let (id, label) = &u.labels.entries[0];
    assert_eq!(id.raw, "later");
    assert!(label.public);
    assert!(label.decl.is_none());
    assert!(label.locations.is_empty());
}

#[test]
fn driver_redeclaration_stops_compiling() {
    let mut c = Compiler::new();
    let e = c.compile_path("a: ret\na: ret\nret", "m.asm".to_string()).unwrap_err();
    assert_eq!(e.ty, Some(ErrorType::Redeclared));
    assert!(is_err_line(&e.content[0], "(0, 0, 0): redeclaration of label `a`"));
    // the cells of the elements before the failing one stay
    assert_eq!(c.unit.as_ref().unwrap().code, vec![inx(Instruction::Ret)]);
}

#[test]
fn driver_parse_error_leaves_the_unit_empty() {
    let mut c = Compiler::new();
    let e = c.compile_path("ret\nfoo bar", "m.asm".to_string()).unwrap_err();
    assert_eq!(e.content.len(), 1);
    let u = c.unit.as_ref().unwrap();
    assert!(u.code.is_empty());
    assert!(u.labels.entries.is_empty());
}

#[test]
fn driver_dv_of_a_register_is_not_a_value() {
    let mut c = Compiler::new();
    let e = c.compile_path("dv #1\ndv A", "m.asm".to_string()).unwrap_err();
    assert_eq!(e.ty, Some(ErrorType::NotAValue));
    assert!(is_err_line(&e.content[0], "(0, 0, 0): `Register(A)` cannot be interpreted as value"));
    assert_eq!(c.unit.as_ref().unwrap().code, vec![Code::Value(Value::I(1))]);
}

#[test]
fn driver_finish_reports_undeclared_labels() {
    let mut c = Compiler::new();
    c.compile_path("jmp nowhere", "m.asm".to_string()).unwrap();
    let e = c.finish().unwrap_err();
    assert_eq!(e.content.len(), 1);
    assert!(is_err_line(&e.content[0], "(0, 4, 11): label `nowhere` was not declared"));
    assert!(c.unit.is_none());
}

#[test]
fn driver_check_program_accepts_what_compiles() {
    assert!(check_program("main: mov A, #5\n.export main\nret"));
    // an error in parsing is reported, not a fault
    assert!(check_program("foo bar"));
    assert!(!check_program(".include a"));
    assert!(!check_program(".export #5"));
    assert!(!check_program("dv@f64 #1"));
    assert!(!check_program("push #x"));
    assert!(check_program("dv@t #1"));
    assert!(!check_program("dv@t #2"));
    assert!(!check_program("dv@t #200"));
}

#[test]
fn driver_compile_source_assembles_and_links() {
    let u = compile_source("jmp end\nend: ret", "p.asm".to_string()).unwrap().unwrap();
    assert_eq!(u.path.as_deref(), Some("p.asm"));
    assert_eq!(u.code, vec![inx(Instruction::Jmp), Code::Value(Value::Ref(2)), inx(Instruction::Ret)]);
    let program = into_program(u);
    assert_eq!(program.code, vec![inx(Instruction::Jmp), Code::Value(Value::Ref(2)), inx(Instruction::Ret)]);
    assert!(program.labels.is_empty());
}

#[test]
fn driver_compile_source_refuses_unsupported_macros() {
    assert!(compile_source(".include other", "p.asm".to_string()).is_none());
}

#[test]
fn driver_compile_source_reports_errors() {
    let e = compile_source("x: ret\nx: ret", "p.asm".to_string()).unwrap().unwrap_err();
    assert_eq!(e.ty, Some(ErrorType::Redeclared));
    let e = compile_source("call f", "p.asm".to_string()).unwrap().unwrap_err();
    assert!(is_err_line(&e.content[0], "(0, 5, 6): label `f` was not declared"));
}

#[test]
fn driver_compile_source_with_wide_characters() {
    // a comment with a wide character is cut off before lexing
    assert!(matches!(compile_source("ret ; é", "p.asm".to_string()), Some(Ok(_))));
    // a word cut inside a character is where assembling panics
    assert!(!check_program("aé b"));
    assert!(compile_source("aé b", "p.asm".to_string()).is_none());
}
