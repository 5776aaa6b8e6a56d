use lovm::assembler::compiler::objects::statement::Statement;
use lovm::assembler::compiler::objects::ty::Type;
use lovm::assembler::parser::keyword::Keyword;
use lovm::assembler::target::{Instruction as AsmInstruction, Register};
use lovm::code::{CodeObject as FrameCode, Instruction, Module};
use lovm::data::code::{Code, CodeObject};
use lovm::data::unit::Unit;
use lovm::gen::func::Frame;
use lovm::gen::module::ModuleBuilder;
use lovm::gen::unit::UnitBuilder;
use lovm::vm::register::{Comparison, VmRegister};

fn co(code: Vec<Code>) -> CodeObject<i64> {
    let mut c = CodeObject::new();
    c.code = code;
    c
}

#[test]
fn unit_get_and_set() {
    let mut u: Unit<i64> = Unit::new();
    u.set(&"f".to_string(), co(vec![Code::Ret]));
    u.set(&"g".to_string(), co(vec![Code::Add]));
    assert_eq!(u.code.len(), 2);
    assert_eq!(u.get(&"g".to_string()).unwrap().0.code, vec![Code::Add]);
    assert!(u.get(&"h".to_string()).is_none());
}

#[test]
fn unit_set_keeps_an_existing_slot() {
    let mut u: Unit<i64> = Unit::new();
    u.set(&"f".to_string(), co(vec![Code::Ret]));
    u.set(&"f".to_string(), co(vec![Code::Dup]));
    assert_eq!(u.code.len(), 1);
    assert_eq!(u.get(&"f".to_string()).unwrap().0.code, vec![Code::Ret]);
}

#[test]
fn unit_with_code_has_main() {
    let u: Unit<i64> = Unit::with_code(vec![Code::Dup, Code::Ret]);
    assert_eq!(u.slots().len(), 1);
    assert_eq!(u.slots()[0].0, "main");
    assert_eq!(u.code().0.code, vec![Code::Dup, Code::Ret]);
    assert_eq!(u.code().0.argc, 0);
}

#[test]
fn unit_builder_set_replaces_and_build_copies() {
    let mut b: UnitBuilder<i64> = UnitBuilder::from_object(co(vec![Code::Ret]));
    b.set("f", co(vec![Code::Add])).decl("g", co(vec![Code::Sub]));
    b.set("main", co(vec![Code::Mul]));
    let u = b.build().unwrap();
    let names: Vec<&str> = u.code.iter().map(|(n, _)| n.as_str()).collect();
    assert_eq!(names, vec!["main", "f", "g"]);
    assert_eq!(u.code[0].1 .0.code, vec![Code::Mul]);
    assert_eq!(u.code[2].1 .0.code, vec![Code::Sub]);
    let empty: UnitBuilder<i64> = UnitBuilder::new();
    assert!(empty.build().unwrap().code.is_empty());
}

#[test]
fn unit_builder_decl_allows_duplicates() {
    let mut b: UnitBuilder<i64> = UnitBuilder::new();
    b.decl("f", co(vec![])).decl("f", co(vec![Code::Ret]));
    let u = b.build().unwrap();
    assert_eq!(u.code.len(), 2);
}

#[test]
fn module_get_with_code_and_builder() {
    let m: Module<i64> = Module::with_code(vec![Instruction::Ret]);
    assert_eq!(m.code().inner, vec![Instruction::Ret]);
    assert!(m.get(&"other".to_string()).is_none());
    let mut f: FrameCode<i64> = FrameCode::new();
    f.argc = 2;
    let mut b: ModuleBuilder<i64> = ModuleBuilder::new();
    b.decl("foo", f).decl("bar", FrameCode::new());
    let built = b.build().unwrap();
    assert_eq!(built.slots().len(), 2);
    assert_eq!(built.get(&"foo".to_string()).unwrap().argc, 2);
    let main = ModuleBuilder::from_object(FrameCode::<i64>::new()).build().unwrap();
    assert_eq!(main.inner[0].0, "main");
}

#[test]
fn frame_into_code_object() {
    let mut f: Frame<i64> = Frame::new();
    f.argc = 1;
    f.inner = vec![Instruction::Neg];
    let c: FrameCode<i64> = f.into();
    assert_eq!(c.argc, 1);
    assert_eq!(c.inner, vec![Instruction::Neg]);
}

#[test]
fn statement_builders_and_instruction() {
    let s: Statement<u8> = Statement::from(Keyword::Jge, None).arg1(3).ty(Some(Type::I)).arg2(4);
    assert_eq!(s.kw, Keyword::Jge);
    assert_eq!(s.ty, Some(Type::I));
    assert_eq!(s.arg1, Some(3));
    assert_eq!(s.arg2, Some(4));
    assert_eq!(s.inx(), AsmInstruction::Jge);
}

#[test]
fn register_jumps_follow_the_comparison() {
    let mut r: VmRegister<i64> = VmRegister::new(0);
    r.cmp = Some(Comparison::Less);
    assert!(r.is_jmp_needed(AsmInstruction::Jlt));
    assert!(r.is_jmp_needed(AsmInstruction::Jle));
    assert!(r.is_jmp_needed(AsmInstruction::Jne));
    assert!(!r.is_jmp_needed(AsmInstruction::Jeq));
    assert!(!r.is_jmp_needed(AsmInstruction::Jge));
    assert!(r.is_jmp_needed(AsmInstruction::Jmp));
    assert!(!r.is_jmp_needed(AsmInstruction::Push));
    r.cmp = Some(Comparison::Equal);
    assert!(r.is_jmp_needed(AsmInstruction::Jge));
    assert!(!r.is_jmp_needed(AsmInstruction::Jgt));
}

#[test]
fn register_write_then_read() {
    let mut r: VmRegister<i64> = VmRegister::new(0);
    *r.index_mut(Register::C) = 9;
    assert_eq!(*r.index(Register::C), 9);
    assert_eq!(*r.index(Register::A), 0);
    assert!(r.cmp.is_none() && r.ret.is_none());
}

use lovm::vm::unit::Units;

#[test]
fn units_lookup_first_unit_with_the_name() {
    let mut units: Units<i64> = Units::new();
    assert_eq!(units.units.len(), 1);
    assert_eq!(units.types[0].0, "object");
    let mut a: Unit<i64> = Unit::new();
    a.set(&"f".to_string(), co(vec![Code::Add]));
    let mut b: Unit<i64> = Unit::new();
    b.set(&"f".to_string(), co(vec![Code::Sub]));
    b.set(&"g".to_string(), co(vec![Code::Mul]));
    units.load(&a).unwrap();
    units.load(&b).unwrap();
    assert_eq!(units.lookup(&"f".to_string()).unwrap().0.code, vec![Code::Add]);
    assert_eq!(units.lookup(&"g".to_string()).unwrap().0.code, vec![Code::Mul]);
    assert!(units.lookup(&"h".to_string()).is_none());
}

#[test]
fn units_types_are_registered_by_name() {
    let mut units: Units<i64> = Units::new();
    assert!(units.lookup_ty(&"object".to_string()).is_some());
    assert!(units.lookup_ty(&"point".to_string()).is_none());
    let p: Unit<i64> = Unit::with_code(vec![Code::Ret]);
    units.load_ty(&p, "point".to_string()).unwrap();
    assert_eq!(units.units.len(), 2);
    let t = units.lookup_ty(&"point".to_string()).unwrap();
    assert_eq!(t.0.code.len(), 1);
    let q: Unit<i64> = Unit::new();
    units.load_ty(&q, "point".to_string()).unwrap();
    assert_eq!(units.types.len(), 2);
    assert_eq!(units.lookup_ty(&"point".to_string()).unwrap().0.code.len(), 0);
}
