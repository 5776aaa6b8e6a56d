use lovm::code::Instruction;
use lovm::data::code::{Code, CodeObject};
use lovm::data::space::Space;
use lovm::gen::block::{translate_operand, Access};
use lovm::gen::func::Frame;
use lovm::gen::op::Operand;
use lovm::gen::{contains_name, index_of, name_index_of};

fn names(v: &[&str]) -> Vec<String> {
    v.iter().map(|s| s.to_string()).collect()
}

#[test]
fn index_of_finds_the_first_equal_item() {
    let mut v = vec![3i64, 4, 4];
    assert_eq!(index_of(&mut v, &4), 1);
    assert_eq!(v, vec![3, 4, 4]);
}

#[test]
fn index_of_appends_a_missing_item() {
    let mut v = vec![3i64, 4];
    assert_eq!(index_of(&mut v, &5), 2);
    assert_eq!(v, vec![3, 4, 5]);
    let mut e: Vec<i64> = vec![];
    assert_eq!(index_of(&mut e, &0), 0);
    assert_eq!(e, vec![0]);
}

#[test]
fn index_of_twice_gives_the_same_slot() {
    let mut v = vec![1i64];
    let a = index_of(&mut v, &9);
    let b = index_of(&mut v, &9);
    assert_eq!(a, b);
    assert_eq!(v, vec![1, 9]);
}

#[test]
fn name_index_of_interns() {
    let mut v = names(&["a", "b"]);
    assert_eq!(name_index_of(&mut v, &"b".to_string()), 1);
    assert_eq!(name_index_of(&mut v, &"c".to_string()), 2);
    assert_eq!(v, names(&["a", "b", "c"]));
    // interning again gives the same slot and leaves the pool as it is
    assert_eq!(name_index_of(&mut v, &"c".to_string()), 2);
    assert_eq!(v, names(&["a", "b", "c"]));
}

#[test]
fn contains_name_checks_text() {
    let v = names(&["x", "yy"]);
    assert!(contains_name(&v, &"yy".to_string()));
    assert!(!contains_name(&v, &"y".to_string()));
    assert!(!contains_name(&vec![], &"x".to_string()));
}

fn space(consts: Vec<i64>, locals: &[&str], globals: &[&str]) -> Space<i64> {
    let mut s = Space::new();
    s.consts = consts;
    s.locals = names(locals);
    s.globals = names(globals);
    s
}

#[test]
fn space_merge_adds_what_is_missing() {
    let mut s = space(vec![1, 2], &["a"], &["g"]);
    let o = space(vec![2, 3], &["b", "a"], &["g", "h"]);
    s.merge(&o);
    assert_eq!(s.consts, vec![1, 2, 3]);
    assert_eq!(s.locals, names(&["a", "b"]));
    assert_eq!(s.globals, names(&["g", "h"]));
}

#[test]
fn space_merge_twice_adds_nothing_more() {
    let mut s = space(vec![], &["a"], &[]);
    let o = space(vec![7], &["b", "b", "c"], &["g"]);
    s.merge(&o);
    let locals = s.locals.clone();
    let globals = s.globals.clone();
    let consts = s.consts.clone();
    s.merge(&o);
    assert_eq!(s.locals, locals);
    assert_eq!(s.globals, globals);
    assert_eq!(s.consts, consts);
    assert_eq!(s.locals, names(&["a", "b", "c"]));
}

#[test]
fn space_new_is_empty() {
    let s: Space<i64> = Space::new();
    assert!(s.consts.is_empty() && s.locals.is_empty() && s.globals.is_empty());
}

fn code_object(consts: Vec<i64>, locals: &[&str], globals: &[&str], code: Vec<Code>) -> CodeObject<i64> {
    let mut co = CodeObject::new();
    co.space = space(consts, locals, globals);
    co.code = code;
    co
}

#[test]
fn code_object_merge_relinks_every_instruction() {
    let mut co = code_object(vec![5], &["x"], &[], vec![Code::CPush(0)]);
    let other = code_object(
        vec![7, 5],
        &["y"],
        &["x", "z"],
        vec![Code::CPush(0), Code::CPush(1), Code::LPush(0), Code::GPush(0), Code::GCall(1), Code::Jmp(2), Code::Add],
    );
    co.merge(&other);
    assert_eq!(
        co.code,
        vec![
            Code::CPush(0),
            Code::CPush(1),
            Code::CPush(0),
            Code::LPush(1),
            Code::LPush(0),
            Code::GCall(0),
            Code::Jmp(3),
            Code::Add,
        ]
    );
    assert_eq!(co.space.consts, vec![5, 7]);
    assert_eq!(co.space.locals, names(&["x", "y"]));
    assert_eq!(co.space.globals, names(&["z"]));
    assert_eq!(co.argc, 0);
}

#[test]
fn code_object_merge_scope_follows_instruction_order() {
    // a global read before a local of the same name is brought in stays global;
    // once the local is in scope, the global access becomes local
    let mut co = code_object(vec![], &[], &[], vec![]);
    let other = code_object(
        vec![],
        &["q"],
        &["q"],
        vec![Code::GPush(0), Code::LPop(0), Code::GPop(0), Code::GCall(0)],
    );
    co.merge(&other);
    assert_eq!(co.code, vec![Code::GPush(0), Code::LPop(0), Code::LPop(0), Code::LCall(0)]);
    assert_eq!(co.space.locals, names(&["q"]));
    assert_eq!(co.space.globals, names(&["q"]));
}

#[test]
fn code_object_merge_of_empty_code() {
    let mut co = code_object(vec![1], &["a"], &["b"], vec![Code::Ret]);
    let other = code_object(vec![2], &["c"], &["d"], vec![]);
    co.merge(&other);
    assert_eq!(co.code, vec![Code::Ret]);
    assert_eq!(co.space.consts, vec![1]);
    assert_eq!(co.space.locals, names(&["a"]));
}

#[test]
fn code_object_merge_shifts_conditional_jumps() {
    let mut co = code_object(vec![], &[], &[], vec![Code::Dup, Code::Dup]);
    let other = code_object(vec![], &[], &[], vec![Code::Jt(0), Code::Jf(1)]);
    co.merge(&other);
    assert_eq!(co.code, vec![Code::Dup, Code::Dup, Code::Jt(2), Code::Jf(3)]);
}

fn frame(consts: Vec<i64>, locals: &[&str], globals: &[&str], inner: Vec<Instruction>) -> Frame<i64> {
    let mut f = Frame::new();
    f.space = space(consts, locals, globals);
    f.inner = inner;
    f
}

#[test]
fn frame_merge_relinks_every_instruction() {
    let mut f = frame(vec![1], &["a"], &["g"], vec![Instruction::Ret]);
    let other = frame(
        vec![2, 1],
        &["b"],
        &["a", "g", "h"],
        vec![
            Instruction::CPush(0),
            Instruction::CPush(1),
            Instruction::LPush(0),
            Instruction::LPop(0),
            Instruction::GPush(0),
            Instruction::GPop(1),
            Instruction::GCall(2),
            Instruction::Add,
        ],
    );
    f.merge(&other);
    assert_eq!(
        f.inner,
        vec![
            Instruction::Ret,
            Instruction::CPush(1),
            Instruction::CPush(0),
            Instruction::LPush(1),
            Instruction::LPop(1),
            Instruction::LPush(0),
            Instruction::GPop(0),
            Instruction::GCall(1),
            Instruction::Add,
        ]
    );
    assert_eq!(f.space.consts, vec![1, 2]);
    assert_eq!(f.space.locals, names(&["a", "b"]));
    assert_eq!(f.space.globals, names(&["g", "h"]));
}

#[test]
fn frame_new_is_empty() {
    let f: Frame<i64> = Frame::new();
    assert_eq!(f.argc, 0);
    assert!(f.inner.is_empty());
    assert!(f.offsets.is_empty());
}

#[test]
fn translate_operand_local_names() {
    let mut co = code_object(vec![], &["a", "b", "a"], &[], vec![]);
    assert_eq!(translate_operand(&mut co, &Operand::Name("b".to_string()), Access::Read), Ok(()));
    assert_eq!(translate_operand(&mut co, &Operand::Name("a".to_string()), Access::Write), Ok(()));
    assert_eq!(co.code, vec![Code::LPush(1), Code::LPop(0)]);
    assert!(co.space.globals.is_empty());
}

#[test]
fn translate_operand_global_names_and_constants() {
    let mut co = code_object(vec![4], &[], &["h"], vec![]);
    translate_operand(&mut co, &Operand::Name("g".to_string()), Access::Read).unwrap();
    translate_operand(&mut co, &Operand::Name("h".to_string()), Access::Write).unwrap();
    translate_operand(&mut co, &Operand::Const(9), Access::Read).unwrap();
    translate_operand(&mut co, &Operand::Const(4), Access::Write).unwrap();
    assert_eq!(co.code, vec![Code::GPush(1), Code::GPop(0), Code::CPush(1), Code::CPush(0)]);
    assert_eq!(co.space.globals, names(&["h", "g"]));
    assert_eq!(co.space.consts, vec![4, 9]);
}

#[test]
fn operand_as_const() {
    let op: Operand<i64> = Operand::Const(3);
    assert_eq!(*op.as_const(), 3);
}

use lovm::gen::op::{call, OpValue, Operation, OperationType};

#[test]
fn operation_as_inx() {
    assert_eq!(Operation::<i64>::new(OperationType::CmpGe).as_inx(), Some(Instruction::CmpGe));
    assert_eq!(Operation::<i64>::new(OperationType::ODispose).as_inx(), Some(Instruction::ODispose));
    assert_eq!(Operation::<i64>::new(OperationType::Shr).as_inx(), Some(Instruction::Shr));
    assert_eq!(Operation::<i64>::new(OperationType::Call).as_inx(), None);
    assert_eq!(Operation::<i64>::new(OperationType::Jmp).as_inx(), None);
}

#[test]
fn operation_builder_target_and_rest() {
    let mut op: Operation<i64> = Operation::new(OperationType::Ass);
    op.var("x").op(OpValue::Operand(Operand::Const(4)));
    assert_eq!(op.ops().len(), 2);
    assert!(matches!(op.target(), Some(Operand::Name(n)) if n == "x"));
    assert_eq!(op.rest().len(), 1);
    assert!(matches!(op.rest()[0], OpValue::Operand(Operand::Const(4))));
    let empty: Operation<i64> = Operation::new(OperationType::Ret);
    assert!(empty.target().is_none());
    assert!(empty.rest().is_empty());
    let mut nested: Operation<i64> = Operation::new(OperationType::Push);
    nested.op(OpValue::Operation(Operation::new(OperationType::Add)));
    assert!(nested.target().is_none());
}

#[test]
fn operation_call() {
    let c: Operation<i64> = call("fib");
    assert_eq!(c.ty, OperationType::Call);
    assert!(matches!(c.target(), Some(Operand::Name(n)) if n == "fib"));
    assert!(c.rest().is_empty());
}

#[test]
fn operation_consts_and_idents_search_nested_operations_in_order() {
    // x = (1 + y) * 2
    let mut sum: Operation<i64> = Operation::new(OperationType::Add);
    sum.op(OpValue::Operand(Operand::Const(1))).var("y");
    let mut prod: Operation<i64> = Operation::new(OperationType::Mul);
    prod.op(OpValue::Operation(sum)).op(OpValue::Operand(Operand::Const(2)));
    let mut ass: Operation<i64> = Operation::new(OperationType::Ass);
    ass.var("x").op(OpValue::Operation(prod));
    let consts: Vec<i64> = ass.consts().into_iter().copied().collect();
    assert_eq!(consts, vec![1, 2]);
    let idents: Vec<&str> = ass.idents().into_iter().map(|s| s.as_str()).collect();
    assert_eq!(idents, vec!["x", "y"]);
    let empty: Operation<i64> = Operation::new(OperationType::Ret);
    assert!(empty.consts().is_empty());
    assert!(empty.idents().is_empty());
}
