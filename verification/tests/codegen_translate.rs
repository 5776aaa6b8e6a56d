use lovm::data::code::{Code, CodeObject};
use lovm::gen::block::{translate_operation, Block, BlockDef, Branch, LinkTarget};
use lovm::gen::op::{OpValue, Operand, Operation, OperationType};
use lovm::gen::BranchLocation;

fn name(n: &str) -> OpValue<i64> {
    OpValue::Operand(Operand::Name(n.to_string()))
}

fn konst(v: i64) -> OpValue<i64> {
    OpValue::Operand(Operand::Const(v))
}

fn operation(ty: OperationType, ops: Vec<OpValue<i64>>) -> Operation<i64> {
    let mut op = Operation::new(ty);
    for o in ops {
        op.op(o);
    }
    op
}

fn translated(op: &Operation<i64>, locals: &[&str]) -> CodeObject<i64> {
    let mut co = CodeObject::new();
    co.space.locals = locals.iter().map(|s| s.to_string()).collect();
    translate_operation(&mut co, op).unwrap();
    co
}

#[test]
fn translate_operator_chains_its_arguments() {
    // a + 1 + b
    let op = operation(OperationType::Add, vec![name("a"), konst(1), name("b")]);
    let co = translated(&op, &["b"]);
    assert_eq!(co.code, vec![Code::GPush(0), Code::CPush(0), Code::Add, Code::LPush(0), Code::Add]);
    assert_eq!(co.space.globals, vec!["a".to_string()]);
    assert_eq!(co.space.consts, vec![1]);
}

#[test]
fn translate_operator_with_one_or_no_argument() {
    let co = translated(&operation(OperationType::Neg, vec![konst(5)]), &[]);
    assert_eq!(co.code, vec![Code::CPush(0), Code::Neg]);
    let co = translated(&operation(OperationType::CmpLt, vec![]), &[]);
    assert_eq!(co.code, vec![Code::CmpLt]);
}

#[test]
fn translate_assignment_of_a_nested_operation() {
    // x := y * 2
    let prod = operation(OperationType::Mul, vec![name("y"), konst(2)]);
    let op = operation(OperationType::Ass, vec![name("x"), OpValue::Operation(prod)]);
    let co = translated(&op, &["x"]);
    assert_eq!(co.code, vec![Code::GPush(0), Code::CPush(0), Code::Mul, Code::LPop(0)]);
}

#[test]
fn translate_call_return_push_and_pop() {
    let call = operation(OperationType::Call, vec![name("f"), konst(3), konst(3)]);
    let co = translated(&call, &[]);
    assert_eq!(co.code, vec![Code::CPush(0), Code::CPush(0), Code::GCall(0)]);
    assert_eq!(co.space.globals, vec!["f".to_string()]);

    let ret = operation(OperationType::Ret, vec![konst(7)]);
    assert_eq!(translated(&ret, &[]).code, vec![Code::CPush(0), Code::Ret]);

    let push = operation(OperationType::Push, vec![name("a"), name("b")]);
    assert_eq!(translated(&push, &["b", "a"]).code, vec![Code::LPush(1), Code::LPush(0)]);

    let pop = operation(OperationType::Pop, vec![name("a"), konst(4)]);
    assert_eq!(translated(&pop, &[]).code, vec![Code::GPop(0), Code::CPush(0)]);
}

#[test]
fn translate_jumps_are_left_unresolved() {
    let co = translated(&operation(OperationType::Jt, vec![konst(3)]), &[]);
    assert_eq!(co.code, vec![Code::Jt(usize::MAX)]);
    assert!(co.space.consts.is_empty());
}

#[test]
fn translate_objects() {
    let new = operation(OperationType::ONew, vec![name("Point"), konst(1)]);
    assert_eq!(translated(&new, &[]).code, vec![Code::ONew(0), Code::CPush(0)]);

    let arr = operation(OperationType::ONewArray, vec![konst(1), konst(2)]);
    assert_eq!(translated(&arr, &[]).code, vec![
        Code::ONewArray,
        Code::CPush(0),
        Code::OAppend,
        Code::CPush(1),
        Code::OAppend,
    ]);

    let dict = operation(OperationType::ONewDict, vec![konst(1)]);
    assert_eq!(translated(&dict, &[]).code, vec![Code::ONewDict, Code::CPush(0)]);

    let set = operation(OperationType::OSet, vec![konst(10), name("v"), konst(20), konst(30)]);
    let co = translated(&set, &[]);
    assert_eq!(co.code, vec![Code::GPush(0), Code::OSet(0), Code::CPush(1), Code::OSet(2)]);
    assert_eq!(co.space.consts, vec![10, 30, 20]);
}

#[test]
fn block_definition_builds_its_sequences() {
    let mut bd: BlockDef<i64> = BlockDef::new();
    bd.step(Block::Sequence(vec![operation(OperationType::Push, vec![konst(1)])]));
    bd.branch(BlockDef::new(), BlockDef::new(), None);
    bd.step(Block::Sequence(vec![
        operation(OperationType::Add, vec![name("a"), konst(2)]),
        operation(OperationType::Ret, vec![]),
    ]));
    let co = bd.build(true).unwrap();
    assert_eq!(co.argc, 0);
    assert_eq!(co.code, vec![Code::CPush(0), Code::GPush(0), Code::CPush(1), Code::Add, Code::Ret]);
}

#[test]
fn block_definition_merges_embedded_blocks() {
    let mut inner: BlockDef<i64> = BlockDef::new();
    inner.step(Block::Sequence(vec![operation(OperationType::Push, vec![konst(5), name("z")])]));
    let mut bd: BlockDef<i64> = BlockDef::new();
    bd.step(Block::Sequence(vec![operation(OperationType::Push, vec![konst(5)])]));
    bd.step(Block::Embedded(Box::new(inner)));
    let co = bd.build(false).unwrap();
    assert_eq!(co.code, vec![Code::CPush(0), Code::CPush(0), Code::GPush(0)]);
    assert_eq!(co.space.consts, vec![5]);
}

#[test]
fn block_definition_offsets_and_params() {
    let mut bd: BlockDef<i64> = BlockDef::new();
    bd.offsets.push((1, LinkTarget::Index(7)));
    bd.offsets.push((2, LinkTarget::Location(BranchLocation::Start)));
    bd.offsets.push((3, LinkTarget::Location(BranchLocation::End)));
    assert_eq!(bd.compute_offsets(9), vec![(1, 7), (2, 0), (3, 9)]);
    bd.with_params(vec!["a".to_string(), "b".to_string()]);
    assert_eq!(bd.argc, 2);
    bd.with_params_loose(vec![]);
    assert_eq!(bd.argc, 0);
    let br = Branch::new(BlockDef::<i64>::new(), BlockDef::new(), Some(BlockDef::new()));
    assert!(br.fblock.is_some());
}

#[test]
fn translate_add_interns_each_constant_once() {
    let op = operation(OperationType::Add, vec![konst(1), konst(2), konst(3)]);
    let co = translated(&op, &[]);
    assert_eq!(co.code, vec![Code::CPush(0), Code::CPush(1), Code::Add, Code::CPush(2), Code::Add]);
    assert_eq!(co.space.consts, vec![1, 2, 3]);
    let again = operation(OperationType::Add, vec![konst(2), konst(2), konst(1)]);
    let co = translated(&again, &[]);
    assert_eq!(co.code, vec![Code::CPush(0), Code::CPush(0), Code::Add, Code::CPush(1), Code::Add]);
    assert_eq!(co.space.consts, vec![2, 1]);
}

#[test]
fn translate_call_pushes_arguments_then_calls() {
    let op = operation(OperationType::Call, vec![name("fib"), konst(8)]);
    let co = translated(&op, &[]);
    assert_eq!(co.code, vec![Code::CPush(0), Code::GCall(0)]);
    assert_eq!(co.space.consts, vec![8]);
    assert_eq!(co.space.globals, vec!["fib".to_string()]);
    let twice = operation(OperationType::Add, vec![
        OpValue::Operation(operation(OperationType::Call, vec![name("fib"), name("x")])),
        OpValue::Operation(operation(OperationType::Call, vec![name("fib"), name("x")])),
    ]);
    let co = translated(&twice, &[]);
    assert_eq!(co.code, vec![Code::GPush(0), Code::GCall(1), Code::GPush(0), Code::GCall(1), Code::Add]);
    assert_eq!(co.space.globals, vec!["x".to_string(), "fib".to_string()]);
}

#[test]
fn translate_debug_raises_the_debug_interrupt() {
    let co = translated(&operation(OperationType::Debug, vec![]), &[]);
    assert_eq!(co.code, vec![Code::Int(10)]);
}
