use lovm::data::code::{Code, CodeObject};
use lovm::data::unit::Unit;
use lovm::gen::block::{Block, BlockDef};
use lovm::gen::op::{OpValue, Operand, Operation, OperationType};
use lovm::gen::unit::UnitBuilder;
use lovm::vm::machine::{Action, Reply, Vm, VmData};
use lovm::vm::object::pool::ObjectPool;

#[derive(Clone, Debug, PartialEq)]
enum Val {
    I(i64),
    S(String),
    Ref(usize),
}

type Handler = fn(&mut VmData<Val>) -> Result<(), String>;

fn name(n: &str) -> OpValue<Val> {
    OpValue::Operand(Operand::Name(n.to_string()))
}

fn konst(v: Val) -> OpValue<Val> {
    OpValue::Operand(Operand::Const(v))
}

fn operation(ty: OperationType, ops: Vec<OpValue<Val>>) -> Operation<Val> {
    let mut op = Operation::new(ty);
    for o in ops {
        op.op(o);
    }
    op
}

fn s(t: &str) -> Val {
    Val::S(t.to_string())
}

/// f(x, y): z = 1; z += x; z += y
fn gen_foo() -> CodeObject<Val> {
    let mut bd: BlockDef<Val> = BlockDef::new();
    bd.with_params(vec!["x".to_string()]);
    bd.step(Block::Sequence(vec![
        operation(OperationType::Ass, vec![name("z"), konst(Val::I(1))]),
        operation(OperationType::Add, vec![name("z"), konst(s("x"))]),
        operation(OperationType::Add, vec![name("z"), konst(s("y"))]),
    ]));
    bd.build(true).expect("building func failed")
}

#[test]
fn simple_function() {
    let _func = gen_foo();
}

#[test]
fn simple_module() {
    let mut unit = UnitBuilder::new();
    unit.decl("foo", gen_foo());
    unit.decl("bar", gen_foo());
    let _unit = unit.build().expect("building unit failed");
}

/// `onewdict(); oset() "x" => 10, "y" => 10, 10 => 11`, then the operations
/// `then`, built by the generator.
fn dict_main(then: Vec<Operation<Val>>) -> CodeObject<Val> {
    let mut bd: BlockDef<Val> = BlockDef::new();
    bd.step(Block::Sequence(vec![
        operation(OperationType::ONewDict, vec![]),
        operation(OperationType::OSet, vec![
            konst(s("x")),
            konst(Val::I(10)),
            konst(s("y")),
            konst(Val::I(10)),
            konst(Val::I(10)),
            konst(Val::I(11)),
        ]),
    ]));
    if !then.is_empty() {
        bd.step(Block::Sequence(then));
    }
    bd.build(true).expect("building func failed")
}

type Dict = Vec<(Val, Val)>;

/// Runs `main` of the unit with `dbg` as the debug handler, doing the object
/// work on dictionaries: the pool maps each handle to its place in `dicts`.
/// Gives back the end of the run, the pool and the dictionaries.
fn run(main: CodeObject<Val>, dbg: Handler) -> (Action<Val>, ObjectPool<usize>, Vec<Dict>) {
    let mut module = UnitBuilder::new();
    module.decl("main", main);
    let module: Unit<Val> = module.build().expect("building module failed");
    let mut vm: Vm<Val, Handler> = Vm::with_default_interrupts(Val::I(0), dbg, dbg);
    let mut pool: ObjectPool<usize> = ObjectPool::new();
    let mut dicts: Vec<Dict> = Vec::new();
    let mut act = vm.run(&module);
    loop {
        act = match act {
            Action::Continue => vm.step(),
            Action::Interrupt(i) => {
                let h = *vm.interrupts.get(i).unwrap();
                let r = h(&mut vm.data);
                vm.resume(Reply::Done(r))
            },
            Action::NewDict => {
                dicts.push(Vec::new());
                vm.resume(Reply::Value(Val::Ref(pool.new_handle(dicts.len() - 1))))
            },
            Action::Count(Val::I(n)) => vm.resume(Reply::Index(n as usize)),
            Action::Store(Val::Ref(h), k, v) => {
                let d = &mut dicts[*pool.get(&h).expect("no object")];
                match d.iter().position(|(key, _)| *key == k) {
                    Some(i) => d[i].1 = v,
                    None => d.push((k, v)),
                }
                vm.resume(Reply::Done(Ok(())))
            },
            Action::ObjectCall(Val::Ref(h), m, _) => {
                let d = &dicts[*pool.get(&h).expect("no object")];
                let res = if m == s("len") { Ok(Some(Val::Ref(d.len()))) } else { Err("no method".to_string()) };
                vm.resume(Reply::Called(res))
            },
            other => return (other, pool, dicts),
        }
    }
}

fn dict_on_top(data: &mut VmData<Val>) -> Result<(), String> {
    if *data.vstack.last().unwrap() == Val::Ref(1) {
        Ok(())
    } else {
        Err("no dictionary on top".to_string())
    }
}

#[test]
fn new_dict() {
    let main = dict_main(vec![Operation::new(OperationType::Debug)]);
    let (end, pool, dicts) = run(main, dict_on_top);
    assert!(matches!(end, Action::Exit(Ok(()))));
    let dict = &dicts[*pool.get(&1).expect("no object")];
    let get = |k: Val| dict.iter().find(|(key, _)| *key == k).map(|(_, v)| v.clone());
    assert_eq!(get(s("x")).unwrap(), Val::I(10));
    assert_eq!(get(s("y")).unwrap(), Val::I(10));
    assert_eq!(get(Val::I(10)).unwrap(), Val::I(11));
}

fn len_on_top(data: &mut VmData<Val>) -> Result<(), String> {
    // expect len for 3 items
    if *data.vstack.last().unwrap() == Val::Ref(3) {
        Ok(())
    } else {
        Err(format!("unexpected top {:?}", data.vstack.last()))
    }
}

#[test]
fn object_call() {
    let mut main = dict_main(vec![]);
    // ocall("len") with no arguments: the argument count, then the call
    let argc = main.space.consts.len();
    main.space.consts.push(Val::I(0));
    main.space.consts.push(s("len"));
    main.code.push(Code::CPush(argc));
    main.code.push(Code::OCall(argc + 1));
    main.code.push(Code::Int(10));
    let (end, _, _) = run(main, len_on_top);
    assert!(matches!(end, Action::Exit(Ok(()))));
}
