use lovm::data::code::{Code, CodeObject};
use lovm::data::unit::{CodeObjectRef, Unit};
use lovm::vm::frame::VmFrame;
use lovm::vm::globals::{get_global, set_global};
use lovm::vm::machine::{Action, Reply, Trap, Vm, VmData};
use lovm::vm::register::Comparison;
use lovm::vm::VmState;
use std::rc::Rc;
use lovm::vm::object::pool::ObjectPool;
use lovm::gen::block::{Block, BlockDef};
use lovm::gen::op::{call, OpValue, Operand, Operation, OperationType};

type Handler = fn(&mut VmData<i64>) -> Result<(), String>;

fn object(consts: Vec<i64>, locals: Vec<&str>, globals: Vec<&str>, code: Vec<Code>) -> CodeObject<i64> {
    let mut co = CodeObject::new();
    co.space.consts = consts;
    co.space.locals = locals.into_iter().map(|s| s.to_string()).collect();
    co.space.globals = globals.into_iter().map(|s| s.to_string()).collect();
    co.code = code;
    co
}

fn unit(objects: Vec<(&str, CodeObject<i64>)>) -> Unit<i64> {
    let mut u = Unit::new();
    for (name, co) in objects {
        u.code.push((name.to_string(), CodeObjectRef(Rc::new(co))));
    }
    u
}

fn apply(inx: Code, a: i64, b: Option<i64>) -> i64 {
    match (inx, b) {
        (Code::Add, Some(b)) => a + b,
        (Code::Sub, Some(b)) => a - b,
        (Code::Mul, Some(b)) => a * b,
        (Code::Neg, None) => -a,
        (Code::Cast(_), None) => a,
        other => panic!("no rule for {:?}", other),
    }
}

/// Runs the machine, doing the value work on integers, until it ends or asks
/// for something this driver does not do.
fn drive(vm: &mut Vm<i64, Handler>, mut act: Action<i64>) -> Action<i64> {
    loop {
        act = match act {
            Action::Continue => vm.step(),
            Action::Apply(inx, a, b) => vm.resume(Reply::Value(apply(inx, a, b))),
            Action::Compare(a, b) => {
                let o = if a < b {
                    Comparison::Less
                } else if a == b {
                    Comparison::Equal
                } else {
                    Comparison::Greater
                };
                vm.resume(Reply::Order(Some(o)))
            },
            Action::Boolean(t) => vm.resume(Reply::Value(if t { 1 } else { 0 })),
            Action::Truth(v) => vm.resume(Reply::Truth(v != 0)),
            Action::Interrupt(i) => {
                let h = *vm.interrupts.get(i).unwrap();
                let r = h(&mut vm.data);
                vm.resume(Reply::Done(r))
            },
            other => return other,
        }
    }
}

fn run(u: &Unit<i64>) -> (Vm<i64, Handler>, Action<i64>) {
    let mut vm: Vm<i64, Handler> = Vm::new(0);
    let start = vm.run(u);
    let end = drive(&mut vm, start);
    (vm, end)
}

#[test]
fn machine_adds_and_stores_a_global() {
    let u = unit(vec![(
        "main",
        object(vec![2, 3], vec![], vec!["x"], vec![
            Code::CPush(0),
            Code::CPush(1),
            Code::Add,
            Code::GPop(0),
            Code::GPush(0),
            Code::Ret,
        ]),
    )]);
    let (vm, end) = run(&u);
    assert!(matches!(end, Action::Exit(Ok(()))));
    assert_eq!(vm.data.vstack, vec![5]);
    assert_eq!(get_global(&vm.data.globals, "x"), Some(&5));
    assert_eq!(vm.data.state, VmState::Exited);
    assert!(vm.data.stack.is_empty());
}

#[test]
fn machine_reports_an_undeclared_global() {
    let u = unit(vec![("main", object(vec![], vec![], vec!["y"], vec![Code::GPush(0)]))]);
    let (vm, end) = run(&u);
    match end {
        Action::Exit(Err(msg)) => assert_eq!(msg, "`y` was not declared"),
        other => panic!("unexpected {:?}", other),
    }
    assert_eq!(vm.data.state, VmState::Panic);
}

#[test]
fn machine_calls_a_function_of_the_unit() {
    let u = unit(vec![
        ("main", object(vec![1], vec![], vec!["f"], vec![Code::GCall(0), Code::CPush(0), Code::Ret])),
        ("f", object(vec![7], vec!["a", "b"], vec![], vec![Code::CPush(0), Code::Ret])),
    ]);
    let (vm, end) = run(&u);
    assert!(matches!(end, Action::Exit(Ok(()))));
    assert_eq!(vm.data.vstack, vec![7, 1]);
}

#[test]
fn machine_reports_an_unknown_function() {
    let u = unit(vec![("main", object(vec![], vec![], vec!["g"], vec![Code::GCall(0)]))]);
    let (_, end) = run(&u);
    match end {
        Action::Exit(Err(msg)) => assert_eq!(msg, "function `g` is unknown"),
        other => panic!("unexpected {:?}", other),
    }
}

#[test]
fn machine_counts_down_with_a_loop() {
    // i := 3; while i > 0 { i := i - 1 }; push i
    let u = unit(vec![(
        "main",
        object(vec![3, 1, 0], vec!["i"], vec![], vec![
            Code::CPush(0),
            Code::LPop(0),
            Code::LPush(0),
            Code::CPush(2),
            Code::CmpGt,
            Code::Jf(11),
            Code::LPush(0),
            Code::CPush(1),
            Code::Sub,
            Code::LPop(0),
            Code::Jmp(2),
            Code::LPush(0),
            Code::Ret,
        ]),
    )]);
    let (vm, end) = run(&u);
    assert!(matches!(end, Action::Exit(Ok(()))));
    assert_eq!(vm.data.vstack, vec![0]);
}

#[test]
fn machine_compares_in_stack_order() {
    // 2 < 5 pushed as op2 = 2, op1 = 5
    let u = unit(vec![(
        "main",
        object(vec![2, 5], vec![], vec![], vec![
            Code::CPush(0),
            Code::CPush(1),
            Code::CmpLt,
            Code::CPush(0),
            Code::CPush(1),
            Code::CmpGe,
            Code::CPush(0),
            Code::CPush(0),
            Code::CmpNe,
            Code::Ret,
        ]),
    )]);
    let (vm, _) = run(&u);
    assert_eq!(vm.data.vstack, vec![1, 0, 0]);
}

#[test]
fn machine_faults_on_an_empty_stack() {
    let u = unit(vec![("main", object(vec![], vec![], vec![], vec![Code::Dup]))]);
    let (vm, end) = run(&u);
    assert!(matches!(end, Action::Abort(Trap::NoValue)));
    assert_eq!(Trap::NoValue.message(), "no value");
    assert!(vm.calls.is_empty());
}

#[test]
fn machine_faults_when_the_last_frame_is_gone() {
    let u = unit(vec![("main", object(vec![], vec![], vec![], vec![Code::Popa, Code::Ret]))]);
    let (vm, end) = run(&u);
    assert!(matches!(end, Action::Abort(Trap::NoFrameToPop)));
    assert_eq!(vm.data.state, VmState::Exited);
}

#[test]
fn machine_faults_on_unimplemented_instructions() {
    let u = unit(vec![("main", object(vec![], vec![], vec![], vec![Code::Inc]))]);
    let (_, end) = run(&u);
    assert!(matches!(end, Action::Abort(Trap::NotImplemented)));
}

fn push_answer(data: &mut VmData<i64>) -> Result<(), String> {
    data.vstack.push(42);
    Ok(())
}

fn refuse(_: &mut VmData<i64>) -> Result<(), String> {
    Err("refused".to_string())
}

#[test]
fn machine_runs_installed_interrupts() {
    let u = unit(vec![("main", object(vec![], vec![], vec![], vec![Code::Int(20), Code::Int(21), Code::Ret]))]);
    let mut vm: Vm<i64, Handler> = Vm::new(0);
    vm.interrupts_mut().set(20, Some(push_answer as Handler));
    let start = vm.run(&u);
    let end = drive(&mut vm, start);
    assert!(matches!(end, Action::Exit(Ok(()))));
    assert_eq!(vm.data.vstack, vec![42]);
}

#[test]
fn machine_stops_on_a_failing_interrupt() {
    let u = unit(vec![("main", object(vec![], vec![], vec![], vec![Code::Int(3), Code::Ret]))]);
    let mut vm: Vm<i64, Handler> = Vm::new(0);
    vm.interrupts_mut().set(3, Some(refuse as Handler));
    let start = vm.run(&u);
    match drive(&mut vm, start) {
        Action::Exit(Err(msg)) => assert_eq!(msg, "refused"),
        other => panic!("unexpected {:?}", other),
    }
}

#[test]
fn machine_hands_out_object_work() {
    let u = unit(vec![(
        "main",
        object(vec![5, 8, 1], vec![], vec![], vec![
            Code::ONewDict,
            Code::CPush(1),
            Code::CPush(2),
            Code::OCall(0),
            Code::Ret,
        ]),
    )]);
    let mut vm: Vm<i64, Handler> = Vm::new(0);
    let start = vm.run(&u);
    let act = drive(&mut vm, start);
    assert!(matches!(act, Action::NewDict));
    let next = vm.resume(Reply::Value(99));
    let act = drive(&mut vm, next);
    match act {
        Action::Count(n) => assert_eq!(n, 1),
        other => panic!("unexpected {:?}", other),
    }
    let act = vm.resume(Reply::Index(1));
    match act {
        Action::ObjectCall(target, name, params) => {
            assert_eq!(target, 99);
            assert_eq!(name, 5);
            assert_eq!(params, vec![8]);
        },
        other => panic!("unexpected {:?}", other),
    }
    assert_eq!(vm.data.vstack, vec![99]);
    let next = vm.resume(Reply::Called(Ok(Some(3))));
    assert!(matches!(next, Action::Continue));
    assert_eq!(vm.data.vstack, vec![99, 3]);
    let end = drive(&mut vm, next);
    assert!(matches!(end, Action::Exit(Ok(()))));
}

#[test]
fn machine_object_call_without_result_keeps_the_stack() {
    let u = unit(vec![("main", object(vec![5, 0], vec![], vec![], vec![Code::ONewDict, Code::CPush(1), Code::OCall(0)]))]);
    let mut vm: Vm<i64, Handler> = Vm::new(0);
    let start = vm.run(&u);
    assert!(matches!(drive(&mut vm, start), Action::NewDict));
    let next = vm.resume(Reply::Value(7));
    assert!(matches!(drive(&mut vm, next), Action::Count(0)));
    assert!(matches!(vm.resume(Reply::Index(0)), Action::ObjectCall(7, 5, _)));
    assert!(matches!(vm.resume(Reply::Called(Ok(None))), Action::Continue));
    assert_eq!(vm.data.vstack, vec![7]);
}

#[test]
fn machine_object_call_error_ends_the_run() {
    let u = unit(vec![("main", object(vec![5, 0], vec![], vec![], vec![Code::ONewDict, Code::CPush(1), Code::OCall(0)]))]);
    let mut vm: Vm<i64, Handler> = Vm::new(0);
    let start = vm.run(&u);
    let next = match drive(&mut vm, start) {
        Action::NewDict => vm.resume(Reply::Value(7)),
        other => panic!("unexpected {:?}", other),
    };
    assert!(matches!(drive(&mut vm, next), Action::Count(0)));
    assert!(matches!(vm.resume(Reply::Index(0)), Action::ObjectCall(..)));
    match vm.resume(Reply::Called(Err("no method".to_string()))) {
        Action::Exit(Err(m)) => assert_eq!(m, "no method"),
        other => panic!("unexpected {:?}", other),
    }
}

#[test]
fn machine_object_call_needs_an_object() {
    let u = unit(vec![("main", object(vec![5, 0], vec![], vec![], vec![Code::CPush(1), Code::OCall(0)]))]);
    let mut vm: Vm<i64, Handler> = Vm::new(0);
    let start = vm.run(&u);
    assert!(matches!(drive(&mut vm, start), Action::Count(0)));
    assert!(matches!(vm.resume(Reply::Index(0)), Action::Abort(Trap::NoObjectRef)));
}

#[test]
fn machine_faults_on_too_many_arguments() {
    let u = unit(vec![("main", object(vec![0, 4], vec![], vec![], vec![Code::CPush(1), Code::OCall(0)]))]);
    let mut vm: Vm<i64, Handler> = Vm::new(0);
    let start = vm.run(&u);
    assert!(matches!(drive(&mut vm, start), Action::Count(4)));
    assert!(matches!(vm.resume(Reply::Index(4)), Action::Abort(Trap::TooManyArguments)));
}

#[test]
fn machine_reports_missing_attributes() {
    let u = unit(vec![("main", object(vec![3], vec![], vec![], vec![Code::CPush(0), Code::OGet(0)]))]);
    let mut vm: Vm<i64, Handler> = Vm::new(0);
    let start = vm.run(&u);
    match drive(&mut vm, start) {
        Action::Lookup(t, k) => {
            assert_eq!((t, k), (3, 3));
        },
        other => panic!("unexpected {:?}", other),
    }
    assert!(matches!(vm.resume(Reply::Found(None)), Action::Abort(Trap::UnknownAttribute)));
}

#[test]
fn fresh_frames_and_globals() {
    let f = VmFrame::new(3, &7i64);
    assert_eq!(f.locals, vec![7, 7, 7]);
    let mut g: Vec<(String, i64)> = Vec::new();
    set_global(&mut g, &"a".to_string(), 1);
    set_global(&mut g, &"b".to_string(), 2);
    set_global(&mut g, &"a".to_string(), 3);
    assert_eq!(g.len(), 2);
    assert_eq!(get_global(&g, "a"), Some(&3));
    assert_eq!(get_global(&g, "b"), Some(&2));
    assert_eq!(get_global(&g, "c"), None);
    let d: VmData<i64> = VmData::new();
    assert_eq!(d.state, VmState::Initial);
    assert_eq!(d.units.types[0].0, "object");
}

/// fib(x) = x when x <= 1, else fib(x - 1) + fib(x - 2)
fn fib_object() -> CodeObject<i64> {
    object(vec![-1, -2, 1], vec!["x"], vec!["fib"], vec![
        Code::LPop(0),
        Code::LPush(0),
        Code::CPush(2),
        Code::CmpGt,
        Code::Jt(7),
        Code::LPush(0),
        Code::Ret,
        Code::LPush(0),
        Code::CPush(0),
        Code::Add,
        Code::GCall(0),
        Code::LPush(0),
        Code::CPush(1),
        Code::Add,
        Code::GCall(0),
        Code::Add,
        Code::Ret,
    ])
}

/// `call("fib").op(8); debug()`, built by the generator.
fn fib_main() -> CodeObject<i64> {
    let mut c: Operation<i64> = call("fib");
    c.op(OpValue::Operand(Operand::Const(8)));
    let mut bd: BlockDef<i64> = BlockDef::new();
    bd.step(Block::Sequence(vec![c, Operation::new(OperationType::Debug)]));
    bd.build(true).expect("building func failed")
}

fn check_fib(data: &mut VmData<i64>) -> Result<(), String> {
    let result = data.vstack.pop().expect("no value");
    if result == 21 {
        Ok(())
    } else {
        Err(format!("fib(8) gave {}", result))
    }
}

#[test]
fn fib_function() {
    let u = unit(vec![("main", fib_main()), ("fib", fib_object())]);
    let mut vm: Vm<i64, Handler> = Vm::new(0);
    vm.interrupts_mut().set(10, Some(check_fib as Handler));
    let start = vm.run(&u);
    assert!(matches!(drive(&mut vm, start), Action::Exit(Ok(()))));
    assert!(vm.data.vstack.is_empty());
    assert!(vm.data.stack.is_empty());
}

#[test]
fn allocation() {
    // a typed object, disposed; an array; a dictionary, disposed
    let ty = unit(vec![("len", object(vec![], vec![], vec![], vec![Code::Ret]))]);
    let u = unit(vec![(
        "main",
        object(vec![], vec![], vec!["object"], vec![
            Code::ONew(0),
            Code::ODispose,
            Code::ONewArray,
            Code::ONewDict,
            Code::ODispose,
            Code::Ret,
        ]),
    )]);
    let mut vm: Vm<i64, Handler> = Vm::new(0);
    vm.data.units.load_ty(&ty, "object".to_string()).unwrap();
    let mut pool: ObjectPool<&str> = ObjectPool::new();
    let mut act = vm.run(&u);
    loop {
        act = match drive(&mut vm, act) {
            Action::NewObject(_) => vm.resume(Reply::Value(pool.new_handle("object") as i64)),
            Action::NewArray => vm.resume(Reply::Value(pool.new_handle("array") as i64)),
            Action::NewDict => vm.resume(Reply::Value(pool.new_handle("dict") as i64)),
            Action::Dispose(h) => {
                pool.dispose_handle(&(h as usize));
                vm.resume(Reply::Done(Ok(())))
            },
            other => {
                assert!(matches!(other, Action::Exit(Ok(()))));
                break;
            },
        };
    }
    assert_eq!(vm.data.vstack, vec![2]);
    assert_eq!(pool.get(&1), None);
    assert_eq!(pool.get(&2), Some(&"array"));
    assert_eq!(pool.get(&3), None);
}

#[test]
fn machine_with_default_interrupts_installs_dbg_and_put() {
    let vm: Vm<i64, Handler> = Vm::with_default_interrupts(0, push_answer as Handler, refuse as Handler);
    assert!(vm.interrupts.get(10).is_some());
    assert!(vm.interrupts.get(20).is_some());
    assert!(vm.interrupts.get(0).is_none());
    assert!(vm.interrupts.get(11).is_none());
    let fresh: Vm<i64, Handler> = Vm::new(0);
    assert!(fresh.interrupts.get(10).is_none());
}
