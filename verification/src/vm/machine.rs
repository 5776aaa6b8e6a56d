use vstd::prelude::*;

use crate::data::code::{Code, Protocol};
use crate::data::unit::{has_slot, is_first_slot, CodeObjectRef, Unit};
use crate::vm::frame::{all_cloned_from, VmFrame};
use crate::vm::globals::{get_global, globals_map, set_global, Globals};
use crate::vm::interrupt::{Interrupts, INTERRUPT_SLOTS};
use crate::vm::register::Comparison;
use crate::vm::unit::{is_first_unit_with, type_pos, UnitRef, Units};
use crate::vm::VmState;

verus! {

/// A fault of the running program that ends the run of the machine.
#[derive(Clone, Copy, Debug, PartialEq, Eq, Structural)]
pub enum Trap {
    NoFrameToPop,
    NoValue,
    NoLastFrame,
    IndexOutOfBounds,
    NoneUnwrapped,
    NotImplemented,
    NoTarget,
    NoOperand,
    MissingOp1,
    MissingOp2,
    NoCondition,
    UnknownType,
    NoObject,
    NoArgc,
    TooManyArguments,
    NoObjectRef,
    UnknownAttribute,
}

/// The text that reports a fault.
pub open spec fn spec_trap_message(t: Trap) -> Seq<char> {
    match t {
        Trap::NoFrameToPop => "frame to pop"@,
        Trap::NoValue => "no value"@,
        Trap::NoLastFrame => "no last frame"@,
        Trap::IndexOutOfBounds => "index out of bounds"@,
        Trap::NoneUnwrapped => "called `Option::unwrap()` on a `None` value"@,
        Trap::NotImplemented => "not implemented"@,
        Trap::NoTarget => "no target"@,
        Trap::NoOperand => "no operand"@,
        Trap::MissingOp1 => "missing op1"@,
        Trap::MissingOp2 => "missing op2"@,
        Trap::NoCondition => "no condition"@,
        Trap::UnknownType => "unknown type"@,
        Trap::NoObject => "no object"@,
        Trap::NoArgc => "no argc"@,
        Trap::TooManyArguments => "attempt to subtract with overflow"@,
        Trap::NoObjectRef => "no object ref"@,
        Trap::UnknownAttribute => "unknown attribute"@,
    }
}

impl Trap {
    /// The text that reports the fault.
    pub fn message(self) -> (res: &'static str)
        ensures
            res@ == spec_trap_message(self),
    {
        match self {
            Trap::NoFrameToPop => "frame to pop",
            Trap::NoValue => "no value",
            Trap::NoLastFrame => "no last frame",
            Trap::IndexOutOfBounds => "index out of bounds",
            Trap::NoneUnwrapped => "called `Option::unwrap()` on a `None` value",
            Trap::NotImplemented => "not implemented",
            Trap::NoTarget => "no target",
            Trap::NoOperand => "no operand",
            Trap::MissingOp1 => "missing op1",
            Trap::MissingOp2 => "missing op2",
            Trap::NoCondition => "no condition",
            Trap::UnknownType => "unknown type",
            Trap::NoObject => "no object",
            Trap::NoArgc => "no argc",
            Trap::TooManyArguments => "attempt to subtract with overflow",
            Trap::NoObjectRef => "no object ref",
            Trap::UnknownAttribute => "unknown attribute",
        }
    }
}

/// What the machine asks of its driver after a step: either nothing (`Continue`),
/// the end of the run, or work on values that the driver does and answers with
/// a `Reply`.
#[derive(Debug)]
pub enum Action<V> {
    /// Step again.
    Continue,
    /// The run ended: `Ok` when the outermost code object returned, or the
    /// error the run failed with.
    Exit(Result<(), String>),
    /// The running program faulted.
    Abort(Trap),
    /// Run the handler of the interrupt slot; answer `Done`.
    Interrupt(usize),
    /// Apply the instruction (`Neg`, `Cast` or a binary operator) to the
    /// target and, for a binary operator, the operand; answer `Value`.
    Apply(Code, V, Option<V>),
    /// Compare the first value with the second; answer `Order`.
    Compare(V, V),
    /// Make the truth value; answer `Value`.
    Boolean(bool),
    /// Read the value as a truth value; answer `Truth`.
    Truth(V),
    /// Make an object of the type unit; answer `Value` with its reference.
    NewObject(UnitRef<V>),
    /// Make a dictionary; answer `Value` with its reference.
    NewDict,
    /// Make an array; answer `Value` with its reference.
    NewArray,
    /// Dispose of the object the value refers to; answer `Done`.
    Dispose(V),
    /// Read the value as an argument count; answer `Index`.
    Count(V),
    /// Call the method of the name (second) on the object the first value
    /// refers to, with the arguments; answer `Called` with what the method
    /// gives back.
    ObjectCall(V, V, Vec<V>),
    /// Append the value to the object the first value refers to; answer `Done`.
    Append(V, V),
    /// Look the key up in the object the first value refers to; answer `Found`.
    Lookup(V, V),
    /// Set the key of the object the first value refers to; answer `Done`.
    Store(V, V, V),
}

/// The driver's answer to an action.
#[derive(Debug)]
pub enum Reply<V> {
    Value(V),
    Order(Option<Comparison>),
    Truth(bool),
    Index(usize),
    Done(Result<(), String>),
    Found(Option<V>),
    Called(Result<Option<V>, String>),
}

/// What the machine waits for.
#[derive(Debug)]
pub enum Pending<V> {
    /// Nothing: it can step.
    Ready,
    /// A value to push before it moves on.
    Value,
    /// The order of the operands of the comparison instruction.
    Order(Code),
    /// The truth of the condition of a branch that jumps to the target when the
    /// truth equals the flag.
    Truth(bool, usize),
    /// The argument count of a call of the method of the name.
    Count(V),
    /// The end of outside work, or the error it failed with.
    Done,
    /// The result of an attribute lookup.
    Found,
    /// What a method call gives back: a value to push, nothing, or the error
    /// it failed with.
    Call,
    /// No run is under way.
    Stopped,
}

/// The state a stack machine works on: global variables, loaded units, flow
/// status, call frames and the value stack.
#[derive(Debug)]
pub struct VmData<V> {
    pub globals: Globals<V>,
    pub units: Units<V>,
    pub state: VmState,
    pub stack: Vec<VmFrame<V>>,
    pub vstack: Vec<V>,
}

impl<V: PartialEq + Clone> VmData<V> {
    /// Fresh data: no globals, the initial units, no frames and no values.
    pub fn new() -> (res: Self)
        ensures
            res.globals@.len() == 0,
            res.units.units@.len() == 1,
            res.units.units@[0].0.code@.len() == 0,
            res.units.types@.len() == 1,
            res.units.types@[0].0@ == "object"@,
            res.units.types@[0].1 == res.units.units@[0],
            res.state == VmState::Initial,
            res.stack@.len() == 0,
            res.vstack@.len() == 0,
    {
        VmData {
            globals: Vec::new(),
            units: Units::new(),
            state: VmState::Initial,
            stack: Vec::new(),
            vstack: Vec::new(),
        }
    }
}

/// A stack machine: interrupt handlers, data, the value fresh locals start
/// with, the code objects under way with their instruction pointers (the
/// running one last), and what it waits for.
#[derive(Debug)]
pub struct Vm<V, H> {
    pub interrupts: Interrupts<H>,
    pub data: VmData<V>,
    pub zero: V,
    pub calls: Vec<(CodeObjectRef<V>, usize)>,
    pub pending: Pending<V>,
}

/// Whether a comparison instruction holds for operands in the order `c`.
pub open spec fn comparison_holds(inx: Code, c: Comparison) -> bool {
    match c {
        Comparison::Equal => inx is CmpEq || inx is CmpGe || inx is CmpLe,
        Comparison::Greater => inx is CmpNe || inx is CmpGe || inx is CmpGt,
        Comparison::Less => inx is CmpNe || inx is CmpLe || inx is CmpLt,
    }
}

/// The order of the number `a` against the number `b`.
pub open spec fn order_of(a: int, b: int) -> Comparison {
    if a < b {
        Comparison::Less
    } else if a == b {
        Comparison::Equal
    } else {
        Comparison::Greater
    }
}

/// The relation a comparison instruction tests between two numbers: `CmpEq`
/// equality, `CmpNe` difference, `CmpGe`, `CmpGt`, `CmpLe` and `CmpLt` the
/// orderings of those names; no other instruction tests any.
pub open spec fn relation_of(inx: Code, a: int, b: int) -> bool {
    match inx {
        Protocol::CmpEq => a == b,
        Protocol::CmpNe => a != b,
        Protocol::CmpGe => a >= b,
        Protocol::CmpGt => a > b,
        Protocol::CmpLe => a <= b,
        Protocol::CmpLt => a < b,
        _ => false,
    }
}

/// A comparison instruction holds for operands in the order of two numbers
/// exactly when the relation it names holds between them: equal operands
/// satisfy `CmpEq`, `CmpGe` and `CmpLe`, and no strict comparison.
pub proof fn lemma_comparison_holds_as_numbers(inx: Code, a: int, b: int)
    ensures
        comparison_holds(inx, order_of(a, b)) == relation_of(inx, a, b),
{
}

/// Whether `inx` is a binary operator on values.
pub open spec fn is_binary(inx: Code) -> bool {
    inx is Add || inx is Sub || inx is Mul || inx is Div || inx is Rem || inx is Pow || inx is And
        || inx is Or || inx is Xor || inx is Shl || inx is Shr
}

/// Whether `inx` is a comparison instruction.
pub open spec fn is_comparison(inx: Code) -> bool {
    inx is CmpEq || inx is CmpNe || inx is CmpGe || inx is CmpGt || inx is CmpLe || inx is CmpLt
}

/// `r` is the code object named `name` that a call finds: the first slot of
/// that name in the first loaded unit that has one.
pub open spec fn call_target<V>(units: Units<V>, name: Seq<char>, r: CodeObjectRef<V>) -> bool {
    exists|i: int, k: int|
        is_first_unit_with(units.units@, name, i) && is_first_slot(units.units@[i].0.code@, name, k)
            && r == units.units@[i].0.code@[k].1
}

/// No loaded unit has a code object named `name`.
pub open spec fn no_call_target<V>(units: Units<V>, name: Seq<char>) -> bool {
    forall|i: int| 0 <= i < units.units@.len() ==> !has_slot((#[trigger] units.units@[i]).0.code@, name)
}

/// `u` is the unit registered first as the type `name`.
pub open spec fn type_target<V>(units: Units<V>, name: Seq<char>, u: UnitRef<V>) -> bool {
    exists|i: int| type_pos(units.types@, name, i) && u == units.types@[i].1
        && forall|j: int| 0 <= j < i ==> (#[trigger] units.types@[j]).0@ != name
}

/// No unit is registered as the type `name`.
pub open spec fn no_type_target<V>(units: Units<V>, name: Seq<char>) -> bool {
    forall|i: int| 0 <= i < units.types@.len() ==> (#[trigger] units.types@[i]).0@ != name
}

/// The data besides the value stack is the same.
pub open spec fn keeps_store<V>(a: VmData<V>, b: VmData<V>) -> bool {
    &&& b.globals == a.globals
    &&& b.units == a.units
    &&& b.state == a.state
    &&& b.stack == a.stack
}

/// The data is the same.
pub open spec fn keeps_data<V>(a: VmData<V>, b: VmData<V>) -> bool {
    keeps_store(a, b) && b.vstack == a.vstack
}

/// `b` is `a` with one value more on top, a clone of `v`.
pub open spec fn pushed_clone<V: Clone>(a: Seq<V>, b: Seq<V>, v: V) -> bool {
    &&& b.len() == a.len() + 1
    &&& b.drop_last() == a
    &&& cloned(v, b.last())
}

impl<V: PartialEq + Clone, H: Copy> Vm<V, H> {
    /// The running code object and its instruction pointer.
    pub open spec fn cur(&self) -> (CodeObjectRef<V>, usize) {
        self.calls@.last()
    }

    /// The instructions of the running code object.
    pub open spec fn cur_code(&self) -> Seq<Code> {
        self.calls@.last().0.0.code@
    }

    /// The machine's own bookkeeping is consistent: the interrupt table has all
    /// its slots, code objects are under way exactly while a run is, each
    /// calling code object stands at its call instruction, and a machine that
    /// waits for a reply stands at the instruction that asked for it.
    pub open spec fn wf(&self) -> bool {
        &&& self.interrupts@.len() == INTERRUPT_SLOTS
        &&& (self.pending is Stopped <==> self.calls@.len() == 0)
        &&& forall|i: int| 0 <= i < self.calls@.len() - 1 ==> (#[trigger] self.calls@[i]).1 < self.calls@[i].0.0.code@.len()
        &&& (!(self.pending is Ready) && !(self.pending is Stopped)) ==> self.cur().1 < self.cur_code().len()
    }

    /// The machine can take a step.
    pub open spec fn ready(&self) -> bool {
        self.wf() && self.pending is Ready
    }
}

/// The interrupt table and the value of fresh locals are the same.
pub open spec fn keeps_setup<V, H>(a: Vm<V, H>, b: Vm<V, H>) -> bool {
    &&& b.interrupts == a.interrupts
    &&& b.zero == a.zero
}

/// The machine goes on at instruction `ip` of the running code object.
pub open spec fn goes_to<V: PartialEq + Clone, H: Copy>(a: Vm<V, H>, b: Vm<V, H>, act: Action<V>, ip: int) -> bool {
    &&& act is Continue
    &&& b.pending is Ready
    &&& b.calls@ == a.calls@.update(a.calls@.len() - 1, (a.cur().0, ip as usize))
}

/// The machine goes on at the next instruction.
pub open spec fn goes_on<V: PartialEq + Clone, H: Copy>(a: Vm<V, H>, b: Vm<V, H>, act: Action<V>) -> bool {
    goes_to(a, b, act, a.cur().1 + 1)
}

/// The run ended with `out`.
pub open spec fn stops<V, H>(b: Vm<V, H>, act: Action<V>, out: Action<V>) -> bool {
    &&& act == out
    &&& b.pending is Stopped
    &&& b.calls@.len() == 0
}

/// The machine asks `out` and waits for `p` at the same instruction.
pub open spec fn awaits<V, H>(a: Vm<V, H>, b: Vm<V, H>, act: Action<V>, out: Action<V>, p: Pending<V>) -> bool {
    &&& act == out
    &&& b.pending == p
    &&& b.calls@ == a.calls@
}


/// Leaving the running code object: its frame is dropped (a fault when there
/// is none; the machine has exited when it was the last), and the run ends
/// when no code object called it, or its caller goes on after the call.
pub open spec fn finish_spec<V: PartialEq + Clone, H: Copy>(a: Vm<V, H>, b: Vm<V, H>, act: Action<V>) -> bool {
    if a.data.stack@.len() == 0 {
        stops(b, act, Action::Abort(Trap::NoFrameToPop))
    } else {
        &&& b.data.stack@ == a.data.stack@.drop_last()
        &&& b.data.state == (if a.data.stack@.len() == 1 { VmState::Exited } else { a.data.state })
        &&& b.data.globals == a.data.globals
        &&& b.data.units == a.data.units
        &&& b.data.vstack == a.data.vstack
        &&& if a.calls@.len() == 1 {
            stops(b, act, Action::Exit(Ok(())))
        } else {
            let rest = a.calls@.drop_last();
            &&& act is Continue
            &&& b.pending is Ready
            &&& b.calls@ == rest.update(rest.len() - 1, (rest.last().0, (rest.last().1 + 1) as usize))
        }
    }
}

/// Executing `inx`, the instruction the running code object stands at.
pub open spec fn instr_spec<V: PartialEq + Clone, H: Copy>(a: Vm<V, H>, b: Vm<V, H>, act: Action<V>, inx: Code) -> bool {
    let co = a.cur().0;
    let vs = a.data.vstack@;
    let n = vs.len();
    let frames = a.data.stack@;
    match inx {
        Protocol::Ret => finish_spec(a, b, act),
        Protocol::Pusha => {
            &&& b.data.stack@.len() == frames.len() + 1
            &&& b.data.stack@.drop_last() == frames
            &&& b.data.stack@.last().locals@.len() == 0
            &&& b.data.globals == a.data.globals
            &&& b.data.units == a.data.units
            &&& b.data.state == a.data.state
            &&& b.data.vstack == a.data.vstack
            &&& goes_on(a, b, act)
        },
        Protocol::Popa => if frames.len() == 0 {
            stops(b, act, Action::Abort(Trap::NoFrameToPop))
        } else {
            &&& b.data.stack@ == frames.drop_last()
            &&& b.data.state == (if frames.len() == 1 { VmState::Exited } else { a.data.state })
            &&& b.data.globals == a.data.globals
            &&& b.data.units == a.data.units
            &&& b.data.vstack == a.data.vstack
            &&& goes_on(a, b, act)
        },
        Protocol::Dup => if n == 0 {
            stops(b, act, Action::Abort(Trap::NoValue))
        } else {
            keeps_store(a.data, b.data) && pushed_clone(vs, b.data.vstack@, vs.last()) && goes_on(a, b, act)
        },
        Protocol::Int(idx) => if idx >= INTERRUPT_SLOTS {
            stops(b, act, Action::Abort(Trap::IndexOutOfBounds))
        } else if a.interrupts@[idx as int] is None {
            keeps_data(a.data, b.data) && goes_on(a, b, act)
        } else {
            keeps_data(a.data, b.data) && awaits(a, b, act, Action::Interrupt(idx), Pending::Done)
        },
        Protocol::Cast(_) | Protocol::Neg => if n == 0 {
            stops(b, act, Action::Abort(if inx is Neg { Trap::NoTarget } else { Trap::NoValue }))
        } else {
            &&& keeps_store(a.data, b.data)
            &&& b.data.vstack@ == vs.drop_last()
            &&& awaits(a, b, act, Action::Apply(inx, vs.last(), None), Pending::Value)
        },
        Protocol::LPop(idx) => if n == 0 {
            stops(b, act, Action::Abort(Trap::NoValue))
        } else if frames.len() == 0 {
            stops(b, act, Action::Abort(Trap::NoLastFrame))
        } else if idx >= frames.last().locals@.len() {
            stops(b, act, Action::Abort(Trap::IndexOutOfBounds))
        } else {
            &&& b.data.vstack@ == vs.drop_last()
            &&& b.data.stack@.len() == frames.len()
            &&& b.data.stack@.drop_last() == frames.drop_last()
            &&& b.data.stack@.last().locals@ == frames.last().locals@.update(idx as int, vs.last())
            &&& b.data.globals == a.data.globals
            &&& b.data.units == a.data.units
            &&& b.data.state == a.data.state
            &&& goes_on(a, b, act)
        },
        Protocol::GPop(idx) => if n == 0 {
            stops(b, act, Action::Abort(Trap::NoValue))
        } else if idx >= co.0.space.globals@.len() {
            stops(b, act, Action::Abort(Trap::NoneUnwrapped))
        } else {
            &&& b.data.vstack@ == vs.drop_last()
            &&& globals_map(b.data.globals@) == globals_map(a.data.globals@).insert(co.0.space.globals@[idx as int]@, vs.last())
            &&& b.data.units == a.data.units
            &&& b.data.state == a.data.state
            &&& b.data.stack == a.data.stack
            &&& goes_on(a, b, act)
        },
        Protocol::CPush(idx) => if idx >= co.0.space.consts@.len() {
            stops(b, act, Action::Abort(Trap::IndexOutOfBounds))
        } else {
            keeps_store(a.data, b.data) && pushed_clone(vs, b.data.vstack@, co.0.space.consts@[idx as int]) && goes_on(a, b, act)
        },
        Protocol::LPush(idx) => if frames.len() == 0 {
            stops(b, act, Action::Abort(Trap::NoLastFrame))
        } else if idx >= frames.last().locals@.len() {
            stops(b, act, Action::Abort(Trap::IndexOutOfBounds))
        } else {
            keeps_store(a.data, b.data) && pushed_clone(vs, b.data.vstack@, frames.last().locals@[idx as int]) && goes_on(a, b, act)
        },
        Protocol::GPush(idx) => if idx >= co.0.space.globals@.len() {
            stops(b, act, Action::Abort(Trap::NoneUnwrapped))
        } else {
            let name = co.0.space.globals@[idx as int]@;
            if globals_map(a.data.globals@).dom().contains(name) {
                &&& keeps_store(a.data, b.data)
                &&& pushed_clone(vs, b.data.vstack@, globals_map(a.data.globals@)[name])
                &&& goes_on(a, b, act)
            } else {
                &&& act matches Action::Exit(Err(m)) && m@ == "`"@ + name + "` was not declared"@
                &&& b.pending is Stopped
                &&& b.calls@.len() == 0
                &&& b.data.state == VmState::Panic
                &&& b.data.globals == a.data.globals
                &&& b.data.units == a.data.units
                &&& b.data.stack == a.data.stack
                &&& b.data.vstack == a.data.vstack
            }
        },
        Protocol::LCall(_) | Protocol::Inc | Protocol::Dec => stops(b, act, Action::Abort(Trap::NotImplemented)),
        Protocol::GCall(idx) => if idx >= co.0.space.globals@.len() {
            stops(b, act, Action::Abort(Trap::IndexOutOfBounds))
        } else {
            let name = co.0.space.globals@[idx as int]@;
            if no_call_target(a.data.units, name) {
                &&& act matches Action::Exit(Err(m)) && m@ == "function `"@ + name + "` is unknown"@
                &&& b.pending is Stopped
                &&& b.calls@.len() == 0
                &&& keeps_data(a.data, b.data)
            } else {
                &&& act is Continue
                &&& b.pending is Ready
                &&& b.calls@.len() == a.calls@.len() + 1
                &&& b.calls@.drop_last() == a.calls@
                &&& call_target(a.data.units, name, b.calls@.last().0)
                &&& b.calls@.last().1 == 0
                &&& b.data.stack@.len() == frames.len() + 1
                &&& b.data.stack@.drop_last() == frames
                &&& b.data.stack@.last().locals@.len() == b.calls@.last().0.0.space.locals@.len()
                &&& all_cloned_from(b.data.stack@.last().locals@, a.zero)
                &&& b.data.globals == a.data.globals
                &&& b.data.units == a.data.units
                &&& b.data.state == a.data.state
                &&& b.data.vstack == a.data.vstack
            }
        },
        Protocol::Add | Protocol::Sub | Protocol::Mul | Protocol::Div | Protocol::Rem | Protocol::Pow
        | Protocol::And | Protocol::Or | Protocol::Xor | Protocol::Shl | Protocol::Shr => if n == 0 {
            stops(b, act, Action::Abort(Trap::NoOperand))
        } else if n == 1 {
            stops(b, act, Action::Abort(Trap::NoTarget))
        } else {
            &&& keeps_store(a.data, b.data)
            &&& b.data.vstack@ == vs.subrange(0, n - 2)
            &&& awaits(a, b, act, Action::Apply(inx, vs[n - 2], Some(vs[n - 1])), Pending::Value)
        },
        Protocol::CmpEq | Protocol::CmpNe | Protocol::CmpGe | Protocol::CmpGt | Protocol::CmpLe
        | Protocol::CmpLt => if n == 0 {
            stops(b, act, Action::Abort(Trap::MissingOp1))
        } else if n == 1 {
            stops(b, act, Action::Abort(Trap::MissingOp2))
        } else {
            &&& keeps_store(a.data, b.data)
            &&& b.data.vstack@ == vs.subrange(0, n - 2)
            &&& awaits(a, b, act, Action::Compare(vs[n - 2], vs[n - 1]), Pending::Order(inx))
        },
        Protocol::Jmp(t) => keeps_data(a.data, b.data) && goes_to(a, b, act, t as int),
        Protocol::Jt(t) | Protocol::Jf(t) => if n == 0 {
            stops(b, act, Action::Abort(Trap::NoCondition))
        } else {
            &&& keeps_store(a.data, b.data)
            &&& b.data.vstack@ == vs.drop_last()
            &&& awaits(a, b, act, Action::Truth(vs.last()), Pending::Truth(inx is Jt, t))
        },
        Protocol::ONew(idx) => if idx >= co.0.space.globals@.len() {
            stops(b, act, Action::Abort(Trap::IndexOutOfBounds))
        } else {
            let name = co.0.space.globals@[idx as int]@;
            if no_type_target(a.data.units, name) {
                stops(b, act, Action::Abort(Trap::UnknownType))
            } else {
                &&& keeps_data(a.data, b.data)
                &&& act matches Action::NewObject(u) && type_target(a.data.units, name, u)
                &&& b.pending is Value
                &&& b.calls@ == a.calls@
            }
        },
        Protocol::ONewDict => keeps_data(a.data, b.data) && awaits(a, b, act, Action::NewDict, Pending::Value),
        Protocol::ONewArray => keeps_data(a.data, b.data) && awaits(a, b, act, Action::NewArray, Pending::Value),
        Protocol::ODispose => if n == 0 {
            stops(b, act, Action::Abort(Trap::NoObject))
        } else {
            &&& keeps_store(a.data, b.data)
            &&& b.data.vstack@ == vs.drop_last()
            &&& awaits(a, b, act, Action::Dispose(vs.last()), Pending::Done)
        },
        Protocol::OCall(idx) => if idx >= co.0.space.consts@.len() {
            stops(b, act, Action::Abort(Trap::IndexOutOfBounds))
        } else if n == 0 {
            stops(b, act, Action::Abort(Trap::NoArgc))
        } else {
            &&& keeps_store(a.data, b.data)
            &&& b.data.vstack@ == vs.drop_last()
            &&& act == Action::Count(vs.last())
            &&& b.calls@ == a.calls@
            &&& b.pending matches Pending::Count(nm) && cloned(co.0.space.consts@[idx as int], nm)
        },
        Protocol::OAppend => if n == 0 {
            stops(b, act, Action::Abort(Trap::NoValue))
        } else if n == 1 {
            stops(b, act, Action::Abort(Trap::NoObjectRef))
        } else {
            &&& keeps_store(a.data, b.data)
            &&& b.data.vstack@ == vs.drop_last()
            &&& b.calls@ == a.calls@
            &&& b.pending is Done
            &&& act matches Action::Append(t, v) && cloned(vs[n - 2], t) && v == vs[n - 1]
        },
        Protocol::OGet(idx) => if idx >= co.0.space.consts@.len() {
            stops(b, act, Action::Abort(Trap::IndexOutOfBounds))
        } else if n == 0 {
            stops(b, act, Action::Abort(Trap::NoObjectRef))
        } else {
            &&& keeps_data(a.data, b.data)
            &&& b.calls@ == a.calls@
            &&& b.pending is Found
            &&& act matches Action::Lookup(t, k) && cloned(vs[n - 1], t) && cloned(co.0.space.consts@[idx as int], k)
        },
        Protocol::OSet(idx) => if n == 0 {
            stops(b, act, Action::Abort(Trap::NoValue))
        } else if n == 1 {
            stops(b, act, Action::Abort(Trap::NoObjectRef))
        } else if idx >= co.0.space.consts@.len() {
            stops(b, act, Action::Abort(Trap::IndexOutOfBounds))
        } else {
            &&& keeps_store(a.data, b.data)
            &&& b.data.vstack@ == vs.drop_last()
            &&& b.calls@ == a.calls@
            &&& b.pending is Done
            &&& act matches Action::Store(t, k, v) && cloned(vs[n - 2], t) && cloned(co.0.space.consts@[idx as int], k)
                && v == vs[n - 1]
        },
    }
}

/// One step of the machine: it leaves the running code object when the run is
/// no longer under way or the instruction pointer has passed its last
/// instruction, and otherwise executes the instruction it stands at.
pub open spec fn step_spec<V: PartialEq + Clone, H: Copy>(a: Vm<V, H>, b: Vm<V, H>, act: Action<V>) -> bool {
    let ip = a.cur().1;
    let code = a.cur_code();
    &&& keeps_setup(a, b)
    &&& if a.data.state != VmState::Running || ip >= code.len() {
        finish_spec(a, b, act)
    } else {
        instr_spec(a, b, act, code[ip as int])
    }
}

/// The reply `r` answers what the machine waits for.
pub open spec fn fits<V>(p: Pending<V>, r: Reply<V>) -> bool {
    match p {
        Pending::Value => r is Value,
        Pending::Order(_) => r is Order,
        Pending::Truth(..) => r is Truth,
        Pending::Count(_) => r is Index,
        Pending::Done => r is Done,
        Pending::Found => r is Found,
        Pending::Call => r is Called,
        _ => false,
    }
}

/// Taking the reply `r` to the action the machine waits on.
pub open spec fn resume_spec<V: PartialEq + Clone, H: Copy>(a: Vm<V, H>, b: Vm<V, H>, act: Action<V>, r: Reply<V>) -> bool {
    let vs = a.data.vstack@;
    &&& keeps_setup(a, b)
    &&& match (a.pending, r) {
        (Pending::Value, Reply::Value(v)) => keeps_store(a.data, b.data) && b.data.vstack@ == vs.push(v) && goes_on(a, b, act),
        (Pending::Order(inx), Reply::Order(o)) => match o {
            None => stops(b, act, Action::Abort(Trap::NoneUnwrapped)),
            Some(c) => keeps_data(a.data, b.data) && awaits(a, b, act, Action::Boolean(comparison_holds(inx, c)), Pending::Value),
        },
        (Pending::Truth(when, t), Reply::Truth(x)) => keeps_data(a.data, b.data) && if x == when {
            goes_to(a, b, act, t as int)
        } else {
            goes_on(a, b, act)
        },
        (Pending::Count(nm), Reply::Index(k)) => if k > vs.len() {
            stops(b, act, Action::Abort(Trap::TooManyArguments))
        } else if k == vs.len() {
            stops(b, act, Action::Abort(Trap::NoObjectRef))
        } else {
            &&& keeps_store(a.data, b.data)
            &&& b.data.vstack@ == vs.subrange(0, vs.len() - k)
            &&& b.calls@ == a.calls@
            &&& b.pending is Call
            &&& act matches Action::ObjectCall(t, x, ps) && cloned(vs[vs.len() - k - 1], t) && x == nm
                && ps@ == vs.subrange(vs.len() - k, vs.len() as int)
        },
        (Pending::Call, Reply::Called(res)) => match res {
            Ok(None) => keeps_data(a.data, b.data) && goes_on(a, b, act),
            Ok(Some(v)) => keeps_store(a.data, b.data) && b.data.vstack@ == vs.push(v) && goes_on(a, b, act),
            Err(m) => stops(b, act, Action::Exit(Err(m))),
        },
        (Pending::Done, Reply::Done(res)) => keeps_data(a.data, b.data) && match res {
            Ok(_) => goes_on(a, b, act),
            Err(m) => stops(b, act, Action::Exit(Err(m))),
        },
        (Pending::Found, Reply::Found(f)) => match f {
            None => stops(b, act, Action::Abort(Trap::UnknownAttribute)),
            Some(v) => keeps_store(a.data, b.data) && b.data.vstack@ == vs.push(v) && goes_on(a, b, act),
        },
        _ => false,
    }
}


impl<V: PartialEq + Clone, H: Copy> Vm<V, H> {
    /// A machine with fresh data and an empty interrupt table, where fresh
    /// locals start as copies of `zero`; no run is under way.
    pub fn new(zero: V) -> (res: Self)
        ensures
            res.wf(),
            res.pending is Stopped,
            res.zero == zero,
            forall|i: int| 0 <= i < INTERRUPT_SLOTS ==> (#[trigger] res.interrupts@[i]) is None,
            res.data.globals@.len() == 0,
            res.data.units.units@.len() == 1,
            res.data.units.types@.len() == 1,
            res.data.state == VmState::Initial,
            res.data.stack@.len() == 0,
            res.data.vstack@.len() == 0,
    {
        Vm { interrupts: Interrupts::new(), data: VmData::new(), zero, calls: Vec::new(), pending: Pending::Stopped }
    }

    /// A machine as `new` makes it, with the default interrupt table
    /// (`Interrupts::with_defaults`): `dbg` for `Dbg` and `put` for `Put`.
    pub fn with_default_interrupts(zero: V, dbg: H, put: H) -> (res: Self)
        ensures
            res.wf(),
            res.pending is Stopped,
            res.zero == zero,
            res.interrupts@[10] == Some(dbg),
            res.interrupts@[20] == Some(put),
            forall|i: int| 0 <= i < INTERRUPT_SLOTS && i != 10 && i != 20 ==> (#[trigger] res.interrupts@[i]) is None,
            res.data.globals@.len() == 0,
            res.data.units.units@.len() == 1,
            res.data.units.types@.len() == 1,
            res.data.state == VmState::Initial,
            res.data.stack@.len() == 0,
            res.data.vstack@.len() == 0,
    {
        let mut vm = Self::new(zero);
        vm.interrupts = Interrupts::with_defaults(dbg, put);
        vm
    }

    /// The interrupt table, to install or remove handlers.
    pub fn interrupts_mut(&mut self) -> (res: &mut Interrupts<H>)
        ensures
            *res == old(self).interrupts,
            final(self).interrupts == *final(res),
            final(self).data == old(self).data,
            final(self).zero == old(self).zero,
            final(self).calls == old(self).calls,
            final(self).pending == old(self).pending,
    {
        &mut self.interrupts
    }

    /// Ends the run with `out`.
    fn halt(&mut self, out: Action<V>) -> (act: Action<V>)
        requires
            old(self).interrupts@.len() == INTERRUPT_SLOTS,
        ensures
            stops(*final(self), act, out),
            final(self).wf(),
            keeps_setup(*old(self), *final(self)),
            final(self).data == old(self).data,
    {
        self.calls.clear();
        self.pending = Pending::Stopped;
        out
    }

    /// Goes on at instruction `ip` of the running code object.
    fn goto(&mut self, ip: usize) -> (act: Action<V>)
        requires
            old(self).wf(),
            old(self).calls@.len() > 0,
        ensures
            goes_to(*old(self), *final(self), act, ip as int),
            final(self).wf(),
            keeps_setup(*old(self), *final(self)),
            final(self).data == old(self).data,
    {
        let n = self.calls.len();
        let co = self.calls[n - 1].0.clone();
        self.calls.set(n - 1, (co, ip));
        self.pending = Pending::Ready;
        Action::Continue
    }

    /// Goes on at the next instruction.
    fn advance(&mut self) -> (act: Action<V>)
        requires
            old(self).wf(),
            old(self).calls@.len() > 0,
            old(self).cur().1 < old(self).cur_code().len(),
        ensures
            goes_on(*old(self), *final(self), act),
            final(self).wf(),
            keeps_setup(*old(self), *final(self)),
            final(self).data == old(self).data,
    {
        let n = self.calls.len();
        let ip = self.calls[n - 1].1;
        let len = self.calls[n - 1].0.0.code.len();
        assert(ip < len);
        self.goto(ip + 1)
    }

    /// Asks `out` and waits for `p`.
    fn wait(&mut self, out: Action<V>, p: Pending<V>) -> (act: Action<V>)
        requires
            old(self).wf(),
            old(self).calls@.len() > 0,
            old(self).cur().1 < old(self).cur_code().len(),
            !(p is Ready),
            !(p is Stopped),
        ensures
            awaits(*old(self), *final(self), act, out, p),
            final(self).wf(),
            keeps_setup(*old(self), *final(self)),
            final(self).data == old(self).data,
    {
        self.pending = p;
        out
    }

    /// Leaves the running code object.
    fn finish(&mut self) -> (act: Action<V>)
        requires
            old(self).ready(),
        ensures
            finish_spec(*old(self), *final(self), act),
            final(self).wf(),
            keeps_setup(*old(self), *final(self)),
    {
        match self.data.stack.pop() {
            None => self.halt(Action::Abort(Trap::NoFrameToPop)),
            Some(_) => {
                if self.data.stack.len() == 0 {
                    self.data.state = VmState::Exited;
                }
                self.calls.pop();
                let n = self.calls.len();
                if n == 0 {
                    self.pending = Pending::Stopped;
                    Action::Exit(Ok(()))
                } else {
                    let co = self.calls[n - 1].0.clone();
                    let ip = self.calls[n - 1].1;
                    let len = self.calls[n - 1].0.0.code.len();
                    assert(ip < len);
                    self.calls.set(n - 1, (co, ip + 1));
                    self.pending = Pending::Ready;
                    Action::Continue
                }
            },
        }
    }
}


impl<V: PartialEq + Clone, H: Copy> Vm<V, H> {
    /// `Pusha` and `Popa`: a frame without locals is pushed, or the last frame dropped.
    fn exec_frames(&mut self, inx: Code) -> (act: Action<V>)
        requires
            old(self).ready(),
            old(self).data.state == VmState::Running,
            old(self).cur().1 < old(self).cur_code().len(),
            old(self).cur_code()[old(self).cur().1 as int] == inx,
            inx is Pusha || inx is Popa,
        ensures
            instr_spec(*old(self), *final(self), act, inx),
            final(self).wf(),
            keeps_setup(*old(self), *final(self)),
    {
        if let Protocol::Pusha = inx {
            let f = VmFrame::new(0, &self.zero);
            self.data.stack.push(f);
            proof {
                assert(self.data.stack@.drop_last() =~= old(self).data.stack@);
            }
            self.advance()
        } else {
            match self.data.stack.pop() {
                None => self.halt(Action::Abort(Trap::NoFrameToPop)),
                Some(_) => {
                    if self.data.stack.len() == 0 {
                        self.data.state = VmState::Exited;
                    }
                    self.advance()
                },
            }
        }
    }

    /// `Dup`, `CPush`, `LPush` and `GPush`: a copy of the top value, of a
    /// constant, of a local or of a global is pushed.
    fn exec_push(&mut self, inx: Code, co: CodeObjectRef<V>) -> (act: Action<V>)
        requires
            old(self).ready(),
            old(self).data.state == VmState::Running,
            old(self).cur().1 < old(self).cur_code().len(),
            old(self).cur_code()[old(self).cur().1 as int] == inx,
            co == old(self).cur().0,
            inx is Dup || inx is CPush || inx is LPush || inx is GPush,
        ensures
            instr_spec(*old(self), *final(self), act, inx),
            final(self).wf(),
            keeps_setup(*old(self), *final(self)),
    {
        let v = match inx {
            Protocol::Dup => {
                let n = self.data.vstack.len();
                if n == 0 {
                    return self.halt(Action::Abort(Trap::NoValue));
                }
                self.data.vstack[n - 1].clone()
            },
            Protocol::CPush(idx) => {
                if idx >= co.0.space.consts.len() {
                    return self.halt(Action::Abort(Trap::IndexOutOfBounds));
                }
                co.0.space.consts[idx].clone()
            },
            Protocol::LPush(idx) => {
                let m = self.data.stack.len();
                if m == 0 {
                    return self.halt(Action::Abort(Trap::NoLastFrame));
                }
                if idx >= self.data.stack[m - 1].locals.len() {
                    return self.halt(Action::Abort(Trap::IndexOutOfBounds));
                }
                self.data.stack[m - 1].locals[idx].clone()
            },
            Protocol::GPush(idx) => {
                if idx >= co.0.space.globals.len() {
                    return self.halt(Action::Abort(Trap::NoneUnwrapped));
                }
                let name = &co.0.space.globals[idx];
                match get_global(&self.data.globals, name.as_str()) {
                    Some(g) => g.clone(),
                    None => {
                        let mut msg = String::from_str("`");
                        msg.append(name.as_str());
                        msg.append("` was not declared");
                        self.data.state = VmState::Panic;
                        return self.halt(Action::Exit(Err(msg)));
                    },
                }
            },
            _ => vstd::pervasive::unreached(),
        };
        self.data.vstack.push(v);
        proof {
            assert(self.data.vstack@.drop_last() =~= old(self).data.vstack@);
        }
        self.advance()
    }

    /// `LPop` and `GPop`: the top value is taken into a local or a global.
    fn exec_pop(&mut self, inx: Code, co: CodeObjectRef<V>) -> (act: Action<V>)
        requires
            old(self).ready(),
            old(self).data.state == VmState::Running,
            old(self).cur().1 < old(self).cur_code().len(),
            old(self).cur_code()[old(self).cur().1 as int] == inx,
            co == old(self).cur().0,
            inx is LPop || inx is GPop,
        ensures
            instr_spec(*old(self), *final(self), act, inx),
            final(self).wf(),
            keeps_setup(*old(self), *final(self)),
    {
        let v = match self.data.vstack.pop() {
            None => return self.halt(Action::Abort(Trap::NoValue)),
            Some(v) => v,
        };
        match inx {
            Protocol::LPop(idx) => {
                let m = self.data.stack.len();
                if m == 0 {
                    return self.halt(Action::Abort(Trap::NoLastFrame));
                }
                if idx >= self.data.stack[m - 1].locals.len() {
                    return self.halt(Action::Abort(Trap::IndexOutOfBounds));
                }
                let mut f = self.data.stack.pop().unwrap();
                f.locals.set(idx, v);
                self.data.stack.push(f);
                proof {
                    assert(self.data.stack@.drop_last() =~= old(self).data.stack@.drop_last());
                }
            },
            Protocol::GPop(idx) => {
                if idx >= co.0.space.globals.len() {
                    return self.halt(Action::Abort(Trap::NoneUnwrapped));
                }
                set_global(&mut self.data.globals, &co.0.space.globals[idx], v);
            },
            _ => vstd::pervasive::unreached(),
        }
        self.advance()
    }
}


impl<V: PartialEq + Clone, H: Copy> Vm<V, H> {
    /// Enters the code object `co`: a frame with one fresh local per name of
    /// its locals, and its first instruction.
    fn enter(&mut self, co: CodeObjectRef<V>)
        requires
            old(self).interrupts@.len() == INTERRUPT_SLOTS,
            forall|i: int| 0 <= i < old(self).calls@.len() ==> (#[trigger] old(self).calls@[i]).1 < old(self).calls@[i].0.0.code@.len(),
        ensures
            final(self).wf(),
            final(self).pending is Ready,
            keeps_setup(*old(self), *final(self)),
            final(self).calls@ == old(self).calls@.push((co, 0usize)),
            final(self).data.stack@.len() == old(self).data.stack@.len() + 1,
            final(self).data.stack@.drop_last() == old(self).data.stack@,
            final(self).data.stack@.last().locals@.len() == co.0.space.locals@.len(),
            all_cloned_from(final(self).data.stack@.last().locals@, old(self).zero),
            final(self).data.globals == old(self).data.globals,
            final(self).data.units == old(self).data.units,
            final(self).data.state == old(self).data.state,
            final(self).data.vstack == old(self).data.vstack,
    {
        let f = VmFrame::new(co.0.space.locals.len(), &self.zero);
        self.data.stack.push(f);
        self.calls.push((co, 0));
        self.pending = Pending::Ready;
        proof {
            assert(self.data.stack@.drop_last() =~= old(self).data.stack@);
        }
    }

    /// `GCall`: the code object of the global name is looked up in the loaded
    /// units and entered.
    fn exec_call(&mut self, inx: Code, co: CodeObjectRef<V>) -> (act: Action<V>)
        requires
            old(self).ready(),
            old(self).data.state == VmState::Running,
            old(self).cur().1 < old(self).cur_code().len(),
            old(self).cur_code()[old(self).cur().1 as int] == inx,
            co == old(self).cur().0,
            inx is GCall,
        ensures
            instr_spec(*old(self), *final(self), act, inx),
            final(self).wf(),
            keeps_setup(*old(self), *final(self)),
    {
        let idx = match inx {
            Protocol::GCall(idx) => idx,
            _ => vstd::pervasive::unreached(),
        };
        if idx >= co.0.space.globals.len() {
            return self.halt(Action::Abort(Trap::IndexOutOfBounds));
        }
        let name = &co.0.space.globals[idx];
        match self.data.units.lookup(name) {
            None => {
                let mut msg = String::from_str("function `");
                msg.append(name.as_str());
                msg.append("` is unknown");
                self.halt(Action::Exit(Err(msg)))
            },
            Some(target) => {
                proof {
                    let i = choose|i: int, k: int| is_first_unit_with(self.data.units.units@, name@, i) && is_first_slot(
                        self.data.units.units@[i].0.code@, name@, k) && target == self.data.units.units@[i].0.code@[k].1;
                    assert(call_target(self.data.units, name@, target));
                    assert(!no_call_target(self.data.units, name@));
                }
                self.enter(target);
                proof {
                    assert(self.calls@.drop_last() =~= old(self).calls@);
                }
                Action::Continue
            },
        }
    }

    /// `Cast`, `Neg`, the binary operators and the comparisons: the operands
    /// are taken off the stack and handed out to be worked on.
    fn exec_value(&mut self, inx: Code) -> (act: Action<V>)
        requires
            old(self).ready(),
            old(self).data.state == VmState::Running,
            old(self).cur().1 < old(self).cur_code().len(),
            old(self).cur_code()[old(self).cur().1 as int] == inx,
            inx is Cast || inx is Neg || is_binary(inx) || is_comparison(inx),
        ensures
            instr_spec(*old(self), *final(self), act, inx),
            final(self).wf(),
            keeps_setup(*old(self), *final(self)),
    {
        let n = self.data.vstack.len();
        match inx {
            Protocol::Cast(_) | Protocol::Neg => {
                if n == 0 {
                    return self.halt(Action::Abort(if let Protocol::Neg = inx { Trap::NoTarget } else { Trap::NoValue }));
                }
                let v = self.data.vstack.pop().unwrap();
                self.wait(Action::Apply(inx, v, None), Pending::Value)
            },
            Protocol::CmpEq | Protocol::CmpNe | Protocol::CmpGe | Protocol::CmpGt | Protocol::CmpLe | Protocol::CmpLt => {
                if n == 0 {
                    return self.halt(Action::Abort(Trap::MissingOp1));
                }
                if n == 1 {
                    return self.halt(Action::Abort(Trap::MissingOp2));
                }
                let op1 = self.data.vstack.pop().unwrap();
                let op2 = self.data.vstack.pop().unwrap();
                proof {
                    assert(self.data.vstack@ =~= old(self).data.vstack@.subrange(0, n - 2));
                }
                self.wait(Action::Compare(op2, op1), Pending::Order(inx))
            },
            _ => {
                if n == 0 {
                    return self.halt(Action::Abort(Trap::NoOperand));
                }
                if n == 1 {
                    return self.halt(Action::Abort(Trap::NoTarget));
                }
                let op = self.data.vstack.pop().unwrap();
                let target = self.data.vstack.pop().unwrap();
                proof {
                    assert(self.data.vstack@ =~= old(self).data.vstack@.subrange(0, n - 2));
                }
                self.wait(Action::Apply(inx, target, Some(op)), Pending::Value)
            },
        }
    }

    /// `Jmp`, `Jt`, `Jf` and `Int`: jumps, conditional jumps, and interrupts.
    fn exec_branch(&mut self, inx: Code) -> (act: Action<V>)
        requires
            old(self).ready(),
            old(self).data.state == VmState::Running,
            old(self).cur().1 < old(self).cur_code().len(),
            old(self).cur_code()[old(self).cur().1 as int] == inx,
            inx is Jmp || inx is Jt || inx is Jf || inx is Int,
        ensures
            instr_spec(*old(self), *final(self), act, inx),
            final(self).wf(),
            keeps_setup(*old(self), *final(self)),
    {
        match inx {
            Protocol::Jmp(t) => self.goto(t),
            Protocol::Jt(t) | Protocol::Jf(t) => {
                match self.data.vstack.pop() {
                    None => self.halt(Action::Abort(Trap::NoCondition)),
                    Some(c) => {
                        let when = if let Protocol::Jt(_) = inx { true } else { false };
                        self.wait(Action::Truth(c), Pending::Truth(when, t))
                    },
                }
            },
            Protocol::Int(idx) => {
                if idx >= INTERRUPT_SLOTS {
                    return self.halt(Action::Abort(Trap::IndexOutOfBounds));
                }
                match self.interrupts.get(idx) {
                    None => self.advance(),
                    Some(_) => self.wait(Action::Interrupt(idx), Pending::Done),
                }
            },
            _ => vstd::pervasive::unreached(),
        }
    }
}


impl<V: PartialEq + Clone, H: Copy> Vm<V, H> {
    /// `ONew`, `ONewDict` and `ONewArray`: an object is asked for.
    fn exec_new(&mut self, inx: Code, co: CodeObjectRef<V>) -> (act: Action<V>)
        requires
            old(self).ready(),
            old(self).data.state == VmState::Running,
            old(self).cur().1 < old(self).cur_code().len(),
            old(self).cur_code()[old(self).cur().1 as int] == inx,
            co == old(self).cur().0,
            inx is ONew || inx is ONewDict || inx is ONewArray,
        ensures
            instr_spec(*old(self), *final(self), act, inx),
            final(self).wf(),
            keeps_setup(*old(self), *final(self)),
    {
        match inx {
            Protocol::ONew(idx) => {
                if idx >= co.0.space.globals.len() {
                    return self.halt(Action::Abort(Trap::IndexOutOfBounds));
                }
                match self.data.units.lookup_ty(&co.0.space.globals[idx]) {
                    None => self.halt(Action::Abort(Trap::UnknownType)),
                    Some(u) => {
                        proof {
                            let name = co.0.space.globals@[idx as int]@;
                            let i = choose|i: int| type_pos(self.data.units.types@, name, i) && u == self.data.units.types@[i].1
                                && forall|j: int| 0 <= j < i ==> (#[trigger] self.data.units.types@[j]).0@ != name;
                            assert(type_target(self.data.units, name, u));
                            assert(!no_type_target(self.data.units, name));
                        }
                        self.wait(Action::NewObject(u), Pending::Value)
                    },
                }
            },
            Protocol::ONewDict => self.wait(Action::NewDict, Pending::Value),
            Protocol::ONewArray => self.wait(Action::NewArray, Pending::Value),
            _ => vstd::pervasive::unreached(),
        }
    }

    /// `ODispose` and `OCall`: the object reference or the argument count is
    /// taken off the stack and handed out.
    fn exec_release(&mut self, inx: Code, co: CodeObjectRef<V>) -> (act: Action<V>)
        requires
            old(self).ready(),
            old(self).data.state == VmState::Running,
            old(self).cur().1 < old(self).cur_code().len(),
            old(self).cur_code()[old(self).cur().1 as int] == inx,
            co == old(self).cur().0,
            inx is ODispose || inx is OCall,
        ensures
            instr_spec(*old(self), *final(self), act, inx),
            final(self).wf(),
            keeps_setup(*old(self), *final(self)),
    {
        match inx {
            Protocol::ODispose => match self.data.vstack.pop() {
                None => self.halt(Action::Abort(Trap::NoObject)),
                Some(v) => self.wait(Action::Dispose(v), Pending::Done),
            },
            Protocol::OCall(idx) => {
                if idx >= co.0.space.consts.len() {
                    return self.halt(Action::Abort(Trap::IndexOutOfBounds));
                }
                let name = co.0.space.consts[idx].clone();
                match self.data.vstack.pop() {
                    None => self.halt(Action::Abort(Trap::NoArgc)),
                    Some(argc) => self.wait(Action::Count(argc), Pending::Count(name)),
                }
            },
            _ => vstd::pervasive::unreached(),
        }
    }

    /// `OAppend`, `OGet` and `OSet`: the object on top of the stack is read,
    /// written or extended.
    fn exec_member(&mut self, inx: Code, co: CodeObjectRef<V>) -> (act: Action<V>)
        requires
            old(self).ready(),
            old(self).data.state == VmState::Running,
            old(self).cur().1 < old(self).cur_code().len(),
            old(self).cur_code()[old(self).cur().1 as int] == inx,
            co == old(self).cur().0,
            inx is OAppend || inx is OGet || inx is OSet,
        ensures
            instr_spec(*old(self), *final(self), act, inx),
            final(self).wf(),
            keeps_setup(*old(self), *final(self)),
    {
        let n = self.data.vstack.len();
        match inx {
            Protocol::OAppend => {
                if n == 0 {
                    return self.halt(Action::Abort(Trap::NoValue));
                }
                if n == 1 {
                    return self.halt(Action::Abort(Trap::NoObjectRef));
                }
                let v = self.data.vstack.pop().unwrap();
                let t = self.data.vstack[n - 2].clone();
                self.wait(Action::Append(t, v), Pending::Done)
            },
            Protocol::OGet(idx) => {
                if idx >= co.0.space.consts.len() {
                    return self.halt(Action::Abort(Trap::IndexOutOfBounds));
                }
                if n == 0 {
                    return self.halt(Action::Abort(Trap::NoObjectRef));
                }
                let t = self.data.vstack[n - 1].clone();
                let k = co.0.space.consts[idx].clone();
                self.wait(Action::Lookup(t, k), Pending::Found)
            },
            Protocol::OSet(idx) => {
                if n == 0 {
                    return self.halt(Action::Abort(Trap::NoValue));
                }
                if n == 1 {
                    return self.halt(Action::Abort(Trap::NoObjectRef));
                }
                if idx >= co.0.space.consts.len() {
                    return self.halt(Action::Abort(Trap::IndexOutOfBounds));
                }
                let v = self.data.vstack.pop().unwrap();
                let t = self.data.vstack[n - 2].clone();
                let k = co.0.space.consts[idx].clone();
                self.wait(Action::Store(t, k, v), Pending::Done)
            },
            _ => vstd::pervasive::unreached(),
        }
    }
}


impl<V: PartialEq + Clone, H: Copy> Vm<V, H> {
    /// Takes one step of the run: leaves the running code object when the run
    /// is no longer under way or its instructions are done, and otherwise
    /// executes the instruction the running code object stands at.
    pub fn step(&mut self) -> (act: Action<V>)
        requires
            old(self).ready(),
        ensures
            final(self).wf(),
            step_spec(*old(self), *final(self), act),
    {
        let n = self.calls.len();
        let co = self.calls[n - 1].0.clone();
        let ip = self.calls[n - 1].1;
        if self.data.state != VmState::Running || ip >= co.0.code.len() {
            return self.finish();
        }
        let inx = co.0.code[ip];
        match inx {
            Protocol::Ret => self.finish(),
            Protocol::Pusha | Protocol::Popa => self.exec_frames(inx),
            Protocol::Dup | Protocol::CPush(_) | Protocol::LPush(_) | Protocol::GPush(_) => self.exec_push(inx, co),
            Protocol::LPop(_) | Protocol::GPop(_) => self.exec_pop(inx, co),
            Protocol::GCall(_) => self.exec_call(inx, co),
            Protocol::LCall(_) | Protocol::Inc | Protocol::Dec => self.halt(Action::Abort(Trap::NotImplemented)),
            Protocol::Jmp(_) | Protocol::Jt(_) | Protocol::Jf(_) | Protocol::Int(_) => self.exec_branch(inx),
            Protocol::ONew(_) | Protocol::ONewDict | Protocol::ONewArray => self.exec_new(inx, co),
            Protocol::ODispose | Protocol::OCall(_) => self.exec_release(inx, co),
            Protocol::OAppend | Protocol::OGet(_) | Protocol::OSet(_) => self.exec_member(inx, co),
            _ => self.exec_value(inx),
        }
    }

    /// Takes the reply to the action the machine waits on.
    pub fn resume(&mut self, r: Reply<V>) -> (act: Action<V>)
        requires
            old(self).wf(),
            fits(old(self).pending, r),
        ensures
            final(self).wf(),
            resume_spec(*old(self), *final(self), act, r),
    {
        let mut p = Pending::Done;
        std::mem::swap(&mut p, &mut self.pending);
        match (p, r) {
            (Pending::Value, Reply::Value(v)) | (Pending::Found, Reply::Found(Some(v))) => {
                self.data.vstack.push(v);
                self.advance()
            },
            (Pending::Found, Reply::Found(None)) => self.halt(Action::Abort(Trap::UnknownAttribute)),
            (Pending::Order(inx), Reply::Order(o)) => match o {
                None => self.halt(Action::Abort(Trap::NoneUnwrapped)),
                Some(c) => {
                    let holds = match c {
                        Comparison::Equal => match inx {
                            Protocol::CmpEq | Protocol::CmpGe | Protocol::CmpLe => true,
                            _ => false,
                        },
                        Comparison::Greater => match inx {
                            Protocol::CmpNe | Protocol::CmpGe | Protocol::CmpGt => true,
                            _ => false,
                        },
                        Comparison::Less => match inx {
                            Protocol::CmpNe | Protocol::CmpLe | Protocol::CmpLt => true,
                            _ => false,
                        },
                    };
                    self.wait(Action::Boolean(holds), Pending::Value)
                },
            },
            (Pending::Truth(when, t), Reply::Truth(x)) => {
                if x == when {
                    self.goto(t)
                } else {
                    self.advance()
                }
            },
            (Pending::Count(name), Reply::Index(k)) => {
                let n = self.data.vstack.len();
                if k > n {
                    return self.halt(Action::Abort(Trap::TooManyArguments));
                }
                if k == n {
                    return self.halt(Action::Abort(Trap::NoObjectRef));
                }
                let params = self.data.vstack.split_off(n - k);
                let t = self.data.vstack[n - k - 1].clone();
                self.wait(Action::ObjectCall(t, name, params), Pending::Call)
            },
            (Pending::Call, Reply::Called(res)) => match res {
                Ok(Some(v)) => {
                    self.data.vstack.push(v);
                    self.advance()
                },
                Ok(None) => self.advance(),
                Err(m) => self.halt(Action::Exit(Err(m))),
            },
            (Pending::Done, Reply::Done(res)) => match res {
                Ok(_) => self.advance(),
                Err(m) => self.halt(Action::Exit(Err(m))),
            },
            _ => vstd::pervasive::unreached(),
        }
    }

    /// Starts a run of the code object `co`: its frame is pushed and it
    /// stands at its first instruction.
    pub fn run_object(&mut self, co: CodeObjectRef<V>) -> (act: Action<V>)
        requires
            old(self).wf(),
            old(self).pending is Stopped,
        ensures
            final(self).ready(),
            act is Continue,
            keeps_setup(*old(self), *final(self)),
            final(self).calls@ == seq![(co, 0usize)],
            final(self).data.stack@.len() == old(self).data.stack@.len() + 1,
            final(self).data.stack@.drop_last() == old(self).data.stack@,
            final(self).data.stack@.last().locals@.len() == co.0.space.locals@.len(),
            all_cloned_from(final(self).data.stack@.last().locals@, old(self).zero),
            final(self).data.globals == old(self).data.globals,
            final(self).data.units == old(self).data.units,
            final(self).data.state == old(self).data.state,
            final(self).data.vstack == old(self).data.vstack,
    {
        self.enter(co);
        proof {
            assert(self.calls@ =~= seq![(co, 0usize)]);
        }
        Action::Continue
    }

    /// Starts running the unit: a copy of it is loaded after the units loaded
    /// so far, the machine is set running and its `main` code object started.
    pub fn run(&mut self, unit: &Unit<V>) -> (act: Action<V>)
        requires
            old(self).wf(),
            old(self).pending is Stopped,
            has_slot(unit.code@, "main"@),
        ensures
            final(self).ready(),
            act is Continue,
            keeps_setup(*old(self), *final(self)),
            final(self).data.state == VmState::Running,
            final(self).data.units.types == old(self).data.units.types,
            final(self).data.units.units@.len() == old(self).data.units.units@.len() + 1,
            final(self).data.units.units@.drop_last() == old(self).data.units.units@,
            cloned(*unit, *final(self).data.units.units@.last().0),
            exists|i: int| is_first_slot(unit.code@, "main"@, i) && final(self).calls@ == seq![(unit.code@[i].1, 0usize)],
            final(self).data.stack@.len() == old(self).data.stack@.len() + 1,
            final(self).data.stack@.drop_last() == old(self).data.stack@,
            final(self).data.stack@.last().locals@.len() == final(self).calls@[0].0.0.space.locals@.len(),
            all_cloned_from(final(self).data.stack@.last().locals@, old(self).zero),
            final(self).data.globals == old(self).data.globals,
            final(self).data.vstack == old(self).data.vstack,
    {
        let co = unit.code();
        let _ = self.data.units.load(unit);
        self.data.state = VmState::Running;
        proof {
            assert(self.data.units.units@.drop_last() =~= old(self).data.units.units@);
        }
        self.run_object(co)
    }
}


/// The comparison instructions come in negated pairs: `CmpNe` holds exactly
/// when `CmpEq` does not, `CmpLe` when `CmpGt` does not, and `CmpGe` when
/// `CmpLt` does not.
pub proof fn lemma_comparison_negations(c: Comparison)
    ensures
        comparison_holds(Protocol::CmpNe, c) == !comparison_holds(Protocol::CmpEq, c),
        comparison_holds(Protocol::CmpLe, c) == !comparison_holds(Protocol::CmpGt, c),
        comparison_holds(Protocol::CmpGe, c) == !comparison_holds(Protocol::CmpLt, c),
{
}

/// Popping the top value into a global and then pushing a global of the same
/// name gives back a copy of that value, on top of the stack below it.
pub proof fn lemma_global_pop_push<V: PartialEq + Clone, H: Copy>(
    a: Vm<V, H>,
    b: Vm<V, H>,
    c: Vm<V, H>,
    act1: Action<V>,
    act2: Action<V>,
    i: usize,
    j: usize,
)
    requires
        a.ready(),
        a.data.state == VmState::Running,
        a.cur().1 < a.cur_code().len(),
        a.cur_code()[a.cur().1 as int] == Protocol::<usize>::GPop(i),
        a.data.vstack@.len() > 0,
        i < a.cur().0.0.space.globals@.len(),
        step_spec(a, b, act1),
        b.cur().1 < b.cur_code().len(),
        b.cur_code()[b.cur().1 as int] == Protocol::<usize>::GPush(j),
        j < b.cur().0.0.space.globals@.len(),
        b.cur().0.0.space.globals@[j as int]@ == a.cur().0.0.space.globals@[i as int]@,
        step_spec(b, c, act2),
    ensures
        c.data.vstack@.len() == a.data.vstack@.len(),
        c.data.vstack@.drop_last() == a.data.vstack@.drop_last(),
        cloned(a.data.vstack@.last(), c.data.vstack@.last()),
        act2 is Continue,
{
    let name = a.cur().0.0.space.globals@[i as int]@;
    assert(globals_map(b.data.globals@).dom().contains(name));
}

/// Popping the top value into a local and then pushing the same local gives
/// back a copy of that value, on top of the stack below it.
pub proof fn lemma_local_pop_push<V: PartialEq + Clone, H: Copy>(
    a: Vm<V, H>,
    b: Vm<V, H>,
    c: Vm<V, H>,
    act1: Action<V>,
    act2: Action<V>,
    i: usize,
)
    requires
        a.ready(),
        a.data.state == VmState::Running,
        a.cur().1 < a.cur_code().len(),
        a.cur_code()[a.cur().1 as int] == Protocol::<usize>::LPop(i),
        a.data.vstack@.len() > 0,
        a.data.stack@.len() > 0,
        i < a.data.stack@.last().locals@.len(),
        step_spec(a, b, act1),
        b.cur().1 < b.cur_code().len(),
        b.cur_code()[b.cur().1 as int] == Protocol::<usize>::LPush(i),
        step_spec(b, c, act2),
    ensures
        c.data.vstack@.len() == a.data.vstack@.len(),
        c.data.vstack@.drop_last() == a.data.vstack@.drop_last(),
        cloned(a.data.vstack@.last(), c.data.vstack@.last()),
        act2 is Continue,
{
}

/// Pushing a frame with `Pusha` and dropping it with `Popa` gives back the
/// frames, the state and the values as they were.
pub proof fn lemma_frame_push_pop<V: PartialEq + Clone, H: Copy>(
    a: Vm<V, H>,
    b: Vm<V, H>,
    c: Vm<V, H>,
    act1: Action<V>,
    act2: Action<V>,
)
    requires
        a.ready(),
        a.data.state == VmState::Running,
        a.data.stack@.len() > 0,
        a.cur().1 < a.cur_code().len(),
        a.cur_code()[a.cur().1 as int] == Protocol::<usize>::Pusha,
        step_spec(a, b, act1),
        b.cur().1 < b.cur_code().len(),
        b.cur_code()[b.cur().1 as int] == Protocol::<usize>::Popa,
        step_spec(b, c, act2),
    ensures
        c.data.stack@ == a.data.stack@,
        c.data.state == a.data.state,
        c.data.vstack == a.data.vstack,
        c.data.globals == a.data.globals,
        act2 is Continue,
{
}

} // verus!
