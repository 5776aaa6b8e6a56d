use vstd::prelude::*;
use vstd::std_specs::cmp::PartialEqSpec;

use crate::data::code::{spec_code_name, Code, CodeObject, Protocol};
use crate::data::space::const_matches;
use crate::gen::op::{spec_op_inx, spec_op_type_name, OpValue, Operand, Operation, OperationType};
use crate::vm::interrupt::DEBUG_INTERRUPT;
use crate::data::code::spec_code_arg;
use crate::gen::code::{code_mergeable, is_jump, merged, mergeable, relinked};
use crate::gen::{index_of, is_first_match, name_index_of, name_interned, names, pool_interned, BranchLocation};

verus! {

/// Whether an operand is read from or written to.
#[derive(Clone, Copy, Debug, PartialEq, Eq, Structural)]
pub enum Access {
    Read,
    Write,
}

/// The result of a code generation step.
pub type BuildResult<T> = Result<T, ()>;


/// What translating an operation emits, in order: a fixed instruction; an
/// access to an operand; a call of the global function named; an object of
/// the global type named; or setting the constant key of an object.
pub enum Emission<V> {
    Fixed(Code),
    Access(Operand<V>, Access),
    Call(String),
    New(String),
    SetKey(V),
}

/// The instruction an operation of kind `ty` maps to directly, if any.
pub open spec fn spec_op_code(ty: OperationType) -> Option<Code> {
    match ty {
        OperationType::CmpEq => Some(Protocol::CmpEq),
        OperationType::CmpNe => Some(Protocol::CmpNe),
        OperationType::CmpGe => Some(Protocol::CmpGe),
        OperationType::CmpGt => Some(Protocol::CmpGt),
        OperationType::CmpLe => Some(Protocol::CmpLe),
        OperationType::CmpLt => Some(Protocol::CmpLt),
        OperationType::Add => Some(Protocol::Add),
        OperationType::Sub => Some(Protocol::Sub),
        OperationType::Mul => Some(Protocol::Mul),
        OperationType::Div => Some(Protocol::Div),
        OperationType::Rem => Some(Protocol::Rem),
        OperationType::Pow => Some(Protocol::Pow),
        OperationType::Neg => Some(Protocol::Neg),
        OperationType::And => Some(Protocol::And),
        OperationType::Or => Some(Protocol::Or),
        OperationType::Xor => Some(Protocol::Xor),
        OperationType::Shl => Some(Protocol::Shl),
        OperationType::Shr => Some(Protocol::Shr),
        OperationType::ODispose => Some(Protocol::ODispose),
        _ => None,
    }
}

/// An operator, comparison or disposal translates to the instruction of its
/// own name, no two kinds of operation translate to the same instruction, and
/// the kinds that translate to one instruction are those that map to an
/// instruction of the instruction set (`Operation::as_inx`).
pub proof fn lemma_op_code_named(ty: OperationType, other: OperationType)
    ensures
        spec_op_code(ty) matches Some(c) ==> spec_code_name(c) == spec_op_type_name(ty),
        spec_op_code(ty) is Some <==> spec_op_inx(ty) is Some,
        spec_op_code(ty) is Some && spec_op_code(ty) == spec_op_code(other) ==> ty == other,
{
}

/// Translating `ops` with `then` after each of them ends with `then`.
proof fn lemma_each_emissions_last<V>(ops: Seq<OpValue<V>>, acc: Access, then: Seq<Emission<V>>)
    requires
        ops.len() > 0,
        then.len() > 0,
    ensures
        each_emissions(ops, acc, then).len() > 0,
        each_emissions(ops, acc, then).last() == then.last(),
    decreases ops.len(),
{
    let head = value_emissions(ops[0], acc) + then;
    let rest = each_emissions(ops.drop_first(), acc, then);
    if ops.len() == 1 {
        assert(ops.drop_first().len() == 0);
        assert(rest.len() == 0);
        assert(head + rest =~= head);
    } else {
        lemma_each_emissions_last(ops.drop_first(), acc, then);
    }
}

/// Translating an operator, comparison or disposal emits, last, the
/// instruction of the operation's own name, whatever its arguments.
pub proof fn lemma_operator_emits_its_instruction<V>(op: Operation<V>)
    requires
        spec_op_code(op.ty) is Some,
    ensures
        op_emissions(op).len() > 0,
        op_emissions(op).last() == Emission::<V>::Fixed(spec_op_code(op.ty)->0),
        spec_code_name(spec_op_code(op.ty)->0) == spec_op_type_name(op.ty),
{
    let c = spec_op_code(op.ty)->0;
    let ops = op.ops@;
    lemma_op_code_named(op.ty, op.ty);
    if ops.len() >= 2 {
        lemma_each_emissions_last(ops.drop_first(), Access::Read, seq![Emission::<V>::Fixed(c)]);
    }
}

/// What translating an argument emits: an access to an operand, or what
/// translating a nested operation emits.
pub open spec fn value_emissions<V>(v: OpValue<V>, acc: Access) -> Seq<Emission<V>>
    decreases v, 0int,
{
    match v {
        OpValue::Operand(o) => seq![Emission::Access(o, acc)],
        OpValue::Operation(op) => op_emissions(op),
    }
}

/// What translating each argument of `ops` emits, each followed by `then`.
pub open spec fn each_emissions<V>(ops: Seq<OpValue<V>>, acc: Access, then: Seq<Emission<V>>) -> Seq<Emission<V>>
    decreases ops, 1int,
{
    if ops.len() == 0 {
        Seq::empty()
    } else {
        value_emissions(ops[0], acc) + then + each_emissions(ops.drop_first(), acc, then)
    }
}

/// What translating the key and value pairs of `ops` emits: each value, then
/// the setting of its key.
pub open spec fn pair_emissions<V>(ops: Seq<OpValue<V>>) -> Seq<Emission<V>>
    decreases ops, 1int,
{
    if ops.len() < 2 {
        Seq::empty()
    } else {
        value_emissions(ops[1], Access::Read) + seq![Emission::SetKey(match ops[0] {
            OpValue::Operand(Operand::Const(k)) => k,
            _ => arbitrary(),
        })] + pair_emissions(ops.subrange(2, ops.len() as int))
    }
}

/// The name an argument gives (meaningful for a name operand).
pub open spec fn arg_name<V>(v: OpValue<V>) -> String {
    match v {
        OpValue::Operand(Operand::Name(n)) => n,
        _ => arbitrary(),
    }
}

/// The operand an argument is (meaningful for an operand).
pub open spec fn arg_operand<V>(v: OpValue<V>) -> Operand<V> {
    match v {
        OpValue::Operand(o) => o,
        _ => arbitrary(),
    }
}

/// What translating an operation emits. An operator or comparison emits its
/// first argument, then each further argument followed by the instruction
/// (the instruction alone after a single argument, or without arguments); a
/// return emits its arguments and `Ret`; an assignment emits its second
/// argument, if any, and a write of its target; a call emits the arguments
/// after its target and a call of the function the target names; `push`
/// reads and `pop` writes its arguments; a jump emits the jump with an
/// unresolved target; a new object names its type in its first argument and
/// emits the other arguments after it; a new array appends each argument and
/// a new dictionary takes its arguments as they are; an append appends each
/// argument; setting keys emits each value and the setting of its key; a debug
/// operation raises the debug interrupt.
pub open spec fn op_emissions<V>(op: Operation<V>) -> Seq<Emission<V>>
    decreases op, 2int,
{
    let ops = op.ops@;
    match spec_op_code(op.ty) {
        Some(c) => if ops.len() == 0 {
            seq![Emission::Fixed(c)]
        } else if ops.len() == 1 {
            value_emissions(ops[0], Access::Read) + seq![Emission::Fixed(c)]
        } else {
            value_emissions(ops[0], Access::Read) + each_emissions(ops.drop_first(), Access::Read, seq![Emission::Fixed(c)])
        },
        None => match op.ty {
            OperationType::Ret => each_emissions(ops, Access::Read, Seq::empty()) + seq![Emission::Fixed(Protocol::Ret)],
            OperationType::Ass => (if ops.len() > 1 {
                value_emissions(ops[1], Access::Read)
            } else {
                Seq::empty()
            }) + seq![Emission::Access(arg_operand(ops[0]), Access::Write)],
            OperationType::Call => if ops.len() == 0 {
                seq![Emission::Call(arbitrary())]
            } else {
                each_emissions(ops.drop_first(), Access::Read, Seq::empty()) + seq![Emission::Call(arg_name(ops[0]))]
            },
            OperationType::Push => each_emissions(ops, Access::Read, Seq::empty()),
            OperationType::Pop => each_emissions(ops, Access::Write, Seq::empty()),
            OperationType::Jmp => seq![Emission::Fixed(Protocol::Jmp(usize::MAX))],
            OperationType::Jt => seq![Emission::Fixed(Protocol::Jt(usize::MAX))],
            OperationType::Jf => seq![Emission::Fixed(Protocol::Jf(usize::MAX))],
            OperationType::ONew => if ops.len() == 0 {
                seq![Emission::New(arbitrary())]
            } else {
                seq![Emission::New(arg_name(ops[0]))] + each_emissions(ops.drop_first(), Access::Read, Seq::empty())
            },
            OperationType::ONewArray => seq![Emission::Fixed(Protocol::ONewArray)] + each_emissions(ops, Access::Read, seq![Emission::Fixed(Protocol::OAppend)]),
            OperationType::ONewDict => seq![Emission::Fixed(Protocol::ONewDict)] + each_emissions(ops, Access::Read, Seq::empty()),
            OperationType::OAppend => each_emissions(ops, Access::Read, seq![Emission::Fixed(Protocol::OAppend)]),
            OperationType::Debug => seq![Emission::Fixed(Protocol::Int(DEBUG_INTERRUPT))],
            _ => pair_emissions(ops),
        },
    }
}


/// An argument can be translated without a fault.
pub open spec fn value_ok<V>(v: OpValue<V>) -> bool
    decreases v, 0int,
{
    match v {
        OpValue::Operand(_) => true,
        OpValue::Operation(op) => op_ok(op),
    }
}

/// Every argument of `ops` can be translated.
pub open spec fn each_ok<V>(ops: Seq<OpValue<V>>) -> bool
    decreases ops, 1int,
{
    ops.len() > 0 ==> value_ok(ops[0]) && each_ok(ops.drop_first())
}

/// `ops` are key and value pairs with constant keys and translatable values.
pub open spec fn pairs_ok<V>(ops: Seq<OpValue<V>>) -> bool
    decreases ops, 1int,
{
    if ops.len() == 0 {
        true
    } else if ops.len() == 1 {
        false
    } else {
        &&& ops[0] is Operand && arg_operand(ops[0]) is Const
        &&& value_ok(ops[1])
        &&& pairs_ok(ops.subrange(2, ops.len() as int))
    }
}

/// An operation can be translated without a fault: it is of a kind the
/// translation knows, an assignment has an operand as target, a call and a
/// new object name a function or type in their first argument, keys are
/// constants paired with values, and every argument translated can be.
pub open spec fn op_ok<V>(op: Operation<V>) -> bool
    decreases op, 2int,
{
    let ops = op.ops@;
    if spec_op_code(op.ty) is Some {
        each_ok(ops)
    } else {
        match op.ty {
            OperationType::Ret | OperationType::Push | OperationType::Pop | OperationType::ONewArray
            | OperationType::ONewDict | OperationType::OAppend => each_ok(ops),
            OperationType::Ass => ops.len() > 0 && ops[0] is Operand && (ops.len() > 1 ==> value_ok(ops[1])),
            OperationType::Call | OperationType::ONew => ops.len() > 0 && (ops[0] is Operand && arg_operand(ops[0]) is Name)
                && each_ok(ops.drop_first()),
            OperationType::Jmp | OperationType::Jt | OperationType::Jf | OperationType::Debug => true,
            OperationType::OSet => pairs_ok(ops),
            _ => false,
        }
    }
}

/// `cell` is what the emission `e` puts into a code object whose locals are
/// `locals`, once its pools are `consts` and `globals`.
pub open spec fn emits_cell<V: PartialEq + Clone>(
    e: Emission<V>,
    cell: Code,
    locals: Seq<Seq<char>>,
    consts: Seq<V>,
    globals: Seq<String>,
) -> bool {
    match e {
        Emission::Fixed(c) => cell == c,
        Emission::Access(Operand::Name(n), acc) => if locals.contains(n@) {
            &&& (acc == Access::Write ==> cell is LPop)
            &&& (acc == Access::Read ==> cell is LPush)
            &&& first_name_pos(locals, n@, match cell {
                Protocol::LPop(k) => k as int,
                Protocol::LPush(k) => k as int,
                _ => -1,
            })
        } else {
            &&& (acc == Access::Write ==> cell is GPop)
            &&& (acc == Access::Read ==> cell is GPush)
            &&& match cell {
                Protocol::GPop(k) => k < globals.len() && globals[k as int]@ == n@,
                Protocol::GPush(k) => k < globals.len() && globals[k as int]@ == n@,
                _ => false,
            }
        },
        Emission::Access(Operand::Const(v), _) => cell matches Protocol::CPush(k) && k < consts.len() && (V::obeys_eq_spec()
            ==> const_matches(v, consts[k as int])),
        Emission::Call(n) => cell matches Protocol::GCall(k) && k < globals.len() && globals[k as int]@ == n@,
        Emission::New(n) => cell matches Protocol::ONew(k) && k < globals.len() && globals[k as int]@ == n@,
        Emission::SetKey(v) => cell matches Protocol::OSet(k) && k < consts.len() && (V::obeys_eq_spec() ==> const_matches(
            v, consts[k as int])),
    }
}

/// The slot a global-slot access refers to (-1 for any other cell).
pub open spec fn global_slot(cell: Code) -> int {
    match cell {
        Protocol::GPop(k) => k as int,
        Protocol::GPush(k) => k as int,
        _ => -1,
    }
}

/// `cell` is what the emission `e` puts into a code object whose locals are
/// `locals`, and its pools go from `c0` and `g0` to `c1` and `g1`: a local name
/// is accessed through its first slot; any other name, a called function and a
/// new object's type are interned into the globals; a constant and a key are
/// interned into the constants; interning reuses the first equal entry and
/// appends only where there is none (`pool_interned`, `name_interned`).
pub open spec fn emits_step<V: PartialEq + Clone>(
    e: Emission<V>,
    cell: Code,
    locals: Seq<Seq<char>>,
    c0: Seq<V>,
    g0: Seq<String>,
    c1: Seq<V>,
    g1: Seq<String>,
) -> bool {
    match e {
        Emission::Fixed(c) => cell == c && c1 == c0 && g1 == g0,
        Emission::Access(Operand::Name(n), acc) => if locals.contains(n@) {
            &&& c1 == c0
            &&& g1 == g0
            &&& (acc == Access::Write ==> cell is LPop)
            &&& (acc == Access::Read ==> cell is LPush)
            &&& first_name_pos(locals, n@, match cell {
                Protocol::LPop(k) => k as int,
                Protocol::LPush(k) => k as int,
                _ => -1,
            })
        } else {
            &&& c1 == c0
            &&& (acc == Access::Write ==> cell is GPop)
            &&& (acc == Access::Read ==> cell is GPush)
            &&& name_interned(g0, n, g1, global_slot(cell))
        },
        Emission::Access(Operand::Const(v), _) => g1 == g0 && (cell matches Protocol::CPush(k) && pool_interned(c0, v, c1,
            k as int)),
        Emission::Call(n) => c1 == c0 && (cell matches Protocol::GCall(k) && name_interned(g0, n, g1, k as int)),
        Emission::New(n) => c1 == c0 && (cell matches Protocol::ONew(k) && name_interned(g0, n, g1, k as int)),
        Emission::SetKey(v) => g1 == g0 && (cell matches Protocol::OSet(k) && pool_interned(c0, v, c1, k as int)),
    }
}

/// The emissions `es` put the cells `cells` into a code object with locals
/// `locals`, one after the other, its pools passing through `cs` and `gs`.
pub open spec fn pool_steps<V: PartialEq + Clone>(
    es: Seq<Emission<V>>,
    cells: Seq<Code>,
    locals: Seq<Seq<char>>,
    cs: Seq<Seq<V>>,
    gs: Seq<Seq<String>>,
) -> bool {
    &&& cells.len() == es.len()
    &&& cs.len() == es.len() + 1
    &&& gs.len() == es.len() + 1
    &&& forall|k: int| 0 <= k < es.len() ==> #[trigger] emits_step(es[k], cells[k], locals, cs[k], gs[k], cs[k + 1], gs[k + 1])
}

/// The emissions `es` take a code object with pools `c0`, `g0` and locals
/// `locals` to one with pools `c1`, `g1`, putting the cells `cells`.
pub open spec fn steps_between<V: PartialEq + Clone>(
    es: Seq<Emission<V>>,
    cells: Seq<Code>,
    locals: Seq<Seq<char>>,
    c0: Seq<V>,
    g0: Seq<String>,
    c1: Seq<V>,
    g1: Seq<String>,
) -> bool {
    exists|cs: Seq<Seq<V>>, gs: Seq<Seq<String>>|
        #[trigger] pool_steps(es, cells, locals, cs, gs) && cs[0] == c0 && gs[0] == g0 && cs[es.len() as int] == c1
            && gs[es.len() as int] == g1
}

/// `b` is `a` after the emissions `es`: the code grew by one cell per
/// emission, each put as `emits_step` describes with the pools as they stood
/// when it was made (so each also as `emits_cell` describes with the final
/// pools); the locals and the argument count are unchanged.
pub open spec fn emitted<V: PartialEq + Clone>(a: CodeObject<V>, b: CodeObject<V>, es: Seq<Emission<V>>) -> bool {
    &&& b.argc == a.argc
    &&& b.space.locals@ == a.space.locals@
    &&& a.space.consts@.is_prefix_of(b.space.consts@)
    &&& a.space.globals@.is_prefix_of(b.space.globals@)
    &&& b.code@.len() == a.code@.len() + es.len()
    &&& b.code@.subrange(0, a.code@.len() as int) == a.code@
    &&& forall|k: int| 0 <= k < es.len() ==> #[trigger] emits_cell(es[k], b.code@[a.code@.len() + k], names(a.space.locals@),
        b.space.consts@, b.space.globals@)
    &&& steps_between(es, b.code@.subrange(a.code@.len() as int, b.code@.len() as int), names(a.space.locals@),
        a.space.consts@, a.space.globals@, b.space.consts@, b.space.globals@)
}

/// A step only grows the pools and puts its cell as `emits_cell` says with the
/// pools after it.
proof fn lemma_step_cell<V: PartialEq + Clone>(
    e: Emission<V>,
    cell: Code,
    locals: Seq<Seq<char>>,
    c0: Seq<V>,
    g0: Seq<String>,
    c1: Seq<V>,
    g1: Seq<String>,
)
    requires
        emits_step(e, cell, locals, c0, g0, c1, g1),
    ensures
        emits_cell(e, cell, locals, c1, g1),
        c0.is_prefix_of(c1),
        g0.is_prefix_of(g1),
{
    assert(c0.subrange(0, c0.len() as int) =~= c0);
    assert(g0.subrange(0, g0.len() as int) =~= g0);
    match e {
        Emission::Access(Operand::Const(v), _) | Emission::SetKey(v) => {
            let k = spec_code_arg(cell)->0 as int;
            if c1 != c0 {
                assert(c1.subrange(0, c0.len() as int) == c0);
            } else {
                if V::obeys_eq_spec() {
                    assert(is_first_match(c0, v, k));
                }
            }
        },
        Emission::Access(Operand::Name(n), _) | Emission::Call(n) | Emission::New(n) => {
            if g1 != g0 {
                assert(g1.subrange(0, g0.len() as int) =~= g0);
            }
        },
        _ => {},
    }
}

/// One emission makes `emitted`.
proof fn lemma_emitted_one<V: PartialEq + Clone>(a: CodeObject<V>, b: CodeObject<V>, e: Emission<V>, cell: Code)
    requires
        b.argc == a.argc,
        b.space.locals@ == a.space.locals@,
        b.code@ == a.code@.push(cell),
        emits_step(e, cell, names(a.space.locals@), a.space.consts@, a.space.globals@, b.space.consts@, b.space.globals@),
    ensures
        emitted(a, b, seq![e]),
{
    lemma_step_cell(e, cell, names(a.space.locals@), a.space.consts@, a.space.globals@, b.space.consts@, b.space.globals@);
    assert(b.code@.subrange(0, a.code@.len() as int) =~= a.code@);
    assert(b.code@[a.code@.len() + 0int] == cell);
    let es = seq![e];
    let cells = b.code@.subrange(a.code@.len() as int, b.code@.len() as int);
    assert(cells =~= seq![cell]);
    let cs = seq![a.space.consts@, b.space.consts@];
    let gs = seq![a.space.globals@, b.space.globals@];
    assert(emits_step(es[0], cells[0], names(a.space.locals@), cs[0], gs[0], cs[1], gs[1]));
    assert(pool_steps(es, cells, names(a.space.locals@), cs, gs));
}

proof fn lemma_emits_cell_grow<V: PartialEq + Clone>(
    e: Emission<V>,
    cell: Code,
    locals: Seq<Seq<char>>,
    c1: Seq<V>,
    g1: Seq<String>,
    c2: Seq<V>,
    g2: Seq<String>,
)
    requires
        emits_cell(e, cell, locals, c1, g1),
        c1.is_prefix_of(c2),
        g1.is_prefix_of(g2),
    ensures
        emits_cell(e, cell, locals, c2, g2),
{
    match cell {
        Protocol::CPush(k) | Protocol::OSet(k) => if k < c1.len() {
            assert(c2[k as int] == c1[k as int]);
        },
        Protocol::GPush(k) | Protocol::GPop(k) | Protocol::GCall(k) | Protocol::ONew(k) => if k < g1.len() {
            assert(g2[k as int] == g1[k as int]);
        },
        _ => {},
    }
}

proof fn lemma_emitted_trans<V: PartialEq + Clone>(
    a: CodeObject<V>,
    b: CodeObject<V>,
    c: CodeObject<V>,
    e1: Seq<Emission<V>>,
    e2: Seq<Emission<V>>,
)
    requires
        emitted(a, b, e1),
        emitted(b, c, e2),
    ensures
        emitted(a, c, e1 + e2),
{
    let n = a.code@.len();
    let m = b.code@.len();
    assert forall|k: int| 0 <= k < (e1 + e2).len() implies #[trigger] emits_cell((e1 + e2)[k], c.code@[n + k], names(
        a.space.locals@), c.space.consts@, c.space.globals@) by {
        if k < e1.len() {
            assert(c.code@.subrange(0, m as int)[n + k] == c.code@[n + k]);
            assert(b.code@[n + k] == c.code@[n + k]);
            assert(emits_cell(e1[k], b.code@[n + k], names(a.space.locals@), b.space.consts@, b.space.globals@));
            lemma_emits_cell_grow(e1[k], b.code@[n + k], names(a.space.locals@), b.space.consts@, b.space.globals@,
                c.space.consts@, c.space.globals@);
        } else {
            let j = k - e1.len();
            assert(emits_cell(e2[j], c.code@[m + j], names(b.space.locals@), c.space.consts@, c.space.globals@));
        }
    }
    assert(c.code@.subrange(0, n as int) =~= c.code@.subrange(0, m as int).subrange(0, n as int));
    let l = names(a.space.locals@);
    let cells1 = b.code@.subrange(n as int, m as int);
    let cells2 = c.code@.subrange(m as int, c.code@.len() as int);
    let (cs1, gs1) = choose|cs: Seq<Seq<V>>, gs: Seq<Seq<String>>|
        #[trigger] pool_steps(e1, cells1, l, cs, gs) && cs[0] == a.space.consts@ && gs[0] == a.space.globals@
            && cs[e1.len() as int] == b.space.consts@ && gs[e1.len() as int] == b.space.globals@;
    let (cs2, gs2) = choose|cs: Seq<Seq<V>>, gs: Seq<Seq<String>>|
        #[trigger] pool_steps(e2, cells2, l, cs, gs) && cs[0] == b.space.consts@ && gs[0] == b.space.globals@
            && cs[e2.len() as int] == c.space.consts@ && gs[e2.len() as int] == c.space.globals@;
    let cells = c.code@.subrange(n as int, c.code@.len() as int);
    assert(cells =~= cells1 + cells2) by {
        assert forall|i: int| 0 <= i < cells.len() implies cells[i] == (cells1 + cells2)[i] by {
            if i < cells1.len() {
                assert(c.code@.subrange(0, m as int)[n + i] == c.code@[n + i]);
            }
        }
    }
    let cs = cs1 + cs2.drop_first();
    let gs = gs1 + gs2.drop_first();
    let es = e1 + e2;
    assert forall|k: int| 0 <= k < es.len() implies #[trigger] emits_step(es[k], cells[k], l, cs[k], gs[k], cs[k + 1], gs[k + 1]) by {
        if k < e1.len() {
            assert(es[k] == e1[k]);
            assert(cells[k] == cells1[k]);
            assert(cs[k] == cs1[k] && cs[k + 1] == cs1[k + 1]);
            assert(gs[k] == gs1[k] && gs[k + 1] == gs1[k + 1]);
            assert(emits_step(e1[k], cells1[k], l, cs1[k], gs1[k], cs1[k + 1], gs1[k + 1]));
        } else {
            let j = k - e1.len();
            assert(es[k] == e2[j]);
            assert(cells[k] == cells2[j]);
            assert(cs[k] == cs2[j] && cs[k + 1] == cs2[j + 1]);
            assert(gs[k] == gs2[j] && gs[k + 1] == gs2[j + 1]);
            assert(emits_step(e2[j], cells2[j], l, cs2[j], gs2[j], cs2[j + 1], gs2[j + 1]));
        }
    }
    assert(pool_steps(es, cells, l, cs, gs));
    assert(cs[es.len() as int] == c.space.consts@);
    assert(gs[es.len() as int] == c.space.globals@);
    assert(a.space.consts@.is_prefix_of(c.space.consts@)) by {
        assert(c.space.consts@.subrange(0, a.space.consts@.len() as int) =~= b.space.consts@.subrange(0, a.space.consts@.len() as int));
    }
    assert(a.space.globals@.is_prefix_of(c.space.globals@)) by {
        assert(c.space.globals@.subrange(0, a.space.globals@.len() as int) =~= b.space.globals@.subrange(0, a.space.globals@.len() as int));
    }
}

proof fn lemma_emitted_nothing<V: PartialEq + Clone>(a: CodeObject<V>)
    ensures
        emitted(a, a, Seq::empty()),
{
    assert(a.code@.subrange(0, a.code@.len() as int) =~= a.code@);
    assert(a.space.consts@.subrange(0, a.space.consts@.len() as int) =~= a.space.consts@);
    assert(a.space.globals@.subrange(0, a.space.globals@.len() as int) =~= a.space.globals@);
    let cells = a.code@.subrange(a.code@.len() as int, a.code@.len() as int);
    assert(cells =~= Seq::<Code>::empty());
    assert(pool_steps(Seq::<Emission<V>>::empty(), cells, names(a.space.locals@), seq![a.space.consts@], seq![
        a.space.globals@]));
}

proof fn lemma_each_push<V>(s: Seq<OpValue<V>>, x: OpValue<V>, acc: Access, then: Seq<Emission<V>>)
    ensures
        each_emissions(s.push(x), acc, then) == each_emissions(s, acc, then) + value_emissions(x, acc) + then,
        each_ok(s.push(x)) == (each_ok(s) && value_ok(x)),
    decreases s.len(),
{
    let q = s.push(x);
    if s.len() == 0 {
        assert(q[0] == x);
        assert(q.drop_first() =~= Seq::<OpValue<V>>::empty());
        assert(each_emissions(q.drop_first(), acc, then) == Seq::<Emission<V>>::empty());
        assert(each_ok(q.drop_first()));
        assert(each_emissions(q, acc, then) =~= value_emissions(x, acc) + then);
        assert(each_emissions(s, acc, then) =~= Seq::<Emission<V>>::empty());
        assert(each_emissions(s, acc, then) + value_emissions(x, acc) + then =~= value_emissions(x, acc) + then);
    } else {
        assert(q[0] == s[0]);
        assert(q.drop_first() =~= s.drop_first().push(x));
        lemma_each_push(s.drop_first(), x, acc, then);
        assert(each_emissions(q, acc, then) =~= each_emissions(s, acc, then) + value_emissions(x, acc) + then);
    }
}

proof fn lemma_pairs_push<V>(s: Seq<OpValue<V>>, a: OpValue<V>, b: OpValue<V>)
    requires
        s.len() % 2 == 0,
    ensures
        pair_emissions(s + seq![a, b]) == pair_emissions(s) + value_emissions(b, Access::Read) + seq![Emission::SetKey(
            match a {
                OpValue::Operand(Operand::Const(k)) => k,
                _ => arbitrary(),
            },
        )],
        pairs_ok(s + seq![a, b]) == (pairs_ok(s) && (a is Operand && arg_operand(a) is Const) && value_ok(b)),
    decreases s.len(),
{
    let q = s + seq![a, b];
    if s.len() == 0 {
        assert(q[0] == a);
        assert(q[1] == b);
        assert(q.subrange(2, q.len() as int) =~= Seq::<OpValue<V>>::empty());
        assert(pair_emissions(q.subrange(2, q.len() as int)) == Seq::<Emission<V>>::empty());
        assert(pairs_ok(q.subrange(2, q.len() as int)));
        assert(pair_emissions(s) =~= Seq::<Emission<V>>::empty());
        assert(pair_emissions(q) =~= pair_emissions(s) + value_emissions(b, Access::Read) + seq![Emission::SetKey(
            match a {
                OpValue::Operand(Operand::Const(k)) => k,
                _ => arbitrary(),
            },
        )]);
    } else {
        let t = s.subrange(2, s.len() as int);
        assert(q[0] == s[0]);
        assert(q[1] == s[1]);
        assert(q.subrange(2, q.len() as int) =~= t + seq![a, b]);
        lemma_pairs_push(t, a, b);
        assert(pair_emissions(q) =~= pair_emissions(s) + value_emissions(b, Access::Read) + seq![Emission::SetKey(
            match a {
                OpValue::Operand(Operand::Const(k)) => k,
                _ => arbitrary(),
            },
        )]);
    }
}


/// The instruction an operation of kind `ty` maps to directly, if any.
fn direct_code(ty: OperationType) -> (res: Option<Code>)
    ensures
        res == spec_op_code(ty),
{
    match ty {
        OperationType::CmpEq => Some(Protocol::CmpEq),
        OperationType::CmpNe => Some(Protocol::CmpNe),
        OperationType::CmpGe => Some(Protocol::CmpGe),
        OperationType::CmpGt => Some(Protocol::CmpGt),
        OperationType::CmpLe => Some(Protocol::CmpLe),
        OperationType::CmpLt => Some(Protocol::CmpLt),
        OperationType::Add => Some(Protocol::Add),
        OperationType::Sub => Some(Protocol::Sub),
        OperationType::Mul => Some(Protocol::Mul),
        OperationType::Div => Some(Protocol::Div),
        OperationType::Rem => Some(Protocol::Rem),
        OperationType::Pow => Some(Protocol::Pow),
        OperationType::Neg => Some(Protocol::Neg),
        OperationType::And => Some(Protocol::And),
        OperationType::Or => Some(Protocol::Or),
        OperationType::Xor => Some(Protocol::Xor),
        OperationType::Shl => Some(Protocol::Shl),
        OperationType::Shr => Some(Protocol::Shr),
        OperationType::ODispose => Some(Protocol::ODispose),
        _ => None,
    }
}

/// Emits the instruction `c`.
fn emit_code<V: PartialEq + Clone>(func: &mut CodeObject<V>, c: Code)
    ensures
        emitted(*old(func), *final(func), seq![Emission::Fixed(c)]),
{
    func.code.push(c);
    proof {
        lemma_emitted_one(*old(func), *func, Emission::Fixed(c), c);
    }
}

/// Emits the access to an operand.
fn emit_access<V: PartialEq + Clone>(func: &mut CodeObject<V>, o: &Operand<V>, acc: Access)
    ensures
        emitted(*old(func), *final(func), seq![Emission::Access(*o, acc)]),
{
    let _ = translate_operand(func, o, acc);
    proof {
        lemma_emitted_one(*old(func), *func, Emission::Access(*o, acc), func.code@[old(func).code@.len() as int]);
    }
}

/// Translates an argument: an operand is accessed, a nested operation
/// translated.
fn translate<V: PartialEq + Clone>(func: &mut CodeObject<V>, v: &OpValue<V>, acc: Access) -> (res: BuildResult<()>)
    requires
        value_ok(*v),
    ensures
        res is Ok,
        emitted(*old(func), *final(func), value_emissions(*v, acc)),
    decreases *v, 0int,
{
    match v {
        OpValue::Operand(o) => {
            emit_access(func, o, acc);
            Ok(())
        },
        OpValue::Operation(op) => translate_operation(func, op),
    }
}

/// Translates the arguments of `op` from position `from` on, each followed
/// by `then` when there is one.
fn translate_each<V: PartialEq + Clone>(func: &mut CodeObject<V>, op: &Operation<V>, from: usize, acc: Access, then: Option<Code>)
    requires
        from <= op.ops@.len(),
        each_ok(op.ops@.subrange(from as int, op.ops@.len() as int)),
    ensures
        emitted(*old(func), *final(func), each_emissions(op.ops@.subrange(from as int, op.ops@.len() as int), acc,
            match then {
                Some(c) => seq![Emission::Fixed(c)],
                None => Seq::empty(),
            })),
    decreases *op, 1int,
{
    let ghost t = match then {
        Some(c) => seq![Emission::<V>::Fixed(c)],
        None => Seq::<Emission<V>>::empty(),
    };
    let ghost all = op.ops@.subrange(from as int, op.ops@.len() as int);
    let n = op.ops.len();
    let mut k: usize = from;
    proof {
        lemma_emitted_nothing(*old(func));
        assert(op.ops@.subrange(from as int, from as int) =~= Seq::<OpValue<V>>::empty());
        assert(each_emissions(Seq::<OpValue<V>>::empty(), acc, t) == Seq::<Emission<V>>::empty());
    }
    while k < n
        invariant
            from <= k <= n,
            n == op.ops@.len(),
            all == op.ops@.subrange(from as int, n as int),
            each_ok(all),
            t == (match then {
                Some(c) => seq![Emission::<V>::Fixed(c)],
                None => Seq::<Emission<V>>::empty(),
            }),
            emitted(*old(func), *func, each_emissions(op.ops@.subrange(from as int, k as int), acc, t)),
        decreases n - k,
    {
        let ghost pre = op.ops@.subrange(from as int, k as int);
        let ghost mid = *func;
        proof {
            assert(op.ops@.subrange(from as int, k + 1) =~= pre.push(op.ops@[k as int]));
            assert(all =~= pre.push(op.ops@[k as int]) + op.ops@.subrange(k + 1, n as int));
            lemma_each_ok_prefix(pre.push(op.ops@[k as int]), op.ops@.subrange(k + 1, n as int));
            lemma_each_push(pre, op.ops@[k as int], acc, t);
            assert(decreases_to!(*op => op.ops));
            assert(decreases_to!(op.ops => op.ops@));
            assert(decreases_to!(op.ops@ => op.ops@[k as int]));
        }
        let _ = translate(func, &op.ops[k], acc);
        proof {
            lemma_emitted_trans(*old(func), mid, *func, each_emissions(pre, acc, t), value_emissions(op.ops@[k as int], acc));
        }
        match then {
            Some(c) => {
                let ghost mid2 = *func;
                emit_code(func, c);
                proof {
                    lemma_emitted_trans(*old(func), mid2, *func, each_emissions(pre, acc, t) + value_emissions(op.ops@[k as int], acc), t);
                }
            },
            None => {
                proof {
                    assert(each_emissions(pre, acc, t) + value_emissions(op.ops@[k as int], acc) + t =~= each_emissions(pre, acc, t)
                        + value_emissions(op.ops@[k as int], acc));
                }
            },
        }
        k += 1;
    }
}

proof fn lemma_each_ok_prefix<V>(s: Seq<OpValue<V>>, r: Seq<OpValue<V>>)
    requires
        each_ok(s + r),
    ensures
        each_ok(s),
        s.len() > 0 ==> value_ok(s.last()),
    decreases s.len(),
{
    if s.len() > 0 {
        assert((s + r)[0] == s[0]);
        assert((s + r).drop_first() =~= s.drop_first() + r);
        lemma_each_ok_prefix(s.drop_first(), r);
        if s.len() > 1 {
            assert(s.drop_first().last() == s.last());
        }
    }
}


/// Translates the key and value pairs of `op`: each value is translated and
/// its constant key interned and set.
fn translate_pairs<V: PartialEq + Clone>(func: &mut CodeObject<V>, op: &Operation<V>)
    requires
        pairs_ok(op.ops@),
    ensures
        emitted(*old(func), *final(func), pair_emissions(op.ops@)),
    decreases *op, 1int,
{
    let n = op.ops.len();
    let mut k: usize = 0;
    proof {
        lemma_emitted_nothing(*old(func));
        assert(op.ops@.subrange(0, 0) =~= Seq::<OpValue<V>>::empty());
        assert(pair_emissions(Seq::<OpValue<V>>::empty()) == Seq::<Emission<V>>::empty());
        if n % 2 == 1 {
            lemma_pairs_odd(op.ops@);
        }
        assert(op.ops@.subrange(0, n as int) =~= op.ops@);
    }
    while k < n
        invariant
            k <= n,
            k % 2 == 0,
            n % 2 == 0,
            n == op.ops@.len(),
            pairs_ok(op.ops@),
            pairs_ok(op.ops@.subrange(k as int, n as int)),
            emitted(*old(func), *func, pair_emissions(op.ops@.subrange(0, k as int))),
        decreases n - k,
    {
        let ghost pre = op.ops@.subrange(0, k as int);
        let ghost rest = op.ops@.subrange(k as int, n as int);
        let ghost mid = *func;
        proof {
            assert(rest[0] == op.ops@[k as int]);
            assert(rest[1] == op.ops@[k + 1]);
            assert(rest.subrange(2, rest.len() as int) =~= op.ops@.subrange(k + 2, n as int));
            assert(op.ops@.subrange(0, k + 2) =~= pre + seq![op.ops@[k as int], op.ops@[k + 1]]);
            lemma_pairs_push(pre, op.ops@[k as int], op.ops@[k + 1]);
            assert(decreases_to!(*op => op.ops));
            assert(decreases_to!(op.ops => op.ops@));
            assert(decreases_to!(op.ops@ => op.ops@[k + 1]));
        }
        let _ = translate(func, &op.ops[k + 1], Access::Read);
        proof {
            lemma_emitted_trans(*old(func), mid, *func, pair_emissions(pre), value_emissions(op.ops@[k + 1], Access::Read));
        }
        let key = match &op.ops[k] {
            OpValue::Operand(Operand::Const(key)) => key,
            _ => vstd::pervasive::unreached(),
        };
        let ghost mid2 = *func;
        let idx = index_of(&mut func.space.consts, key);
        func.code.push(Protocol::OSet(idx));
        proof {
            let e = seq![Emission::SetKey(*key)];
            lemma_emitted_one(mid2, *func, Emission::SetKey(*key), Protocol::OSet(idx));
            lemma_emitted_trans(*old(func), mid2, *func, pair_emissions(pre) + value_emissions(op.ops@[k + 1], Access::Read), e);
        }
        k += 2;
    }
    proof {
        assert(op.ops@.subrange(0, n as int) =~= op.ops@);
    }
}

proof fn lemma_pairs_odd<V>(s: Seq<OpValue<V>>)
    requires
        s.len() % 2 == 1,
    ensures
        !pairs_ok(s),
    decreases s.len(),
{
    if s.len() > 1 {
        lemma_pairs_odd(s.subrange(2, s.len() as int));
    }
}

/// Translates an operation into `func`, interning the names and constants it
/// needs into the pools of `func`.
pub fn translate_operation<V: PartialEq + Clone>(func: &mut CodeObject<V>, op: &Operation<V>) -> (res: BuildResult<()>)
    requires
        op_ok(*op),
    ensures
        res is Ok,
        emitted(*old(func), *final(func), op_emissions(*op)),
    decreases *op, 2int,
{
    let n = op.ops.len();
    let ghost ops = op.ops@;
    proof {
        assert(ops.subrange(0, ops.len() as int) =~= ops);
        if ops.len() > 0 {
            assert(ops.subrange(1, ops.len() as int) =~= ops.drop_first());
            assert(decreases_to!(*op => op.ops));
            assert(decreases_to!(op.ops => op.ops@));
            assert(decreases_to!(op.ops@ => op.ops@[0]));
        }
        if ops.len() > 1 {
            assert(decreases_to!(op.ops@ => op.ops@[1]));
        }
    }
    match direct_code(op.ty) {
        Some(c) => {
            if n == 0 {
                emit_code(func, c);
            } else if n == 1 {
                let ghost a = *func;
                let _ = translate(func, &op.ops[0], Access::Read);
                let ghost b = *func;
                emit_code(func, c);
                proof {
                    lemma_emitted_trans(a, b, *func, value_emissions(ops[0], Access::Read), seq![Emission::Fixed(c)]);
                }
            } else {
                let ghost a = *func;
                let _ = translate(func, &op.ops[0], Access::Read);
                let ghost b = *func;
                translate_each(func, op, 1, Access::Read, Some(c));
                proof {
                    lemma_emitted_trans(a, b, *func, value_emissions(ops[0], Access::Read), each_emissions(ops.drop_first(),
                        Access::Read, seq![Emission::Fixed(c)]));
                }
            }
        },
        None => match op.ty {
            OperationType::Ret => {
                let ghost a = *func;
                translate_each(func, op, 0, Access::Read, None);
                let ghost b = *func;
                emit_code(func, Protocol::Ret);
                proof {
                    lemma_emitted_trans(a, b, *func, each_emissions(ops, Access::Read, Seq::empty()), seq![Emission::Fixed(Protocol::Ret)]);
                }
            },
            OperationType::Ass => {
                let ghost a = *func;
                if n > 1 {
                    let _ = translate(func, &op.ops[1], Access::Read);
                } else {
                    proof {
                        lemma_emitted_nothing(a);
                    }
                }
                let ghost b = *func;
                match &op.ops[0] {
                    OpValue::Operand(t) => emit_access(func, t, Access::Write),
                    _ => vstd::pervasive::unreached(),
                }
                proof {
                    let first = if ops.len() > 1 {
                        value_emissions(ops[1], Access::Read)
                    } else {
                        Seq::empty()
                    };
                    lemma_emitted_trans(a, b, *func, first, seq![Emission::Access(arg_operand(ops[0]), Access::Write)]);
                }
            },
            OperationType::Call => {
                let fname = match &op.ops[0] {
                    OpValue::Operand(Operand::Name(f)) => f,
                    _ => vstd::pervasive::unreached(),
                };
                let ghost a = *func;
                translate_each(func, op, 1, Access::Read, None);
                let ghost b = *func;
                let idx = name_index_of(&mut func.space.globals, fname);
                func.code.push(Protocol::GCall(idx));
                proof {
                    lemma_emitted_one(b, *func, Emission::Call(*fname), Protocol::GCall(idx));
                    lemma_emitted_trans(a, b, *func, each_emissions(ops.drop_first(), Access::Read, Seq::empty()), seq![
                        Emission::Call(arg_name(ops[0]))]);
                }
            },
            OperationType::Push => translate_each(func, op, 0, Access::Read, None),
            OperationType::Pop => translate_each(func, op, 0, Access::Write, None),
            OperationType::Jmp => emit_code(func, Protocol::Jmp(usize::MAX)),
            OperationType::Jt => emit_code(func, Protocol::Jt(usize::MAX)),
            OperationType::Jf => emit_code(func, Protocol::Jf(usize::MAX)),
            OperationType::ONew => {
                let ty_name = match &op.ops[0] {
                    OpValue::Operand(Operand::Name(t)) => t,
                    _ => vstd::pervasive::unreached(),
                };
                let ghost a = *func;
                let idx = name_index_of(&mut func.space.globals, ty_name);
                func.code.push(Protocol::ONew(idx));
                proof {
                    lemma_emitted_one(a, *func, Emission::New(*ty_name), Protocol::ONew(idx));
                }
                let ghost b = *func;
                translate_each(func, op, 1, Access::Read, None);
                proof {
                    lemma_emitted_trans(a, b, *func, seq![Emission::New(arg_name(ops[0]))], each_emissions(ops.drop_first(),
                        Access::Read, Seq::empty()));
                }
            },
            OperationType::ONewArray | OperationType::ONewDict => {
                let ghost a = *func;
                let then = if let OperationType::ONewArray = op.ty {
                    emit_code(func, Protocol::ONewArray);
                    Some(Protocol::OAppend)
                } else {
                    emit_code(func, Protocol::ONewDict);
                    None
                };
                let ghost b = *func;
                translate_each(func, op, 0, Access::Read, then);
                proof {
                    let t = match then {
                        Some(c) => seq![Emission::<V>::Fixed(c)],
                        None => Seq::<Emission<V>>::empty(),
                    };
                    let first = if op.ty == OperationType::ONewArray {
                        seq![Emission::<V>::Fixed(Protocol::ONewArray)]
                    } else {
                        seq![Emission::<V>::Fixed(Protocol::ONewDict)]
                    };
                    lemma_emitted_trans(a, b, *func, first, each_emissions(ops, Access::Read, t));
                }
            },
            OperationType::OAppend => translate_each(func, op, 0, Access::Read, Some(Protocol::OAppend)),
            OperationType::OSet => translate_pairs(func, op),
            OperationType::Debug => emit_code(func, Protocol::Int(DEBUG_INTERRUPT)),
            _ => vstd::pervasive::unreached(),
        },
    }
    Ok(())
}



/// Where a jump of a block leads: an index, a place in the block, or a constant.
#[derive(Debug)]
pub enum LinkTarget<V> {
    Index(usize),
    Location(BranchLocation),
    Const(Operand<V>),
}

/// A conditional branch: a condition and the blocks taken when it holds and,
/// optionally, when it does not.
#[derive(Debug)]
pub struct Branch<V> {
    pub cond: BlockDef<V>,
    pub tblock: BlockDef<V>,
    pub fblock: Option<BlockDef<V>>,
}

/// A building block of a program definition: a branch, an embedded block
/// definition, or a sequence of operations.
#[derive(Debug)]
pub enum Block<V> {
    Branch(Box<Branch<V>>),
    Embedded(Box<BlockDef<V>>),
    Sequence(Vec<Operation<V>>),
}

/// A block definition: its argument count, its blocks, and its jumps with
/// their targets.
#[derive(Debug)]
pub struct BlockDef<V> {
    pub argc: usize,
    pub blocks: Vec<Block<V>>,
    pub offsets: Vec<(usize, LinkTarget<V>)>,
}

/// An argument holds no jump, new object or key setting at any depth.
pub open spec fn value_plain<V>(v: OpValue<V>) -> bool
    decreases v, 0int,
{
    match v {
        OpValue::Operand(_) => true,
        OpValue::Operation(op) => op_plain(op),
    }
}

/// Every argument of `ops` is plain.
pub open spec fn each_plain<V>(ops: Seq<OpValue<V>>) -> bool
    decreases ops, 1int,
{
    ops.len() > 0 ==> value_plain(ops[0]) && each_plain(ops.drop_first())
}

/// An operation holds no jump, new object or key setting at any depth: its
/// code can be embedded into another code object.
pub open spec fn op_plain<V>(op: Operation<V>) -> bool
    decreases op, 2int,
{
    &&& !(op.ty is Jmp || op.ty is Jt || op.ty is Jf || op.ty is ONew || op.ty is OSet || op.ty is Debug
        || op.ty is OGet)
    &&& each_plain(op.ops@)
}

/// What translating the operations `ops` in order emits.
pub open spec fn ops_emissions<V>(ops: Seq<Operation<V>>) -> Seq<Emission<V>>
    decreases ops.len(),
{
    if ops.len() == 0 {
        Seq::empty()
    } else {
        ops_emissions(ops.drop_last()) + op_emissions(ops.last())
    }
}

/// A code object as building starts from it: no arguments, no code, empty pools.
pub open spec fn fresh<V>(co: CodeObject<V>) -> bool {
    &&& co.argc == 0
    &&& co.code@.len() == 0
    &&& co.space.consts@.len() == 0
    &&& co.space.locals@.len() == 0
    &&& co.space.globals@.len() == 0
}

/// The objects a build passes through, for each block definition of a nest:
/// the definition at path `q` (the positions of the embedded blocks that lead
/// to it from the outermost one) passes through `w[q]`.
pub type BuildWitness<V> = Map<Seq<int>, Seq<CodeObject<V>>>;

/// `objs` are the code objects that translating the blocks `bs` of the
/// definition at path `q` passes through, one block after the other, with the
/// definitions embedded in them built as `w` says.
pub open spec fn path_built<V: PartialEq + Clone>(
    objs: Seq<CodeObject<V>>,
    bs: Seq<Block<V>>,
    q: Seq<int>,
    w: BuildWitness<V>,
) -> bool
    decreases bs, 1int,
{
    &&& objs.len() == bs.len() + 1
    &&& bs.len() > 0 ==> {
        &&& path_built(objs.drop_last(), bs.drop_last(), q, w)
        &&& block_built(objs[bs.len() - 1], objs[bs.len() as int], bs.last(), q.push(bs.len() - 1), w)
    }
}

/// `b` is `a` after the block `blk` (at path `q`) is translated into it: a
/// branch adds nothing, a sequence emits its operations, and an embedded block
/// definition is built on its own (as `w` says) and merged in.
pub open spec fn block_built<V: PartialEq + Clone>(
    a: CodeObject<V>,
    b: CodeObject<V>,
    blk: Block<V>,
    q: Seq<int>,
    w: BuildWitness<V>,
) -> bool
    decreases blk, 0int,
{
    match blk {
        Block::Branch(_) => b == a,
        Block::Sequence(ops) => emitted(a, b, ops_emissions(ops@)),
        Block::Embedded(inner) => def_built(*inner, q, w) && merged(a, w[q].last(), b),
    }
}

/// The definition `def` at path `q` is built as `w` says: from a fresh code
/// object through its blocks.
pub open spec fn def_built<V: PartialEq + Clone>(def: BlockDef<V>, q: Seq<int>, w: BuildWitness<V>) -> bool
    decreases def, 2int,
{
    &&& w.dom().contains(q)
    &&& fresh(w[q][0])
    &&& path_built(w[q], def.blocks@, q, w)
}

/// `co` is what building the block definition `def` gives: its blocks
/// translated one after the other into a fresh code object, each embedded
/// definition built the same way and merged in.
pub open spec fn built<V: PartialEq + Clone>(def: BlockDef<V>, co: CodeObject<V>) -> bool {
    exists|w: BuildWitness<V>| #[trigger] def_built(def, Seq::empty(), w) && w[Seq::empty()].last() == co
}

/// `p` is `q` or a path below it.
pub open spec fn extends(p: Seq<int>, q: Seq<int>) -> bool {
    q.len() <= p.len() && p.subrange(0, q.len() as int) == q
}

/// `w1` and `w2` say the same of `q` and every path below it.
pub open spec fn agree_from<V>(w1: BuildWitness<V>, w2: BuildWitness<V>, q: Seq<int>) -> bool {
    forall|p: Seq<int>|
        #[trigger] extends(p, q) ==> (w1.dom().contains(p) == w2.dom().contains(p) && (w1.dom().contains(p) ==> w1[p]
            == w2[p]))
}

/// The witness `w` moved below the path `r`.
pub open spec fn shifted<V>(w: BuildWitness<V>, r: Seq<int>) -> BuildWitness<V> {
    Map::new(
        |p: Seq<int>| extends(p, r) && w.dom().contains(p.subrange(r.len() as int, p.len() as int)),
        |p: Seq<int>| w[p.subrange(r.len() as int, p.len() as int)],
    )
}

proof fn lemma_agree_narrow<V>(w1: BuildWitness<V>, w2: BuildWitness<V>, q: Seq<int>, k: int)
    requires
        agree_from(w1, w2, q),
    ensures
        agree_from(w1, w2, q.push(k)),
{
    assert forall|p: Seq<int>| #[trigger] extends(p, q.push(k)) implies (w1.dom().contains(p) == w2.dom().contains(p) && (
    w1.dom().contains(p) ==> w1[p] == w2[p])) by {
        assert(p.subrange(0, q.len() as int) =~= p.subrange(0, q.len() as int + 1).subrange(0, q.len() as int));
        assert(q.push(k).subrange(0, q.len() as int) =~= q);
        assert(extends(p, q));
    }
}

proof fn lemma_frame_path<V: PartialEq + Clone>(
    objs: Seq<CodeObject<V>>,
    bs: Seq<Block<V>>,
    q: Seq<int>,
    w1: BuildWitness<V>,
    w2: BuildWitness<V>,
)
    requires
        forall|k: int| 0 <= k < bs.len() ==> #[trigger] agree_from(w1, w2, q.push(k)),
    ensures
        path_built(objs, bs, q, w1) == path_built(objs, bs, q, w2),
    decreases bs, 1int,
{
    if bs.len() > 0 {
        let n = bs.len() - 1;
        assert(decreases_to!(bs => bs[n]));
        lemma_frame_path(objs.drop_last(), bs.drop_last(), q, w1, w2);
        assert(agree_from(w1, w2, q.push(n)));
        assert(bs.last() == bs[n]);
        lemma_frame_block(objs[n], objs[bs.len() as int], bs[n], q.push(n), w1, w2);
    }
}

proof fn lemma_frame_block<V: PartialEq + Clone>(
    a: CodeObject<V>,
    b: CodeObject<V>,
    blk: Block<V>,
    q: Seq<int>,
    w1: BuildWitness<V>,
    w2: BuildWitness<V>,
)
    requires
        agree_from(w1, w2, q),
    ensures
        block_built(a, b, blk, q, w1) == block_built(a, b, blk, q, w2),
    decreases blk, 0int,
{
    if let Block::Embedded(inner) = blk {
        assert(decreases_to!(blk => *inner));
        lemma_frame_def(*inner, q, w1, w2);
        assert(q.subrange(0, q.len() as int) =~= q);
        assert(extends(q, q));
    }
}

proof fn lemma_frame_def<V: PartialEq + Clone>(def: BlockDef<V>, q: Seq<int>, w1: BuildWitness<V>, w2: BuildWitness<V>)
    requires
        agree_from(w1, w2, q),
    ensures
        def_built(def, q, w1) == def_built(def, q, w2),
    decreases def, 2int,
{
    assert(q.subrange(0, q.len() as int) =~= q);
    assert(extends(q, q));
    assert(decreases_to!(def => def.blocks));
    assert(decreases_to!(def.blocks => def.blocks@));
    assert forall|k: int| 0 <= k < def.blocks@.len() implies #[trigger] agree_from(w1, w2, q.push(k)) by {
        lemma_agree_narrow(w1, w2, q, k);
    }
    if w1.dom().contains(q) {
        lemma_frame_path(w1[q], def.blocks@, q, w1, w2);
    }
}

proof fn lemma_shift_at<V>(w: BuildWitness<V>, r: Seq<int>, q: Seq<int>)
    ensures
        shifted(w, r).dom().contains(r + q) == w.dom().contains(q),
        w.dom().contains(q) ==> shifted(w, r)[r + q] == w[q],
{
    let p = r + q;
    assert(p.subrange(0, r.len() as int) =~= r);
    assert(p.subrange(r.len() as int, p.len() as int) =~= q);
}

proof fn lemma_shift_path<V: PartialEq + Clone>(
    objs: Seq<CodeObject<V>>,
    bs: Seq<Block<V>>,
    q: Seq<int>,
    w: BuildWitness<V>,
    r: Seq<int>,
)
    requires
        path_built(objs, bs, q, w),
    ensures
        path_built(objs, bs, r + q, shifted(w, r)),
    decreases bs, 1int,
{
    if bs.len() > 0 {
        let n = bs.len() - 1;
        assert(decreases_to!(bs => bs[n]));
        lemma_shift_path(objs.drop_last(), bs.drop_last(), q, w, r);
        assert(bs.last() == bs[n]);
        lemma_shift_block(objs[n], objs[bs.len() as int], bs[n], q.push(n), w, r);
        assert((r + q).push(n) =~= r + q.push(n));
    }
}

proof fn lemma_shift_block<V: PartialEq + Clone>(
    a: CodeObject<V>,
    b: CodeObject<V>,
    blk: Block<V>,
    q: Seq<int>,
    w: BuildWitness<V>,
    r: Seq<int>,
)
    requires
        block_built(a, b, blk, q, w),
    ensures
        block_built(a, b, blk, r + q, shifted(w, r)),
    decreases blk, 0int,
{
    if let Block::Embedded(inner) = blk {
        assert(decreases_to!(blk => *inner));
        lemma_shift_def(*inner, q, w, r);
        lemma_shift_at(w, r, q);
    }
}

proof fn lemma_shift_def<V: PartialEq + Clone>(def: BlockDef<V>, q: Seq<int>, w: BuildWitness<V>, r: Seq<int>)
    requires
        def_built(def, q, w),
    ensures
        def_built(def, r + q, shifted(w, r)),
    decreases def, 2int,
{
    assert(decreases_to!(def => def.blocks));
    assert(decreases_to!(def.blocks => def.blocks@));
    lemma_shift_at(w, r, q);
    lemma_shift_path(w[q], def.blocks@, q, w, r);
}

/// What translating the blocks `bs` in order emits, as far as they are
/// sequences: a branch emits nothing.
pub open spec fn blocks_emissions<V>(bs: Seq<Block<V>>) -> Seq<Emission<V>>
    decreases bs.len(),
{
    if bs.len() == 0 {
        Seq::empty()
    } else {
        blocks_emissions(bs.drop_last()) + match bs.last() {
            Block::Sequence(ops) => ops_emissions(ops@),
            _ => Seq::empty(),
        }
    }
}

/// No block of `bs` is an embedded block definition.
pub open spec fn no_embedded<V>(bs: Seq<Block<V>>) -> bool {
    forall|i: int| 0 <= i < bs.len() ==> !(#[trigger] bs[i] is Embedded)
}

/// Every jump target is an index, or the start or end of the block.
pub open spec fn offsets_ok<V>(offsets: Seq<(usize, LinkTarget<V>)>) -> bool {
    forall|i: int| 0 <= i < offsets.len() ==> match #[trigger] offsets[i].1 {
        LinkTarget::Index(_) => true,
        LinkTarget::Location(BranchLocation::Start) => true,
        LinkTarget::Location(BranchLocation::End) => true,
        _ => false,
    }
}

/// The position a jump target resolves to in a block of `codelen` instructions.
pub open spec fn resolved_target<V>(t: LinkTarget<V>, codelen: usize) -> usize {
    match t {
        LinkTarget::Index(idx) => idx,
        LinkTarget::Location(BranchLocation::End) => codelen,
        _ => 0,
    }
}

/// A block can be built without a fault: its sequences can be translated,
/// its embedded block definitions can be built and are plain, and its jump
/// targets resolve.
pub open spec fn block_ok<V>(b: Block<V>) -> bool
    decreases b, 0int,
{
    match b {
        Block::Branch(_) => true,
        Block::Embedded(inner) => bd_ok(*inner) && bd_plain(*inner),
        Block::Sequence(ops) => forall|k: int| 0 <= k < ops@.len() ==> op_ok(#[trigger] ops@[k]),
    }
}

/// Every block of `bs` can be built.
pub open spec fn blocks_ok<V>(bs: Seq<Block<V>>) -> bool
    decreases bs, 1int,
{
    bs.len() > 0 ==> block_ok(bs[0]) && blocks_ok(bs.drop_first())
}

/// A block definition can be built without a fault.
pub open spec fn bd_ok<V>(bd: BlockDef<V>) -> bool
    decreases bd, 2int,
{
    blocks_ok(bd.blocks@) && offsets_ok(bd.offsets@)
}

/// A block is plain: its operations and embedded block definitions are.
pub open spec fn block_plain<V>(b: Block<V>) -> bool
    decreases b, 0int,
{
    match b {
        Block::Branch(_) => true,
        Block::Embedded(inner) => bd_plain(*inner),
        Block::Sequence(ops) => forall|k: int| 0 <= k < ops@.len() ==> op_plain(#[trigger] ops@[k]),
    }
}

/// Every block of `bs` is plain.
pub open spec fn blocks_plain<V>(bs: Seq<Block<V>>) -> bool
    decreases bs, 1int,
{
    bs.len() > 0 ==> block_plain(bs[0]) && blocks_plain(bs.drop_first())
}

/// A block definition is plain: its code can be embedded into another.
pub open spec fn bd_plain<V>(bd: BlockDef<V>) -> bool
    decreases bd, 2int,
{
    blocks_plain(bd.blocks@)
}

/// Every instruction of `co` refers into its pools and is not a jump.
pub open spec fn cells_ok<V>(co: CodeObject<V>) -> bool {
    forall|j: int| 0 <= j < co.code@.len() ==> #[trigger] code_mergeable(co.code@[j], co, 0) && !is_jump(co.code@[j])
}


/// An emission whose cell can be embedded into another code object.
pub open spec fn emission_plain<V>(e: Emission<V>) -> bool {
    match e {
        Emission::Fixed(c) => !is_jump(c) && spec_code_arg(c) is None,
        Emission::Access(..) => true,
        Emission::Call(_) => true,
        _ => false,
    }
}

/// Every emission of `es` is plain.
pub open spec fn emissions_plain<V>(es: Seq<Emission<V>>) -> bool {
    forall|i: int| 0 <= i < es.len() ==> emission_plain(#[trigger] es[i])
}

proof fn lemma_plain_concat<V>(a: Seq<Emission<V>>, b: Seq<Emission<V>>)
    requires
        emissions_plain(a),
        emissions_plain(b),
    ensures
        emissions_plain(a + b),
{
    assert forall|i: int| 0 <= i < (a + b).len() implies emission_plain(#[trigger] (a + b)[i]) by {
        if i < a.len() {
            assert((a + b)[i] == a[i]);
        } else {
            assert((a + b)[i] == b[i - a.len()]);
        }
    }
}

proof fn lemma_value_plain<V>(v: OpValue<V>, acc: Access)
    requires
        value_plain(v),
    ensures
        emissions_plain(value_emissions(v, acc)),
    decreases v, 0int,
{
    match v {
        OpValue::Operand(o) => {
            assert(value_emissions(v, acc)[0] == Emission::Access(o, acc));
        },
        OpValue::Operation(op) => lemma_op_plain(op),
    }
}

proof fn lemma_each_plain<V>(ops: Seq<OpValue<V>>, acc: Access, then: Seq<Emission<V>>)
    requires
        each_plain(ops),
        emissions_plain(then),
    ensures
        emissions_plain(each_emissions(ops, acc, then)),
    decreases ops, 1int,
{
    if ops.len() > 0 {
        lemma_value_plain(ops[0], acc);
        lemma_each_plain(ops.drop_first(), acc, then);
        lemma_plain_concat(value_emissions(ops[0], acc), then);
        lemma_plain_concat(value_emissions(ops[0], acc) + then, each_emissions(ops.drop_first(), acc, then));
    }
}

proof fn lemma_op_plain<V>(op: Operation<V>)
    requires
        op_plain(op),
    ensures
        emissions_plain(op_emissions(op)),
    decreases op, 2int,
{
    let ops = op.ops@;
    let none = Seq::<Emission<V>>::empty();
    if ops.len() > 0 {
        assert(each_plain(ops.drop_first()));
        assert(decreases_to!(op => op.ops));
        assert(decreases_to!(op.ops => op.ops@));
        assert(decreases_to!(op.ops@ => op.ops@[0]));
        lemma_value_plain(ops[0], Access::Read);
        lemma_each_plain(ops.drop_first(), Access::Read, none);
    }
    if ops.len() > 1 {
        assert(each_plain(ops.drop_first()));
        assert(value_plain(ops.drop_first()[0]));
        assert(ops.drop_first()[0] == ops[1]);
        assert(decreases_to!(op.ops@ => op.ops@[1]));
        lemma_value_plain(ops[1], Access::Read);
    }
    lemma_each_plain(ops, Access::Read, none);
    lemma_each_plain(ops, Access::Write, none);
    match spec_op_code(op.ty) {
        Some(c) => {
            let t = seq![Emission::<V>::Fixed(c)];
            assert(emission_plain(t[0]));
            if ops.len() > 0 {
                lemma_each_plain(ops.drop_first(), Access::Read, t);
                lemma_plain_concat(value_emissions(ops[0], Access::Read), t);
                lemma_plain_concat(value_emissions(ops[0], Access::Read), each_emissions(ops.drop_first(), Access::Read, t));
            }
        },
        None => {
            let ret = seq![Emission::<V>::Fixed(Protocol::Ret)];
            let arr = seq![Emission::<V>::Fixed(Protocol::ONewArray)];
            let dict = seq![Emission::<V>::Fixed(Protocol::ONewDict)];
            let app = seq![Emission::<V>::Fixed(Protocol::OAppend)];
            assert(emission_plain(ret[0]));
            assert(emission_plain(arr[0]));
            assert(emission_plain(dict[0]));
            assert(emission_plain(app[0]));
            lemma_each_plain(ops, Access::Read, app);
            lemma_plain_concat(each_emissions(ops, Access::Read, none), ret);
            lemma_plain_concat(arr, each_emissions(ops, Access::Read, app));
            lemma_plain_concat(dict, each_emissions(ops, Access::Read, none));
            if ops.len() > 0 {
                let call = seq![Emission::<V>::Call(arg_name(ops[0]))];
                let write = seq![Emission::<V>::Access(arg_operand(ops[0]), Access::Write)];
                assert(emission_plain(call[0]));
                assert(emission_plain(write[0]));
                lemma_plain_concat(each_emissions(ops.drop_first(), Access::Read, none), call);
                if ops.len() > 1 {
                    lemma_plain_concat(value_emissions(ops[1], Access::Read), write);
                } else {
                    lemma_plain_concat(none, write);
                }
            } else {
                let call = seq![Emission::<V>::Call(arbitrary())];
                assert(emission_plain(call[0]));
            }
        },
    }
}

proof fn lemma_cell_ok_grow<V>(c: Code, a: CodeObject<V>, b: CodeObject<V>)
    requires
        code_mergeable(c, a, 0),
        a.space.consts@.is_prefix_of(b.space.consts@),
        a.space.locals@.is_prefix_of(b.space.locals@),
        a.space.globals@.is_prefix_of(b.space.globals@),
    ensures
        code_mergeable(c, b, 0),
{
}

proof fn lemma_emitted_cells_ok<V: PartialEq + Clone>(a: CodeObject<V>, b: CodeObject<V>, es: Seq<Emission<V>>)
    requires
        emitted(a, b, es),
        emissions_plain(es),
        cells_ok(a),
    ensures
        cells_ok(b),
{
    let n = a.code@.len();
    assert(a.space.locals@.is_prefix_of(b.space.locals@)) by {
        assert(b.space.locals@.subrange(0, a.space.locals@.len() as int) =~= a.space.locals@);
    }
    assert forall|j: int| 0 <= j < b.code@.len() implies #[trigger] code_mergeable(b.code@[j], b, 0) && !is_jump(b.code@[j]) by {
        if j < n {
            assert(b.code@.subrange(0, n as int)[j] == b.code@[j]);
            assert(code_mergeable(a.code@[j], a, 0));
            lemma_cell_ok_grow(a.code@[j], a, b);
        } else {
            let k = j - n;
            assert(emits_cell(es[k], b.code@[n + k], names(a.space.locals@), b.space.consts@, b.space.globals@));
            assert(emission_plain(es[k]));
            match es[k] {
                Emission::Access(Operand::Name(nm), acc) => {
                    if names(a.space.locals@).contains(nm@) {
                        assert(names(a.space.locals@).len() == b.space.locals@.len());
                    }
                },
                _ => {},
            }
        }
    }
}

proof fn lemma_merged_cells_ok<V: PartialEq + Clone>(a: CodeObject<V>, other: CodeObject<V>, b: CodeObject<V>)
    requires
        cells_ok(a),
        cells_ok(other),
        b.code@.len() == a.code@.len() + other.code@.len(),
        b.code@.subrange(0, a.code@.len() as int) == a.code@,
        a.space.consts@.is_prefix_of(b.space.consts@),
        a.space.locals@.is_prefix_of(b.space.locals@),
        a.space.globals@.is_prefix_of(b.space.globals@),
        forall|j: int|
            0 <= j < other.code@.len() ==> #[trigger] relinked(other, names(a.space.locals@), j, b.code@[a.code@.len() + j],
                b.space.consts@, b.space.locals@, b.space.globals@, a.code@.len() as int),
    ensures
        cells_ok(b),
{
    let n = a.code@.len();
    assert forall|j: int| 0 <= j < b.code@.len() implies #[trigger] code_mergeable(b.code@[j], b, 0) && !is_jump(b.code@[j]) by {
        if j < n {
            assert(b.code@.subrange(0, n as int)[j] == b.code@[j]);
            assert(code_mergeable(a.code@[j], a, 0));
            assert(!is_jump(a.code@[j]));
            lemma_cell_ok_grow(a.code@[j], a, b);
        } else {
            let k = j - n;
            assert(relinked(other, names(a.space.locals@), k, b.code@[n + k], b.space.consts@, b.space.locals@,
                b.space.globals@, n as int));
            assert(code_mergeable(other.code@[k], other, 0));
            assert(!is_jump(other.code@[k]));
        }
    }
}

proof fn lemma_cells_ok_mergeable<V>(co: CodeObject<V>, offset: int)
    requires
        cells_ok(co),
    ensures
        mergeable(co, offset),
{
    assert forall|j: int| 0 <= j < co.code@.len() implies #[trigger] code_mergeable(co.code@[j], co, offset) by {
        assert(code_mergeable(co.code@[j], co, 0));
        assert(!is_jump(co.code@[j]));
    }
}

proof fn lemma_blocks_at<V>(bs: Seq<Block<V>>, k: int)
    requires
        0 <= k < bs.len(),
    ensures
        blocks_ok(bs) ==> block_ok(bs[k]),
        blocks_plain(bs) ==> block_plain(bs[k]),
    decreases k,
{
    if k > 0 {
        lemma_blocks_at(bs.drop_first(), k - 1);
        assert(bs.drop_first()[k - 1] == bs[k]);
    }
}

proof fn lemma_ops_emissions_push<V>(ops: Seq<Operation<V>>, op: Operation<V>)
    ensures
        ops_emissions(ops.push(op)) == ops_emissions(ops) + op_emissions(op),
{
    assert(ops.push(op).drop_last() =~= ops);
}

proof fn lemma_blocks_emissions_push<V>(bs: Seq<Block<V>>, b: Block<V>)
    ensures
        blocks_emissions(bs.push(b)) == blocks_emissions(bs) + match b {
            Block::Sequence(ops) => ops_emissions(ops@),
            _ => Seq::empty(),
        },
{
    assert(bs.push(b).drop_last() =~= bs);
}

/// Translates the blocks in order: the operations of a sequence are
/// translated, an embedded block definition is built and merged, and a
/// branch is left out.
fn translate_sequence<V: PartialEq + Clone>(func: &mut CodeObject<V>, blocks: &Vec<Block<V>>) -> (res: BuildResult<()>)
    requires
        blocks_ok(blocks@),
    ensures
        res is Ok,
        final(func).argc == old(func).argc,
        no_embedded(blocks@) ==> emitted(*old(func), *final(func), blocks_emissions(blocks@)),
        blocks_plain(blocks@) && cells_ok(*old(func)) ==> cells_ok(*final(func)),
        exists|objs: Seq<CodeObject<V>>, w: BuildWitness<V>|
            #[trigger] path_built(objs, blocks@, Seq::empty(), w) && objs[0] == *old(func) && objs[blocks@.len() as int]
                == *final(func) && forall|p: Seq<int>| #[trigger] w.dom().contains(p) ==> p.len() >= 1,
    decreases blocks, 1int,
{
    let n = blocks.len();
    let mut k: usize = 0;
    let ghost mut objs: Seq<CodeObject<V>> = seq![*func];
    let ghost mut w: BuildWitness<V> = Map::empty();
    proof {
        lemma_emitted_nothing(*old(func));
        assert(blocks@.subrange(0, 0) =~= Seq::<Block<V>>::empty());
    }
    while k < n
        invariant
            k <= n,
            n == blocks@.len(),
            blocks_ok(blocks@),
            func.argc == old(func).argc,
            no_embedded(blocks@.subrange(0, k as int)) ==> emitted(*old(func), *func, blocks_emissions(blocks@.subrange(0, k as int))),
            blocks_plain(blocks@) && cells_ok(*old(func)) ==> cells_ok(*func),
            objs.len() == k + 1,
            objs[0] == *old(func),
            objs[k as int] == *func,
            path_built(objs, blocks@.subrange(0, k as int), Seq::empty(), w),
            forall|p: Seq<int>| #[trigger] w.dom().contains(p) ==> p.len() >= 1 && p[0] < k,
        decreases n - k,
    {
        let ghost pre = blocks@.subrange(0, k as int);
        let ghost start = *func;
        let ghost mut w2 = w;
        proof {
            lemma_blocks_at(blocks@, k as int);
            assert(blocks@.subrange(0, k + 1) =~= pre.push(blocks@[k as int]));
            lemma_blocks_emissions_push(pre, blocks@[k as int]);
            if no_embedded(pre.push(blocks@[k as int])) {
                assert(pre.push(blocks@[k as int])[k as int] == blocks@[k as int]);
                assert(no_embedded(pre)) by {
                    assert forall|i: int| 0 <= i < pre.len() implies !(#[trigger] pre[i] is Embedded) by {
                        assert(pre.push(blocks@[k as int])[i] == pre[i]);
                    }
                }
            }
            assert(decreases_to!(blocks => blocks@));
            assert(decreases_to!(blocks@ => blocks@[k as int]));
        }
        match &blocks[k] {
            Block::Branch(_) => {
                proof {
                    assert(blocks_emissions(pre) + Seq::<Emission<V>>::empty() =~= blocks_emissions(pre));
                }
            },
            Block::Embedded(bl) => {
                proof {
                    assert(decreases_to!(blocks@[k as int] => **bl));
                }
                let res = bl.build(false);
                let co = match res {
                    Ok(co) => co,
                    Err(_) => vstd::pervasive::unreached(),
                };
                proof {
                    lemma_cells_ok_mergeable(co, func.code@.len() as int);
                }
                let ghost before = *func;
                func.merge(&co);
                proof {
                    assert(blocks@[k as int] == Block::Embedded(*bl));
                    let w_in = choose|w_in: BuildWitness<V>|
                        #[trigger] def_built(**bl, Seq::empty(), w_in) && w_in[Seq::empty()].last() == co;
                    let r = seq![k as int];
                    let sh = shifted(w_in, r);
                    lemma_shift_def(**bl, Seq::empty(), w_in, r);
                    assert(r + Seq::<int>::empty() =~= r);
                    lemma_shift_at(w_in, r, Seq::empty());
                    w2 = w.union_prefer_right(sh);
                    assert(agree_from(sh, w2, r)) by {
                        assert forall|p: Seq<int>| #[trigger] extends(p, r) implies (sh.dom().contains(p) == w2.dom().contains(p) && (
                        sh.dom().contains(p) ==> sh[p] == w2[p])) by {
                            assert(p[0] == p.subrange(0, 1)[0]);
                            if w.dom().contains(p) {
                                assert(p[0] < k);
                            }
                        }
                    }
                    lemma_frame_def(**bl, r, sh, w2);
                    assert(block_built(before, *func, blocks@[k as int], Seq::<int>::empty().push(k as int), w2)) by {
                        assert(Seq::<int>::empty().push(k as int) =~= r);
                    }
                    if blocks_plain(blocks@) && cells_ok(*old(func)) {
                        lemma_merged_cells_ok(before, co, *func);
                    }
                    assert(!no_embedded(pre.push(blocks@[k as int]))) by {
                        assert(pre.push(blocks@[k as int])[k as int] is Embedded);
                    }
                }
            },
            Block::Sequence(ops) => {
                let m = ops.len();
                let mut j: usize = 0;
                proof {
                    lemma_emitted_nothing(start);
                    assert(ops@.subrange(0, 0) =~= Seq::<Operation<V>>::empty());
                }
                while j < m
                    invariant
                        j <= m,
                        m == ops@.len(),
                        forall|t: int| 0 <= t < ops@.len() ==> op_ok(#[trigger] ops@[t]),
                        blocks_plain(blocks@) ==> forall|t: int| 0 <= t < ops@.len() ==> op_plain(#[trigger] ops@[t]),
                        func.argc == start.argc,
                        emitted(start, *func, ops_emissions(ops@.subrange(0, j as int))),
                        blocks_plain(blocks@) && cells_ok(start) ==> cells_ok(*func),
                    decreases m - j,
                {
                    let ghost mid = *func;
                    proof {
                        assert(ops@.subrange(0, j + 1) =~= ops@.subrange(0, j as int).push(ops@[j as int]));
                        lemma_ops_emissions_push(ops@.subrange(0, j as int), ops@[j as int]);
                        assert(op_ok(ops@[j as int]));
                    }
                    let _ = translate_operation(func, &ops[j]);
                    proof {
                        lemma_emitted_trans(start, mid, *func, ops_emissions(ops@.subrange(0, j as int)), op_emissions(ops@[j as int]));
                        if blocks_plain(blocks@) && cells_ok(start) {
                            lemma_op_plain(ops@[j as int]);
                            lemma_emitted_cells_ok(mid, *func, op_emissions(ops@[j as int]));
                        }
                    }
                    j += 1;
                }
                proof {
                    assert(ops@.subrange(0, m as int) =~= ops@);
                    if no_embedded(pre.push(blocks@[k as int])) {
                        lemma_emitted_trans(*old(func), start, *func, blocks_emissions(pre), ops_emissions(ops@));
                    }
                }
            },
        }
        proof {
            let e = Seq::<int>::empty();
            assert(block_built(start, *func, blocks@[k as int], e.push(k as int), w2));
            assert forall|j: int| 0 <= j < pre.len() implies #[trigger] agree_from(w, w2, e.push(j)) by {
                assert forall|p: Seq<int>| #[trigger] extends(p, e.push(j)) implies (w.dom().contains(p) == w2.dom().contains(p) && (
                w.dom().contains(p) ==> w[p] == w2[p])) by {
                    assert(p[0] == p.subrange(0, 1)[0]);
                    assert(e.push(j)[0] == j);
                    if w2.dom().contains(p) && !w.dom().contains(p) {
                        assert(extends(p, seq![k as int]));
                        assert(p.subrange(0, 1)[0] == k);
                    }
                    if w.dom().contains(p) && w2 != w {
                        if !(w2[p] == w[p]) {
                            assert(extends(p, seq![k as int]));
                            assert(p.subrange(0, 1)[0] == k);
                        }
                    }
                }
            }
            lemma_frame_path(objs, pre, e, w, w2);
            let objs0 = objs;
            objs = objs.push(*func);
            let bs = blocks@.subrange(0, k + 1);
            assert(bs.drop_last() =~= pre);
            assert(objs.drop_last() =~= objs0);
            assert(bs.last() == blocks@[k as int]);
            assert(path_built(objs, bs, e, w2));
            assert forall|p: Seq<int>| #[trigger] w2.dom().contains(p) implies p.len() >= 1 && p[0] < k + 1 by {
                if !w.dom().contains(p) {
                    assert(extends(p, seq![k as int]));
                    assert(p.subrange(0, 1)[0] == k);
                }
            }
            w = w2;
        }
        k += 1;
    }
    proof {
        assert(blocks@.subrange(0, n as int) =~= blocks@);
        assert(path_built(objs, blocks@, Seq::empty(), w));
    }
    Ok(())
}

impl<V> Branch<V> {
    /// A branch on `cond` to `tblock`, or else to `fblock` when there is one.
    pub fn new(cond: BlockDef<V>, tblock: BlockDef<V>, fblock: Option<BlockDef<V>>) -> (res: Self)
        ensures
            res.cond == cond,
            res.tblock == tblock,
            res.fblock == fblock,
    {
        Branch { cond, tblock, fblock }
    }
}

impl<V: PartialEq + Clone> BlockDef<V> {
    /// An empty block definition without arguments.
    pub fn new() -> (res: Self)
        ensures
            res.argc == 0,
            res.blocks@.len() == 0,
            res.offsets@.len() == 0,
    {
        BlockDef { argc: 0, blocks: Vec::new(), offsets: Vec::new() }
    }

    /// Appends a block.
    pub fn step(&mut self, smth: Block<V>)
        ensures
            final(self).argc == old(self).argc,
            final(self).blocks@ == old(self).blocks@.push(smth),
            final(self).offsets == old(self).offsets,
    {
        self.blocks.push(smth)
    }

    /// Appends a branch on `cond` to `tblock`, or else to `fblock`.
    pub fn branch(&mut self, cond: BlockDef<V>, tblock: BlockDef<V>, fblock: Option<BlockDef<V>>)
        ensures
            final(self).argc == old(self).argc,
            final(self).offsets == old(self).offsets,
            final(self).blocks@.len() == old(self).blocks@.len() + 1,
            final(self).blocks@.drop_last() == old(self).blocks@,
            final(self).blocks@.last() matches Block::Branch(b) && b.cond == cond && b.tblock == tblock && b.fblock == fblock,
    {
        let branch = Branch::new(cond, tblock, fblock);
        self.step(Block::Branch(Box::new(branch)));
        proof {
            assert(self.blocks@.drop_last() =~= old(self).blocks@);
        }
    }

    /// Sets the argument count to the number of parameters.
    pub fn with_params(&mut self, params: Vec<String>) -> (res: &mut Self)
        ensures
            res.argc == params@.len(),
            res.blocks == old(self).blocks,
            res.offsets == old(self).offsets,
            *final(self) == *final(res),
    {
        self.with_params_loose(params)
    }

    /// Sets the argument count to the number of parameters.
    pub fn with_params_loose(&mut self, params: Vec<String>) -> (res: &mut Self)
        ensures
            res.argc == params@.len(),
            res.blocks == old(self).blocks,
            res.offsets == old(self).offsets,
            *final(self) == *final(res),
    {
        self.argc = params.len();
        self
    }

    /// The jumps of the block with their targets resolved for a block of
    /// `codelen` instructions: an index as it is, the start as 0 and the end
    /// as `codelen`.
    pub fn compute_offsets(&self, codelen: usize) -> (res: Vec<(usize, usize)>)
        requires
            offsets_ok(self.offsets@),
        ensures
            res@.len() == self.offsets@.len(),
            forall|i: int| 0 <= i < res@.len() ==> #[trigger] res@[i] == (self.offsets@[i].0, resolved_target(
                self.offsets@[i].1, codelen)),
    {
        let mut res: Vec<(usize, usize)> = Vec::new();
        let n = self.offsets.len();
        let mut i: usize = 0;
        while i < n
            invariant
                i <= n,
                n == self.offsets@.len(),
                offsets_ok(self.offsets@),
                res@.len() == i,
                forall|t: int| 0 <= t < i ==> #[trigger] res@[t] == (self.offsets@[t].0, resolved_target(self.offsets@[t].1,
                    codelen)),
            decreases n - i,
        {
            let location = self.offsets[i].0;
            let target = match &self.offsets[i].1 {
                LinkTarget::Index(idx) => *idx,
                LinkTarget::Location(BranchLocation::Start) => 0,
                LinkTarget::Location(BranchLocation::End) => codelen,
                _ => vstd::pervasive::unreached(),
            };
            res.push((location, target));
            i += 1;
        }
        res
    }

    /// Builds the code object of the block definition: its blocks are
    /// translated into a fresh code object without arguments, one after the
    /// other; a branch adds nothing, a sequence emits its operations, and an
    /// embedded definition is built the same way and merged in (`built`).
    pub fn build(&self, _ensure_ret: bool) -> (res: BuildResult<CodeObject<V>>)
        requires
            bd_ok(*self),
        ensures
            res matches Ok(co) && {
                &&& co.argc == 0
                &&& no_embedded(self.blocks@) ==> {
                    let es = blocks_emissions(self.blocks@);
                    &&& co.space.locals@.len() == 0
                    &&& co.code@.len() == es.len()
                    &&& forall|k: int| 0 <= k < es.len() ==> #[trigger] emits_cell(es[k], co.code@[k], Seq::empty(),
                        co.space.consts@, co.space.globals@)
                    &&& steps_between(es, co.code@, Seq::empty(), Seq::empty(), Seq::empty(), co.space.consts@,
                        co.space.globals@)
                }
                &&& bd_plain(*self) ==> cells_ok(co)
                &&& built(*self, co)
            },
        decreases *self, 2int,
    {
        let mut func: CodeObject<V> = CodeObject::new();
        let ghost empty = func;
        proof {
            assert(decreases_to!(*self => self.blocks));
            assert(names(empty.space.locals@) =~= Seq::<Seq<char>>::empty());
        }
        let _ = translate_sequence(&mut func, &self.blocks);
        let _final_offsets = self.compute_offsets(func.code.len());
        proof {
            assert(fresh(empty));
            let (objs, w) = choose|objs: Seq<CodeObject<V>>, w: BuildWitness<V>|
                #[trigger] path_built(objs, self.blocks@, Seq::empty(), w) && objs[0] == empty && objs[self.blocks@.len() as int]
                    == func && forall|p: Seq<int>| #[trigger] w.dom().contains(p) ==> p.len() >= 1;
            let e = Seq::<int>::empty();
            let w2 = w.insert(e, objs);
            assert forall|j: int| 0 <= j < self.blocks@.len() implies #[trigger] agree_from(w, w2, e.push(j)) by {
                assert forall|p: Seq<int>| #[trigger] extends(p, e.push(j)) implies (w.dom().contains(p) == w2.dom().contains(p) && (
                w.dom().contains(p) ==> w[p] == w2[p])) by {
                    assert(p.len() >= 1);
                    assert(p != e);
                }
            }
            lemma_frame_path(objs, self.blocks@, e, w, w2);
            assert(def_built(*self, e, w2));
            assert(w2[e].last() == func);
            assert(built(*self, func));
            if no_embedded(self.blocks@) {
                let es = blocks_emissions(self.blocks@);
                assert forall|k: int| 0 <= k < es.len() implies #[trigger] emits_cell(es[k], func.code@[k], Seq::empty(),
                    func.space.consts@, func.space.globals@) by {
                    assert(emits_cell(es[k], func.code@[empty.code@.len() + k], names(empty.space.locals@), func.space.consts@,
                        func.space.globals@));
                }
                assert(func.code@.subrange(0, func.code@.len() as int) =~= func.code@);
                assert(empty.space.consts@ =~= Seq::<V>::empty());
                assert(empty.space.globals@ =~= Seq::<String>::empty());
            }
        }
        Ok(func)
    }
}

/// The position of the first name in `pool` equal to `name`.
pub open spec fn first_name_pos(pool: Seq<Seq<char>>, name: Seq<char>, k: int) -> bool {
    0 <= k < pool.len() && pool[k] == name && forall|t: int| 0 <= t < k ==> pool[t] != name
}

/// The position of the first name in `ls` equal to `name`.
fn position_of_name(ls: &Vec<String>, name: &String) -> (res: Option<usize>)
    ensures
        match res {
            Some(k) => first_name_pos(names(ls@), name@, k as int),
            None => !names(ls@).contains(name@),
        },
{
    let n = ls.len();
    let mut i: usize = 0;
    while i < n
        invariant
            n == ls@.len(),
            i <= n,
            forall|t: int| 0 <= t < i ==> names(ls@)[t] != name@,
        decreases n - i,
    {
        if ls[i] == *name {
            return Some(i);
        }
        i += 1;
    }
    None
}

/// Emits the instruction that reads (`Read`) or writes (`Write`) the operand `op`
/// in `func`: a name that is a local of `func` is accessed through its first local
/// slot, any other name through its global slot (interned into the globals), and a
/// constant is interned into the constants and pushed.
pub fn translate_operand<V: PartialEq + Clone>(func: &mut CodeObject<V>, op: &Operand<V>, acc: Access) -> (res: BuildResult<()>)
    ensures
        res is Ok,
        final(func).argc == old(func).argc,
        final(func).space.locals@ == old(func).space.locals@,
        final(func).code@ == old(func).code@.push(final(func).code@[old(func).code@.len() as int]),
        emits_step(
            Emission::Access(*op, acc),
            final(func).code@[old(func).code@.len() as int],
            names(old(func).space.locals@),
            old(func).space.consts@,
            old(func).space.globals@,
            final(func).space.consts@,
            final(func).space.globals@,
        ),
{
    let ghost consts0 = func.space.consts@;
    let ghost globals0 = func.space.globals@;
    let inx = match op {
        Operand::Name(n) => {
            match position_of_name(&func.space.locals, n) {
                Some(idx) => {
                    if acc == Access::Write {
                        Protocol::LPop(idx)
                    } else {
                        Protocol::LPush(idx)
                    }
                },
                None => {
                    let idx = name_index_of(&mut func.space.globals, n);
                    if acc == Access::Write {
                        Protocol::GPop(idx)
                    } else {
                        Protocol::GPush(idx)
                    }
                },
            }
        },
        Operand::Const(v) => {
            let idx = index_of(&mut func.space.consts, v);
            Protocol::CPush(idx)
        },
    };
    func.code.push(inx);
    proof {
        assert(func.code@ =~= old(func).code@.push(inx));
    }
    Ok(())
}

} // verus!
