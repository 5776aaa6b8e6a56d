use vstd::prelude::*;

use crate::code::Instruction;

verus! {

/// The kinds of operations the code generator understands.
#[derive(Clone, Copy, Debug, PartialEq, Eq, Structural)]
pub enum OperationType {
    Ass,
    Debug,
    Call,
    Ret,
    Push,
    Pop,
    ONew,
    ONewArray,
    ONewDict,
    ODispose,
    OAppend,
    OGet,
    OSet,
    CmpEq,
    CmpNe,
    CmpGe,
    CmpGt,
    CmpLe,
    CmpLt,
    Jmp,
    Jt,
    Jf,
    Add,
    Sub,
    Mul,
    Div,
    Rem,
    Pow,
    Neg,
    And,
    Or,
    Xor,
    Shl,
    Shr,
}

/// The name of a kind of operation, as `{:?}` prints its variant.
pub open spec fn spec_op_type_name(ty: OperationType) -> Seq<char> {
    match ty {
        OperationType::Ass => "Ass"@,
        OperationType::Debug => "Debug"@,
        OperationType::Call => "Call"@,
        OperationType::Ret => "Ret"@,
        OperationType::Push => "Push"@,
        OperationType::Pop => "Pop"@,
        OperationType::ONew => "ONew"@,
        OperationType::ONewArray => "ONewArray"@,
        OperationType::ONewDict => "ONewDict"@,
        OperationType::ODispose => "ODispose"@,
        OperationType::OAppend => "OAppend"@,
        OperationType::OGet => "OGet"@,
        OperationType::OSet => "OSet"@,
        OperationType::CmpEq => "CmpEq"@,
        OperationType::CmpNe => "CmpNe"@,
        OperationType::CmpGe => "CmpGe"@,
        OperationType::CmpGt => "CmpGt"@,
        OperationType::CmpLe => "CmpLe"@,
        OperationType::CmpLt => "CmpLt"@,
        OperationType::Jmp => "Jmp"@,
        OperationType::Jt => "Jt"@,
        OperationType::Jf => "Jf"@,
        OperationType::Add => "Add"@,
        OperationType::Sub => "Sub"@,
        OperationType::Mul => "Mul"@,
        OperationType::Div => "Div"@,
        OperationType::Rem => "Rem"@,
        OperationType::Pow => "Pow"@,
        OperationType::Neg => "Neg"@,
        OperationType::And => "And"@,
        OperationType::Or => "Or"@,
        OperationType::Xor => "Xor"@,
        OperationType::Shl => "Shl"@,
        OperationType::Shr => "Shr"@,
    }
}

/// An operand of an operation: a constant value or a name.
#[derive(Clone, Debug)]
pub enum Operand<V> {
    Const(V),
    Name(String),
}

impl<V> Operand<V> {
    /// The constant this operand holds.
    pub fn as_const(&self) -> (v: &V)
        requires
            self is Const,
        ensures
            *v == self->Const_0,
    {
        match self {
            Operand::Const(v) => v,
            Operand::Name(_) => vstd::pervasive::unreached(),
        }
    }
}

/// An argument of an operation: an operand, or a nested operation.
#[derive(Debug)]
pub enum OpValue<V> {
    Operand(Operand<V>),
    Operation(Operation<V>),
}

/// An operation of the intermediate language: its kind and its arguments, the
/// first of which is its target where it has one.
#[derive(Debug)]
pub struct Operation<V> {
    pub ops: Vec<OpValue<V>>,
    pub ty: OperationType,
}

/// The instruction an operation of kind `ty` maps to directly, if any.
pub open spec fn spec_op_inx(ty: OperationType) -> Option<Instruction> {
    match ty {
        OperationType::CmpEq => Some(Instruction::CmpEq),
        OperationType::CmpNe => Some(Instruction::CmpNe),
        OperationType::CmpGe => Some(Instruction::CmpGe),
        OperationType::CmpGt => Some(Instruction::CmpGt),
        OperationType::CmpLe => Some(Instruction::CmpLe),
        OperationType::CmpLt => Some(Instruction::CmpLt),
        OperationType::Add => Some(Instruction::Add),
        OperationType::Sub => Some(Instruction::Sub),
        OperationType::Mul => Some(Instruction::Mul),
        OperationType::Div => Some(Instruction::Div),
        OperationType::Rem => Some(Instruction::Rem),
        OperationType::Pow => Some(Instruction::Pow),
        OperationType::Neg => Some(Instruction::Neg),
        OperationType::And => Some(Instruction::And),
        OperationType::Or => Some(Instruction::Or),
        OperationType::Xor => Some(Instruction::Xor),
        OperationType::Shl => Some(Instruction::Shl),
        OperationType::Shr => Some(Instruction::Shr),
        OperationType::ODispose => Some(Instruction::ODispose),
        _ => None,
    }
}

impl<V> Operation<V> {
    /// An operation of kind `ty` without arguments.
    pub fn new(ty: OperationType) -> (res: Self)
        ensures
            res.ty == ty,
            res.ops@.len() == 0,
    {
        Operation { ops: Vec::new(), ty }
    }

    /// The instruction the operation maps to directly, if any.
    pub fn as_inx(&self) -> (res: Option<Instruction>)
        ensures
            res == spec_op_inx(self.ty),
    {
        match self.ty {
            OperationType::CmpEq => Some(Instruction::CmpEq),
            OperationType::CmpNe => Some(Instruction::CmpNe),
            OperationType::CmpGe => Some(Instruction::CmpGe),
            OperationType::CmpGt => Some(Instruction::CmpGt),
            OperationType::CmpLe => Some(Instruction::CmpLe),
            OperationType::CmpLt => Some(Instruction::CmpLt),
            OperationType::Add => Some(Instruction::Add),
            OperationType::Sub => Some(Instruction::Sub),
            OperationType::Mul => Some(Instruction::Mul),
            OperationType::Div => Some(Instruction::Div),
            OperationType::Rem => Some(Instruction::Rem),
            OperationType::Pow => Some(Instruction::Pow),
            OperationType::Neg => Some(Instruction::Neg),
            OperationType::And => Some(Instruction::And),
            OperationType::Or => Some(Instruction::Or),
            OperationType::Xor => Some(Instruction::Xor),
            OperationType::Shl => Some(Instruction::Shl),
            OperationType::Shr => Some(Instruction::Shr),
            OperationType::ODispose => Some(Instruction::ODispose),
            _ => None,
        }
    }

    /// Appends the name `name` as an argument.
    pub fn var(&mut self, name: &str) -> (res: &mut Self)
        ensures
            res.ty == old(self).ty,
            res.ops@.len() == old(self).ops@.len() + 1,
            res.ops@.subrange(0, old(self).ops@.len() as int) == old(self).ops@,
            res.ops@.last() matches OpValue::Operand(Operand::Name(n)) && n@ == name@,
            *final(self) == *final(res),
    {
        let ghost before = self.ops@;
        self.ops.push(OpValue::Operand(Operand::Name(String::from_str(name))));
        assert(self.ops@.subrange(0, before.len() as int) =~= before);
        self
    }

    /// Appends the argument `op`.
    pub fn op(&mut self, op: OpValue<V>) -> (res: &mut Self)
        ensures
            res.ty == old(self).ty,
            res.ops@ == old(self).ops@.push(op),
            *final(self) == *final(res),
    {
        self.ops.push(op);
        self
    }

    /// The target of the operation: its first argument, when that is an operand.
    pub fn target(&self) -> (res: Option<&Operand<V>>)
        ensures
            match res {
                Some(t) => self.ops@.len() > 0 && self.ops@[0] == OpValue::Operand(*t),
                None => self.ops@.len() == 0 || self.ops@[0] is Operation,
            },
    {
        if self.ops.len() == 0 {
            return None;
        }
        match &self.ops[0] {
            OpValue::Operand(t) => Some(t),
            OpValue::Operation(_) => None,
        }
    }

    /// The arguments of the operation.
    pub fn ops(&self) -> (res: &[OpValue<V>])
        ensures
            res@ == self.ops@,
    {
        self.ops.as_slice()
    }

    /// The arguments after the first (the target).
    pub fn rest(&self) -> (res: &[OpValue<V>])
        ensures
            self.ops@.len() > 0 ==> res@ == self.ops@.drop_first(),
            self.ops@.len() == 0 ==> res@.len() == 0,
    {
        let n = self.ops.len();
        if n == 0 {
            self.ops.as_slice()
        } else {
            vstd::slice::slice_subrange(self.ops.as_slice(), 1, n)
        }
    }
}

/// A call of the function named `fname`.
pub fn call<V>(fname: &str) -> (res: Operation<V>)
    ensures
        res.ty == OperationType::Call,
        res.ops@.len() == 1,
        res.ops@[0] matches OpValue::Operand(Operand::Name(n)) && n@ == fname@,
{
    let mut op = Operation::new(OperationType::Call);
    op.var(fname);
    op
}

/// The constants an argument holds, nested operations searched in order.
pub open spec fn value_consts<V>(v: OpValue<V>) -> Seq<V>
    decreases v, 0int,
{
    match v {
        OpValue::Operand(Operand::Const(c)) => seq![c],
        OpValue::Operand(Operand::Name(_)) => Seq::empty(),
        OpValue::Operation(op) => op_consts(op),
    }
}

/// The constants the arguments `ops` hold, in order.
pub open spec fn ops_consts<V>(ops: Seq<OpValue<V>>) -> Seq<V>
    decreases ops, 1int,
{
    if ops.len() == 0 {
        Seq::empty()
    } else {
        value_consts(ops[0]) + ops_consts(ops.drop_first())
    }
}

/// The constants an operation holds, nested operations searched in order.
pub open spec fn op_consts<V>(op: Operation<V>) -> Seq<V>
    decreases op, 2int,
{
    ops_consts(op.ops@)
}

/// The names an argument holds, nested operations searched in order.
pub open spec fn value_names<V>(v: OpValue<V>) -> Seq<String>
    decreases v, 0int,
{
    match v {
        OpValue::Operand(Operand::Name(n)) => seq![n],
        OpValue::Operand(Operand::Const(_)) => Seq::empty(),
        OpValue::Operation(op) => op_names(op),
    }
}

/// The names the arguments `ops` hold, in order.
pub open spec fn ops_names<V>(ops: Seq<OpValue<V>>) -> Seq<String>
    decreases ops, 1int,
{
    if ops.len() == 0 {
        Seq::empty()
    } else {
        value_names(ops[0]) + ops_names(ops.drop_first())
    }
}

/// The names an operation holds, nested operations searched in order.
pub open spec fn op_names<V>(op: Operation<V>) -> Seq<String>
    decreases op, 2int,
{
    ops_names(op.ops@)
}

/// The values behind a sequence of references.
pub open spec fn derefs<T>(s: Seq<&T>) -> Seq<T> {
    s.map_values(|r: &T| *r)
}

proof fn lemma_ops_push<V>(s: Seq<OpValue<V>>, x: OpValue<V>)
    ensures
        ops_consts(s.push(x)) == ops_consts(s) + value_consts(x),
        ops_names(s.push(x)) == ops_names(s) + value_names(x),
    decreases s.len(),
{
    let q = s.push(x);
    if s.len() == 0 {
        assert(q.drop_first() =~= Seq::<OpValue<V>>::empty());
        assert(q[0] == x);
        assert(ops_consts(q.drop_first()) == Seq::<V>::empty());
        assert(ops_names(q.drop_first()) == Seq::<String>::empty());
        assert(ops_consts(q) =~= value_consts(x));
        assert(ops_names(q) =~= value_names(x));
    } else {
        assert(q.drop_first() =~= s.drop_first().push(x));
        assert(q[0] == s[0]);
        lemma_ops_push(s.drop_first(), x);
        assert(ops_consts(q) =~= ops_consts(s) + value_consts(x));
        assert(ops_names(q) =~= ops_names(s) + value_names(x));
    }
}

/// Appends the constants an argument holds.
fn push_value_consts<'a, V>(v: &'a OpValue<V>, out: &mut Vec<&'a V>)
    ensures
        derefs(final(out)@) == derefs(old(out)@) + value_consts(*v),
    decreases *v, 0int,
{
    match v {
        OpValue::Operand(Operand::Const(c)) => {
            out.push(c);
            proof {
                assert(derefs(out@) =~= derefs(old(out)@) + value_consts(*v));
            }
        },
        OpValue::Operand(Operand::Name(_)) => {
            assert(derefs(out@) =~= derefs(old(out)@) + value_consts(*v));
        },
        OpValue::Operation(op) => {
            push_op_consts(op, out);
        },
    }
}

/// Appends the constants an operation holds.
fn push_op_consts<'a, V>(op: &'a Operation<V>, out: &mut Vec<&'a V>)
    ensures
        derefs(final(out)@) == derefs(old(out)@) + op_consts(*op),
    decreases *op, 1int,
{
    let n = op.ops.len();
    let mut k: usize = 0;
    proof {
        assert(op.ops@.subrange(0, 0) =~= Seq::<OpValue<V>>::empty());
        assert(derefs(out@) =~= derefs(old(out)@) + ops_consts(op.ops@.subrange(0, 0)));
    }
    while k < n
        invariant
            k <= n,
            n == op.ops@.len(),
            derefs(out@) == derefs(old(out)@) + ops_consts(op.ops@.subrange(0, k as int)),
        decreases n - k,
    {
        proof {
            lemma_ops_push(op.ops@.subrange(0, k as int), op.ops@[k as int]);
            assert(op.ops@.subrange(0, k + 1) =~= op.ops@.subrange(0, k as int).push(op.ops@[k as int]));
            assert(decreases_to!(*op => op.ops));
            assert(decreases_to!(op.ops => op.ops@));
            assert(decreases_to!(op.ops@ => op.ops@[k as int]));
        }
        push_value_consts(&op.ops[k], out);
        k += 1;
    }
    proof {
        assert(op.ops@.subrange(0, n as int) =~= op.ops@);
    }
}

/// Appends the names an argument holds.
fn push_value_names<'a, V>(v: &'a OpValue<V>, out: &mut Vec<&'a String>)
    ensures
        derefs(final(out)@) == derefs(old(out)@) + value_names(*v),
    decreases *v, 0int,
{
    match v {
        OpValue::Operand(Operand::Name(name)) => {
            out.push(name);
            proof {
                assert(derefs(out@) =~= derefs(old(out)@) + value_names(*v));
            }
        },
        OpValue::Operand(Operand::Const(_)) => {
            assert(derefs(out@) =~= derefs(old(out)@) + value_names(*v));
        },
        OpValue::Operation(op) => {
            push_op_names(op, out);
        },
    }
}

/// Appends the names an operation holds.
fn push_op_names<'a, V>(op: &'a Operation<V>, out: &mut Vec<&'a String>)
    ensures
        derefs(final(out)@) == derefs(old(out)@) + op_names(*op),
    decreases *op, 1int,
{
    let n = op.ops.len();
    let mut k: usize = 0;
    proof {
        assert(op.ops@.subrange(0, 0) =~= Seq::<OpValue<V>>::empty());
        assert(derefs(out@) =~= derefs(old(out)@) + ops_names(op.ops@.subrange(0, 0)));
    }
    while k < n
        invariant
            k <= n,
            n == op.ops@.len(),
            derefs(out@) == derefs(old(out)@) + ops_names(op.ops@.subrange(0, k as int)),
        decreases n - k,
    {
        proof {
            lemma_ops_push(op.ops@.subrange(0, k as int), op.ops@[k as int]);
            assert(op.ops@.subrange(0, k + 1) =~= op.ops@.subrange(0, k as int).push(op.ops@[k as int]));
            assert(decreases_to!(*op => op.ops));
            assert(decreases_to!(op.ops => op.ops@));
            assert(decreases_to!(op.ops@ => op.ops@[k as int]));
        }
        push_value_names(&op.ops[k], out);
        k += 1;
    }
    proof {
        assert(op.ops@.subrange(0, n as int) =~= op.ops@);
    }
}

impl<V> Operation<V> {
    /// The constants the operation holds, nested operations searched in order.
    pub fn consts(&self) -> (res: Vec<&V>)
        ensures
            derefs(res@) == op_consts(*self),
    {
        let mut out: Vec<&V> = Vec::new();
        proof {
            assert(derefs(out@) =~= Seq::<V>::empty());
        }
        push_op_consts(self, &mut out);
        proof {
            assert(Seq::<V>::empty() + op_consts(*self) =~= op_consts(*self));
        }
        out
    }

    /// The names the operation holds, nested operations searched in order.
    pub fn idents(&self) -> (res: Vec<&String>)
        ensures
            derefs(res@) == op_names(*self),
    {
        let mut out: Vec<&String> = Vec::new();
        proof {
            assert(derefs(out@) =~= Seq::<String>::empty());
        }
        push_op_names(self, &mut out);
        proof {
            assert(Seq::<String>::empty() + op_names(*self) =~= op_names(*self));
        }
        out
    }
}

} // verus!
