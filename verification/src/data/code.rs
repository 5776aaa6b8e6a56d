use vstd::prelude::*;

use crate::data::space::Space;

verus! {

/// The bytecode of the virtual machine, generic over the type of the
/// instruction arguments.
#[derive(Clone, Copy, Debug, PartialEq, Eq, Structural)]
pub enum Protocol<T> {
    Dup,
    Inc,
    Dec,
    Add,
    Sub,
    Mul,
    Div,
    Rem,
    Pow,
    Neg,
    And,
    Or,
    Xor,
    Shl,
    Shr,
    CmpEq,
    CmpNe,
    CmpGe,
    CmpGt,
    CmpLe,
    CmpLt,
    Jmp(T),
    Jt(T),
    Jf(T),
    CPush(T),
    LPush(T),
    LPop(T),
    LCall(T),
    GPush(T),
    GPop(T),
    GCall(T),
    Cast(T),
    Int(T),
    Ret,
    Pusha,
    Popa,
    ONew(T),
    ONewArray,
    ONewDict,
    ODispose,
    OGet(T),
    OSet(T),
    OCall(T),
    OAppend,
}

/// The name of an instruction, as `{:?}` prints its variant.
pub open spec fn spec_code_name<T>(c: Protocol<T>) -> Seq<char> {
    match c {
        Protocol::Dup => "Dup"@,
        Protocol::Inc => "Inc"@,
        Protocol::Dec => "Dec"@,
        Protocol::Add => "Add"@,
        Protocol::Sub => "Sub"@,
        Protocol::Mul => "Mul"@,
        Protocol::Div => "Div"@,
        Protocol::Rem => "Rem"@,
        Protocol::Pow => "Pow"@,
        Protocol::Neg => "Neg"@,
        Protocol::And => "And"@,
        Protocol::Or => "Or"@,
        Protocol::Xor => "Xor"@,
        Protocol::Shl => "Shl"@,
        Protocol::Shr => "Shr"@,
        Protocol::CmpEq => "CmpEq"@,
        Protocol::CmpNe => "CmpNe"@,
        Protocol::CmpGe => "CmpGe"@,
        Protocol::CmpGt => "CmpGt"@,
        Protocol::CmpLe => "CmpLe"@,
        Protocol::CmpLt => "CmpLt"@,
        Protocol::Jmp(_) => "Jmp"@,
        Protocol::Jt(_) => "Jt"@,
        Protocol::Jf(_) => "Jf"@,
        Protocol::CPush(_) => "CPush"@,
        Protocol::LPush(_) => "LPush"@,
        Protocol::LPop(_) => "LPop"@,
        Protocol::LCall(_) => "LCall"@,
        Protocol::GPush(_) => "GPush"@,
        Protocol::GPop(_) => "GPop"@,
        Protocol::GCall(_) => "GCall"@,
        Protocol::Cast(_) => "Cast"@,
        Protocol::Int(_) => "Int"@,
        Protocol::Ret => "Ret"@,
        Protocol::Pusha => "Pusha"@,
        Protocol::Popa => "Popa"@,
        Protocol::ONew(_) => "ONew"@,
        Protocol::ONewArray => "ONewArray"@,
        Protocol::ONewDict => "ONewDict"@,
        Protocol::ODispose => "ODispose"@,
        Protocol::OGet(_) => "OGet"@,
        Protocol::OSet(_) => "OSet"@,
        Protocol::OCall(_) => "OCall"@,
        Protocol::OAppend => "OAppend"@,
    }
}

/// Instructions as they are stored in code objects: arguments are indices.
pub type Code = Protocol<usize>;

/// The argument of an instruction, if it has one.
pub open spec fn spec_code_arg(c: Code) -> Option<usize> {
    match c {
        Protocol::Int(a) | Protocol::Cast(a) | Protocol::Jmp(a) | Protocol::Jt(a)
        | Protocol::Jf(a) | Protocol::CPush(a) | Protocol::LPush(a) | Protocol::LPop(a)
        | Protocol::LCall(a) | Protocol::GPush(a) | Protocol::GPop(a) | Protocol::GCall(a)
        | Protocol::ONew(a) | Protocol::OGet(a) | Protocol::OSet(a) | Protocol::OCall(a) => Some(a),
        _ => None,
    }
}

/// The same instruction with its argument replaced (unchanged if it has none).
pub open spec fn spec_code_with_arg(c: Code, v: usize) -> Code {
    match c {
        Protocol::Int(_) => Protocol::Int(v),
        Protocol::Cast(_) => Protocol::Cast(v),
        Protocol::Jmp(_) => Protocol::Jmp(v),
        Protocol::Jt(_) => Protocol::Jt(v),
        Protocol::Jf(_) => Protocol::Jf(v),
        Protocol::CPush(_) => Protocol::CPush(v),
        Protocol::LPush(_) => Protocol::LPush(v),
        Protocol::LPop(_) => Protocol::LPop(v),
        Protocol::LCall(_) => Protocol::LCall(v),
        Protocol::GPush(_) => Protocol::GPush(v),
        Protocol::GPop(_) => Protocol::GPop(v),
        Protocol::GCall(_) => Protocol::GCall(v),
        Protocol::ONew(_) => Protocol::ONew(v),
        Protocol::OGet(_) => Protocol::OGet(v),
        Protocol::OSet(_) => Protocol::OSet(v),
        Protocol::OCall(_) => Protocol::OCall(v),
        other => other,
    }
}

impl Protocol<usize> {
    /// Returns the argument of the instruction, if it takes one.
    pub fn arg(&self) -> (res: Option<usize>)
        ensures
            res == spec_code_arg(*self),
    {
        match self {
            Protocol::Int(c) | Protocol::Cast(c) | Protocol::Jmp(c) | Protocol::Jt(c)
            | Protocol::Jf(c) | Protocol::CPush(c) | Protocol::LPush(c) | Protocol::LPop(c)
            | Protocol::LCall(c) | Protocol::GPush(c) | Protocol::GPop(c) | Protocol::GCall(c)
            | Protocol::ONew(c) | Protocol::OGet(c) | Protocol::OSet(c) | Protocol::OCall(c) => Some(*c),
            _ => None,
        }
    }

    /// Returns a mutable reference to the argument of the instruction, if it takes one.
    pub fn arg_mut(&mut self) -> (res: Option<&mut usize>)
        ensures
            spec_code_arg(*old(self)) is None ==> res is None && *final(self) == *old(self),
            spec_code_arg(*old(self)) matches Some(a) ==> res matches Some(r) && *r == a
                && *final(self) == spec_code_with_arg(*old(self), *final(r)),
    {
        match self {
            Protocol::Int(c) => Some(c),
            Protocol::Cast(c) => Some(c),
            Protocol::Jmp(c) => Some(c),
            Protocol::Jt(c) => Some(c),
            Protocol::Jf(c) => Some(c),
            Protocol::CPush(c) => Some(c),
            Protocol::LPush(c) => Some(c),
            Protocol::LPop(c) => Some(c),
            Protocol::LCall(c) => Some(c),
            Protocol::GPush(c) => Some(c),
            Protocol::GPop(c) => Some(c),
            Protocol::GCall(c) => Some(c),
            Protocol::ONew(c) => Some(c),
            Protocol::OGet(c) => Some(c),
            Protocol::OSet(c) => Some(c),
            Protocol::OCall(c) => Some(c),
            _ => None,
        }
    }

    /// Returns the number of arguments the instruction takes.
    pub fn arguments(&self) -> (res: usize)
        ensures
            res == (if spec_code_arg(*self) is Some { 1usize } else { 0usize }),
    {
        match self {
            Protocol::Int(_) | Protocol::Cast(_) | Protocol::Jmp(_) | Protocol::Jt(_)
            | Protocol::Jf(_) | Protocol::CPush(_) | Protocol::LPush(_) | Protocol::LPop(_)
            | Protocol::LCall(_) | Protocol::GPush(_) | Protocol::GPop(_) | Protocol::GCall(_)
            | Protocol::ONew(_) | Protocol::OGet(_) | Protocol::OSet(_) | Protocol::OCall(_) => 1,
            _ => 0,
        }
    }
}

/// An executable bytecode unit: its argument count, the pools its
/// instructions index into, and the instructions.
#[derive(Clone, Debug)]
pub struct CodeObject<V> {
    pub argc: usize,
    pub space: Space<V>,
    pub code: Vec<Code>,
}

impl<V: PartialEq + Clone> CodeObject<V> {
    /// An empty code object that takes no arguments.
    pub fn new() -> (co: Self)
        ensures
            co.argc == 0,
            co.space.consts@.len() == 0,
            co.space.locals@.len() == 0,
            co.space.globals@.len() == 0,
            co.code@.len() == 0,
    {
        CodeObject { argc: 0, space: Space::new(), code: Vec::new() }
    }
}

/// Replacing the argument of an instruction and reading it back gives the new
/// argument; an instruction without an argument is left as it is; and putting
/// back the argument it had gives the instruction itself.
pub proof fn lemma_code_arg_roundtrip(c: Code, v: usize)
    ensures
        spec_code_arg(c) is Some ==> spec_code_arg(spec_code_with_arg(c, v)) == Some(v),
        spec_code_arg(c) is None ==> spec_code_with_arg(c, v) == c,
        spec_code_arg(c) matches Some(a) ==> spec_code_with_arg(c, a) == c,
{
}

} // verus!
