use vstd::prelude::*;

use crate::data::space::Space;

verus! {

/// The flat instruction set of the first bytecode generation: arguments are
/// indices into the constant, local and global pools of a code object.
#[derive(Clone, Copy, Debug, PartialEq, Eq, Structural)]
pub enum Instruction {
    Inc,
    Dec,
    Add,
    Sub,
    Mul,
    Div,
    Rem,
    Pow,
    Neg,
    And,
    Or,
    Xor,
    Shl,
    Shr,
    CmpEq,
    CmpNe,
    CmpGe,
    CmpGt,
    CmpLe,
    CmpLt,
    Jmp(usize),
    Jt(usize),
    Jf(usize),
    CPush(usize),
    LPush(usize),
    LPop(usize),
    LCall(usize),
    GPush(usize),
    GPop(usize),
    GCall(usize),
    Cast(usize),
    Int(usize),
    Ret,
    Pusha,
    Popa,
    ONew,
    ONewArray,
    ODispose,
    OGet(usize),
    OSet(usize),
    OCall(usize),
    OAppend,
}

/// The argument of an instruction, if it has one.
pub open spec fn spec_instruction_arg(i: Instruction) -> Option<usize> {
    match i {
        Instruction::Int(a) => Some(a),
        Instruction::Cast(a) => Some(a),
        Instruction::Jmp(a) => Some(a),
        Instruction::Jt(a) => Some(a),
        Instruction::Jf(a) => Some(a),
        Instruction::CPush(a) => Some(a),
        Instruction::LPush(a) => Some(a),
        Instruction::LPop(a) => Some(a),
        Instruction::LCall(a) => Some(a),
        Instruction::GPush(a) => Some(a),
        Instruction::GPop(a) => Some(a),
        Instruction::GCall(a) => Some(a),
        Instruction::OGet(a) => Some(a),
        Instruction::OSet(a) => Some(a),
        Instruction::OCall(a) => Some(a),
        _ => None,
    }
}

/// The same instruction with its argument replaced (unchanged if it has none).
pub open spec fn spec_instruction_with_arg(i: Instruction, v: usize) -> Instruction {
    match i {
        Instruction::Int(_) => Instruction::Int(v),
        Instruction::Cast(_) => Instruction::Cast(v),
        Instruction::Jmp(_) => Instruction::Jmp(v),
        Instruction::Jt(_) => Instruction::Jt(v),
        Instruction::Jf(_) => Instruction::Jf(v),
        Instruction::CPush(_) => Instruction::CPush(v),
        Instruction::LPush(_) => Instruction::LPush(v),
        Instruction::LPop(_) => Instruction::LPop(v),
        Instruction::LCall(_) => Instruction::LCall(v),
        Instruction::GPush(_) => Instruction::GPush(v),
        Instruction::GPop(_) => Instruction::GPop(v),
        Instruction::GCall(_) => Instruction::GCall(v),
        Instruction::OGet(_) => Instruction::OGet(v),
        Instruction::OSet(_) => Instruction::OSet(v),
        Instruction::OCall(_) => Instruction::OCall(v),
        other => other,
    }
}

impl Instruction {
    /// Returns the argument of the instruction, if it takes one.
    pub fn arg(&self) -> (res: Option<usize>)
        ensures
            res == spec_instruction_arg(*self),
    {
        match self {
            Instruction::Int(c) => Some(*c),
            Instruction::Cast(c) => Some(*c),
            Instruction::Jmp(c) => Some(*c),
            Instruction::Jt(c) => Some(*c),
            Instruction::Jf(c) => Some(*c),
            Instruction::CPush(c) => Some(*c),
            Instruction::LPush(c) => Some(*c),
            Instruction::LPop(c) => Some(*c),
            Instruction::LCall(c) => Some(*c),
            Instruction::GPush(c) => Some(*c),
            Instruction::GPop(c) => Some(*c),
            Instruction::GCall(c) => Some(*c),
            Instruction::OGet(c) => Some(*c),
            Instruction::OSet(c) => Some(*c),
            Instruction::OCall(c) => Some(*c),
            _ => None,
        }
    }

    /// Returns a mutable reference to the argument of the instruction, if it takes one.
    pub fn arg_mut(&mut self) -> (res: Option<&mut usize>)
        ensures
            spec_instruction_arg(*old(self)) is None ==> res is None && *final(self) == *old(self),
            spec_instruction_arg(*old(self)) matches Some(a) ==> res matches Some(r) && *r == a
                && *final(self) == spec_instruction_with_arg(*old(self), *final(r)),
    {
        match self {
            Instruction::Int(c) => Some(c),
            Instruction::Cast(c) => Some(c),
            Instruction::Jmp(c) => Some(c),
            Instruction::Jt(c) => Some(c),
            Instruction::Jf(c) => Some(c),
            Instruction::CPush(c) => Some(c),
            Instruction::LPush(c) => Some(c),
            Instruction::LPop(c) => Some(c),
            Instruction::LCall(c) => Some(c),
            Instruction::GPush(c) => Some(c),
            Instruction::GPop(c) => Some(c),
            Instruction::GCall(c) => Some(c),
            Instruction::OGet(c) => Some(c),
            Instruction::OSet(c) => Some(c),
            Instruction::OCall(c) => Some(c),
            _ => None,
        }
    }

    /// Returns the number of arguments the instruction takes.
    pub fn arguments(&self) -> (res: usize)
        ensures
            res == (if spec_instruction_arg(*self) is Some { 1usize } else { 0usize }),
    {
        match self {
            Instruction::Int(_) => 1,
            Instruction::Cast(_) => 1,
            Instruction::Jmp(_) => 1,
            Instruction::Jt(_) => 1,
            Instruction::Jf(_) => 1,
            Instruction::CPush(_) => 1,
            Instruction::LPush(_) => 1,
            Instruction::LPop(_) => 1,
            Instruction::LCall(_) => 1,
            Instruction::GPush(_) => 1,
            Instruction::GPop(_) => 1,
            Instruction::GCall(_) => 1,
            Instruction::OGet(_) => 1,
            Instruction::OSet(_) => 1,
            Instruction::OCall(_) => 1,
            _ => 0,
        }
    }
}

/// Replacing the argument of an instruction and reading it back gives the new
/// argument; an instruction without an argument is left as it is; and putting
/// back the argument it had gives the instruction itself.
pub proof fn lemma_instruction_arg_roundtrip(c: Instruction, v: usize)
    ensures
        spec_instruction_arg(c) is Some ==> spec_instruction_arg(spec_instruction_with_arg(c, v)) == Some(v),
        spec_instruction_arg(c) is None ==> spec_instruction_with_arg(c, v) == c,
        spec_instruction_arg(c) matches Some(a) ==> spec_instruction_with_arg(c, a) == c,
{
}

/// An executable unit of the first bytecode generation: its argument count,
/// the pools its instructions index into, and the instructions.
#[derive(Clone, Debug)]
pub struct CodeObject<V> {
    pub argc: usize,
    pub space: Space<V>,
    pub inner: Vec<Instruction>,
}

impl<V: PartialEq + Clone> CodeObject<V> {
    /// An empty code object that takes no arguments.
    pub fn new() -> (co: Self)
        ensures
            co.argc == 0,
            co.space.consts@.len() == 0,
            co.space.locals@.len() == 0,
            co.space.globals@.len() == 0,
            co.inner@.len() == 0,
    {
        CodeObject { argc: 0, space: Space::new(), inner: Vec::new() }
    }
}

/// A program of the first bytecode generation: shared data and named code objects.
#[derive(Clone, Debug)]
pub struct Module<V> {
    pub space: Space<V>,
    pub inner: Vec<(String, CodeObject<V>)>,
}

/// Slot `i` is the first slot of `inner` named `name`.
pub open spec fn is_first_module_slot<V>(inner: Seq<(String, CodeObject<V>)>, name: Seq<char>, i: int) -> bool {
    &&& 0 <= i < inner.len()
    &&& inner[i].0@ == name
    &&& forall|j: int| 0 <= j < i ==> (#[trigger] inner[j]).0@ != name
}

/// Some slot of `inner` is named `name`.
pub open spec fn has_module_slot<V>(inner: Seq<(String, CodeObject<V>)>, name: Seq<char>) -> bool {
    exists|i: int| 0 <= i < inner.len() && (#[trigger] inner[i]).0@ == name
}

/// The position of the first slot of `inner` named `name`, if any.
fn find_module_slot<V>(inner: &Vec<(String, CodeObject<V>)>, name: &str) -> (res: Option<usize>)
    ensures
        match res {
            Some(i) => is_first_module_slot(inner@, name@, i as int),
            None => !has_module_slot(inner@, name@),
        },
{
    let n = inner.len();
    let mut i: usize = 0;
    while i < n
        invariant
            n == inner@.len(),
            i <= n,
            forall|j: int| 0 <= j < i ==> (#[trigger] inner@[j]).0@ != name@,
        decreases n - i,
    {
        if crate::text::str_eq(inner[i].0.as_str(), name) {
            return Some(i);
        }
        i += 1;
    }
    None
}

impl<V: PartialEq + Clone> Module<V> {
    /// An empty module.
    pub fn new() -> (res: Self)
        ensures
            res.space.consts@.len() == 0,
            res.space.locals@.len() == 0,
            res.space.globals@.len() == 0,
            res.inner@.len() == 0,
    {
        Module { space: Space::new(), inner: Vec::new() }
    }

    /// The code object in the first slot named `name`, if there is one.
    pub fn get(&self, name: &String) -> (res: Option<&CodeObject<V>>)
        ensures
            match res {
                Some(co) => exists|i: int| is_first_module_slot(self.inner@, name@, i) && *co == self.inner@[i].1,
                None => !has_module_slot(self.inner@, name@),
            },
    {
        match find_module_slot(&self.inner, name.as_str()) {
            Some(i) => Some(&self.inner[i].1),
            None => None,
        }
    }

    /// A module holding `code` as the body of a `main` object without arguments.
    pub fn with_code(code: Vec<Instruction>) -> (res: Self)
        ensures
            res.space.consts@.len() == 0,
            res.space.locals@.len() == 0,
            res.space.globals@.len() == 0,
            res.inner@.len() == 1,
            res.inner@[0].0@ == "main"@,
            res.inner@[0].1.argc == 0,
            res.inner@[0].1.inner@ == code@,
            res.inner@[0].1.space.consts@.len() == 0,
            res.inner@[0].1.space.locals@.len() == 0,
            res.inner@[0].1.space.globals@.len() == 0,
    {
        let mut new = Self::new();
        let mut co = CodeObject::new();
        co.inner = code;
        let mut inner = Vec::new();
        inner.push((String::from_str("main"), co));
        new.inner = inner;
        new
    }

    /// The code object of the first slot named `main`.
    pub fn code(&self) -> (res: &CodeObject<V>)
        requires
            has_module_slot(self.inner@, "main"@),
        ensures
            exists|i: int| is_first_module_slot(self.inner@, "main"@, i) && *res == self.inner@[i].1,
    {
        match find_module_slot(&self.inner, "main") {
            Some(i) => &self.inner[i].1,
            None => vstd::pervasive::unreached(),
        }
    }

    /// The named slots of the module.
    pub fn slots(&self) -> (res: &Vec<(String, CodeObject<V>)>)
        ensures
            res == &self.inner,
    {
        &self.inner
    }
}

} // verus!
