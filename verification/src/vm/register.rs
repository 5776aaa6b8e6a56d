use crate::assembler::target::{Instruction, Register};
use vstd::prelude::*;

verus! {

/// The outcome of the last comparison.
#[derive(Clone, Copy, Debug, PartialEq, Eq, Structural)]
pub enum Comparison {
    Less,
    Equal,
    Greater,
}

/// The register file of the register machine: four general purpose
/// registers, the outcome of the last comparison and a return address.
#[derive(Debug)]
pub struct VmRegister<V> {
    pub a: V,
    pub b: V,
    pub c: V,
    pub d: V,
    pub cmp: Option<Comparison>,
    pub ret: Option<usize>,
}

/// Whether the jump instruction `inx` is taken after a comparison with outcome `c`;
/// instructions that are not jumps never are.
pub open spec fn spec_jmp_needed(inx: Instruction, c: Comparison) -> bool {
    match inx {
        Instruction::Jeq => c == Comparison::Equal,
        Instruction::Jne => c != Comparison::Equal,
        Instruction::Jge => c == Comparison::Greater || c == Comparison::Equal,
        Instruction::Jgt => c == Comparison::Greater,
        Instruction::Jle => c == Comparison::Less || c == Comparison::Equal,
        Instruction::Jlt => c == Comparison::Less,
        Instruction::Jmp => true,
        _ => false,
    }
}

/// The value of register `idx`.
pub open spec fn spec_register<V>(r: VmRegister<V>, idx: Register) -> V {
    match idx {
        Register::A => r.a,
        Register::B => r.b,
        Register::C => r.c,
        Register::D => r.d,
    }
}

/// `r` with register `idx` holding `v`.
pub open spec fn spec_with_register<V>(r: VmRegister<V>, idx: Register, v: V) -> VmRegister<V> {
    match idx {
        Register::A => VmRegister { a: v, ..r },
        Register::B => VmRegister { b: v, ..r },
        Register::C => VmRegister { c: v, ..r },
        Register::D => VmRegister { d: v, ..r },
    }
}

impl<V: Clone> VmRegister<V> {
    /// A register file with every register holding a copy of `zero` and no
    /// comparison or return address recorded.
    pub fn new(zero: V) -> (res: Self)
        ensures
            cloned(zero, res.a),
            cloned(zero, res.b),
            cloned(zero, res.c),
            cloned(zero, res.d),
            res.cmp is None,
            res.ret is None,
    {
        VmRegister { a: zero.clone(), b: zero.clone(), c: zero.clone(), d: zero.clone(), cmp: None, ret: None }
    }

    /// Whether the jump `inx` is taken, going by the last comparison.
    pub fn is_jmp_needed(&self, inx: Instruction) -> (res: bool)
        requires
            self.cmp is Some,
        ensures
            res == spec_jmp_needed(inx, self.cmp->0),
    {
        let c = self.cmp.unwrap();
        match inx {
            Instruction::Jeq => c == Comparison::Equal,
            Instruction::Jne => c != Comparison::Equal,
            Instruction::Jge => c == Comparison::Greater || c == Comparison::Equal,
            Instruction::Jgt => c == Comparison::Greater,
            Instruction::Jle => c == Comparison::Less || c == Comparison::Equal,
            Instruction::Jlt => c == Comparison::Less,
            Instruction::Jmp => true,
            _ => false,
        }
    }

    /// The register `idx`.
    pub fn index(&self, idx: Register) -> (res: &V)
        ensures
            *res == spec_register(*self, idx),
    {
        match idx {
            Register::A => &self.a,
            Register::B => &self.b,
            Register::C => &self.c,
            Register::D => &self.d,
        }
    }

    /// The register `idx`, to be written.
    pub fn index_mut(&mut self, idx: Register) -> (res: &mut V)
        ensures
            *res == spec_register(*old(self), idx),
            *final(self) == spec_with_register(*old(self), idx, *final(res)),
    {
        match idx {
            Register::A => &mut self.a,
            Register::B => &mut self.b,
            Register::C => &mut self.c,
            Register::D => &mut self.d,
        }
    }
}

/// Reading a register after writing `v` to it gives `v`; the other registers,
/// the comparison and the return address keep their values.
pub proof fn lemma_register_write_read<V>(r: VmRegister<V>, idx: Register, v: V, other: Register)
    ensures
        spec_register(spec_with_register(r, idx, v), idx) == v,
        other != idx ==> spec_register(spec_with_register(r, idx, v), other) == spec_register(r, other),
        spec_with_register(r, idx, v).cmp == r.cmp,
        spec_with_register(r, idx, v).ret == r.ret,
{
}

} // verus!
