use crate::text::str_eq;
use vstd::prelude::*;

verus! {

/// The instruction set the assembler emits.
#[derive(Clone, Copy, Debug, PartialEq, Eq, Structural)]
pub enum Instruction {
    Inc,
    Dec,
    Add,
    Sub,
    Mul,
    Div,
    Rem,
    Pow,
    Neg,
    And,
    Or,
    Xor,
    Shl,
    Shr,
    Cmp,
    Jmp,
    Jeq,
    Jne,
    Jge,
    Jgt,
    Jle,
    Jlt,
    Coal,
    Call,
    Ret,
    Push,
    Pop,
    Pusha,
    Popa,
    Load,
    Store,
    Cast,
}

/// The name of an instruction, as `{:?}` prints its variant.
pub open spec fn spec_instruction_name(i: Instruction) -> Seq<char> {
    match i {
        Instruction::Inc => "Inc"@,
        Instruction::Dec => "Dec"@,
        Instruction::Add => "Add"@,
        Instruction::Sub => "Sub"@,
        Instruction::Mul => "Mul"@,
        Instruction::Div => "Div"@,
        Instruction::Rem => "Rem"@,
        Instruction::Pow => "Pow"@,
        Instruction::Neg => "Neg"@,
        Instruction::And => "And"@,
        Instruction::Or => "Or"@,
        Instruction::Xor => "Xor"@,
        Instruction::Shl => "Shl"@,
        Instruction::Shr => "Shr"@,
        Instruction::Cmp => "Cmp"@,
        Instruction::Jmp => "Jmp"@,
        Instruction::Jeq => "Jeq"@,
        Instruction::Jne => "Jne"@,
        Instruction::Jge => "Jge"@,
        Instruction::Jgt => "Jgt"@,
        Instruction::Jle => "Jle"@,
        Instruction::Jlt => "Jlt"@,
        Instruction::Coal => "Coal"@,
        Instruction::Call => "Call"@,
        Instruction::Ret => "Ret"@,
        Instruction::Push => "Push"@,
        Instruction::Pop => "Pop"@,
        Instruction::Pusha => "Pusha"@,
        Instruction::Popa => "Popa"@,
        Instruction::Load => "Load"@,
        Instruction::Store => "Store"@,
        Instruction::Cast => "Cast"@,
    }
}

/// The general purpose registers of the target machine.
#[derive(Clone, Copy, Debug, PartialEq, Eq, Structural)]
pub enum Register {
    A,
    B,
    C,
    D,
}

/// The register a name denotes, if any.
pub open spec fn spec_register_from_str(s: Seq<char>) -> Option<Register> {
    if s == "A"@ {
        Some(Register::A)
    } else if s == "B"@ {
        Some(Register::B)
    } else if s == "C"@ {
        Some(Register::C)
    } else if s == "D"@ {
        Some(Register::D)
    } else {
        None
    }
}

impl Register {
    /// Reads a register name (`A` to `D`).
    pub fn from_str(from: &str) -> (res: Result<Register, ()>)
        ensures
            spec_register_from_str(from@) matches Some(r) ==> res == Ok::<Register, ()>(r),
            spec_register_from_str(from@) is None ==> res == Err::<Register, ()>(()),
    {
        if str_eq(from, "A") {
            Ok(Register::A)
        } else if str_eq(from, "B") {
            Ok(Register::B)
        } else if str_eq(from, "C") {
            Ok(Register::C)
        } else if str_eq(from, "D") {
            Ok(Register::D)
        } else {
            Err(())
        }
    }
}

} // verus!
