use crate::assembler::target::{spec_instruction_name, Instruction};
use crate::text::str_eq;
use vstd::prelude::*;

verus! {

/// The mnemonics of the assembly language.
#[derive(Clone, Copy, Debug, PartialEq, Eq, Structural)]
pub enum Keyword {
    Inc,
    Dec,
    Add,
    Sub,
    Mul,
    Div,
    Rem,
    Pow,
    Neg,
    And,
    Or,
    Xor,
    Shl,
    Shr,
    Cmp,
    Jmp,
    Jeq,
    Jne,
    Jge,
    Jgt,
    Jle,
    Jlt,
    Coal,
    Call,
    Ret,
    Push,
    Pop,
    Pusha,
    Popa,
    Dv,
    Mov,
}

/// The mnemonic that `Keyword::from_str` reads for a text, if any.
pub open spec fn spec_keyword_from_str(s: Seq<char>) -> Option<Keyword> {
    if s == "inc"@ {
        Some(Keyword::Inc)
    } else if s == "dec"@ {
        Some(Keyword::Dec)
    } else if s == "add"@ {
        Some(Keyword::Add)
    } else if s == "sub"@ {
        Some(Keyword::Sub)
    } else if s == "mul"@ {
        Some(Keyword::Mul)
    } else if s == "div"@ {
        Some(Keyword::Div)
    } else if s == "rem"@ {
        Some(Keyword::Rem)
    } else if s == "pow"@ {
        Some(Keyword::Pow)
    } else if s == "neg"@ {
        Some(Keyword::Neg)
    } else if s == "and"@ {
        Some(Keyword::And)
    } else if s == "or"@ {
        Some(Keyword::Or)
    } else if s == "xor"@ {
        Some(Keyword::Xor)
    } else if s == "shl"@ {
        Some(Keyword::Shl)
    } else if s == "shr"@ {
        Some(Keyword::Shr)
    } else if s == "cmp"@ {
        Some(Keyword::Cmp)
    } else if s == "jmp"@ {
        Some(Keyword::Jmp)
    } else if s == "jeq"@ {
        Some(Keyword::Jeq)
    } else if s == "jne"@ {
        Some(Keyword::Jne)
    } else if s == "jge"@ {
        Some(Keyword::Jge)
    } else if s == "jgt"@ {
        Some(Keyword::Jgt)
    } else if s == "jle"@ {
        Some(Keyword::Jle)
    } else if s == "jlt"@ {
        Some(Keyword::Jlt)
    } else if s == "call"@ {
        Some(Keyword::Call)
    } else if s == "coal"@ {
        Some(Keyword::Coal)
    } else if s == "ret"@ {
        Some(Keyword::Ret)
    } else if s == "push"@ {
        Some(Keyword::Push)
    } else if s == "pop"@ {
        Some(Keyword::Pop)
    } else if s == "pusha"@ {
        Some(Keyword::Pusha)
    } else if s == "popa"@ {
        Some(Keyword::Popa)
    } else if s == "dv"@ {
        Some(Keyword::Dv)
    } else if s == "mov"@ {
        Some(Keyword::Mov)
    } else {
        None
    }
}

/// How `{:?}` prints a mnemonic: the name of its variant.
pub open spec fn spec_keyword_debug(k: Keyword) -> Seq<char> {
    match k {
        Keyword::Inc => "Inc"@,
        Keyword::Dec => "Dec"@,
        Keyword::Add => "Add"@,
        Keyword::Sub => "Sub"@,
        Keyword::Mul => "Mul"@,
        Keyword::Div => "Div"@,
        Keyword::Rem => "Rem"@,
        Keyword::Pow => "Pow"@,
        Keyword::Neg => "Neg"@,
        Keyword::And => "And"@,
        Keyword::Or => "Or"@,
        Keyword::Xor => "Xor"@,
        Keyword::Shl => "Shl"@,
        Keyword::Shr => "Shr"@,
        Keyword::Cmp => "Cmp"@,
        Keyword::Jmp => "Jmp"@,
        Keyword::Jeq => "Jeq"@,
        Keyword::Jne => "Jne"@,
        Keyword::Jge => "Jge"@,
        Keyword::Jgt => "Jgt"@,
        Keyword::Jle => "Jle"@,
        Keyword::Jlt => "Jlt"@,
        Keyword::Coal => "Coal"@,
        Keyword::Call => "Call"@,
        Keyword::Ret => "Ret"@,
        Keyword::Push => "Push"@,
        Keyword::Pop => "Pop"@,
        Keyword::Pusha => "Pusha"@,
        Keyword::Popa => "Popa"@,
        Keyword::Dv => "Dv"@,
        Keyword::Mov => "Mov"@,
    }
}

/// The spelling of each mnemonic.
pub open spec fn spec_keyword_text(k: Keyword) -> Seq<char> {
    match k {
        Keyword::Inc => "inc"@,
        Keyword::Dec => "dec"@,
        Keyword::Add => "add"@,
        Keyword::Sub => "sub"@,
        Keyword::Mul => "mul"@,
        Keyword::Div => "div"@,
        Keyword::Rem => "rem"@,
        Keyword::Pow => "pow"@,
        Keyword::Neg => "neg"@,
        Keyword::And => "and"@,
        Keyword::Or => "or"@,
        Keyword::Xor => "xor"@,
        Keyword::Shl => "shl"@,
        Keyword::Shr => "shr"@,
        Keyword::Cmp => "cmp"@,
        Keyword::Jmp => "jmp"@,
        Keyword::Jeq => "jeq"@,
        Keyword::Jne => "jne"@,
        Keyword::Jge => "jge"@,
        Keyword::Jgt => "jgt"@,
        Keyword::Jle => "jle"@,
        Keyword::Jlt => "jlt"@,
        Keyword::Coal => "coal"@,
        Keyword::Call => "call"@,
        Keyword::Ret => "ret"@,
        Keyword::Push => "push"@,
        Keyword::Pop => "pop"@,
        Keyword::Pusha => "pusha"@,
        Keyword::Popa => "popa"@,
        Keyword::Dv => "dv"@,
        Keyword::Mov => "mov"@,
    }
}

/// The number of operands each mnemonic takes.
pub open spec fn spec_keyword_arguments(k: Keyword) -> usize {
    match k {
        Keyword::Mov | Keyword::Add | Keyword::Sub | Keyword::Mul | Keyword::Div | Keyword::Rem | Keyword::Pow | Keyword::Neg | Keyword::And | Keyword::Or | Keyword::Xor | Keyword::Shl | Keyword::Shr | Keyword::Cmp | Keyword::Coal => 2,
        Keyword::Dv | Keyword::Inc | Keyword::Dec | Keyword::Jmp | Keyword::Jeq | Keyword::Jne | Keyword::Jge | Keyword::Jgt | Keyword::Jle | Keyword::Jlt | Keyword::Call | Keyword::Push | Keyword::Pop => 1,
        Keyword::Ret | Keyword::Pusha | Keyword::Popa => 0,
    }
}

/// Whether a mnemonic stands for a machine instruction (`dv` and `mov` do not).
pub open spec fn is_instruction_keyword(k: Keyword) -> bool {
    k != Keyword::Dv && k != Keyword::Mov
}

/// The machine instruction of a mnemonic.
pub open spec fn spec_keyword_inx(k: Keyword) -> Instruction {
    match k {
        Keyword::Inc => Instruction::Inc,
        Keyword::Dec => Instruction::Dec,
        Keyword::Add => Instruction::Add,
        Keyword::Sub => Instruction::Sub,
        Keyword::Mul => Instruction::Mul,
        Keyword::Div => Instruction::Div,
        Keyword::Rem => Instruction::Rem,
        Keyword::Pow => Instruction::Pow,
        Keyword::Neg => Instruction::Neg,
        Keyword::And => Instruction::And,
        Keyword::Or => Instruction::Or,
        Keyword::Xor => Instruction::Xor,
        Keyword::Shl => Instruction::Shl,
        Keyword::Shr => Instruction::Shr,
        Keyword::Cmp => Instruction::Cmp,
        Keyword::Jmp => Instruction::Jmp,
        Keyword::Jeq => Instruction::Jeq,
        Keyword::Jne => Instruction::Jne,
        Keyword::Jge => Instruction::Jge,
        Keyword::Jgt => Instruction::Jgt,
        Keyword::Jle => Instruction::Jle,
        Keyword::Jlt => Instruction::Jlt,
        Keyword::Coal => Instruction::Coal,
        Keyword::Call => Instruction::Call,
        Keyword::Ret => Instruction::Ret,
        Keyword::Push => Instruction::Push,
        Keyword::Pop => Instruction::Pop,
        Keyword::Pusha => Instruction::Pusha,
        Keyword::Popa => Instruction::Popa,
        _ => Instruction::Ret,
    }
}


/// The instruction of a mnemonic is the instruction of the same name, and no
/// two mnemonics stand for the same instruction.
pub proof fn lemma_keyword_inx_named(k: Keyword, other: Keyword)
    ensures
        is_instruction_keyword(k) ==> spec_instruction_name(spec_keyword_inx(k)) == spec_keyword_debug(k),
        is_instruction_keyword(k) && is_instruction_keyword(other) && spec_keyword_inx(k) == spec_keyword_inx(other)
            ==> k == other,
{
}

/// The letter `c` in upper case, where it is a lower case ASCII letter.
pub open spec fn upper(c: char) -> char {
    if 'a' <= c && c <= 'z' {
        ((c as int) - 32) as char
    } else {
        c
    }
}

/// `s` with its first character in upper case.
pub open spec fn capitalized(s: Seq<char>) -> Seq<char> {
    if s.len() == 0 {
        s
    } else {
        seq![upper(s[0])] + s.drop_first()
    }
}

/// The name of a mnemonic is its spelling with the first letter in upper case.
pub proof fn lemma_keyword_name_is_spelling(k: Keyword)
    ensures
        spec_keyword_debug(k) == capitalized(spec_keyword_text(k)),
{
    match k {
        Keyword::Inc => {
            reveal_strlit("Inc");
            reveal_strlit("inc");
            assert(spec_keyword_debug(k) =~= capitalized(spec_keyword_text(k)));
        },
        Keyword::Dec => {
            reveal_strlit("Dec");
            reveal_strlit("dec");
            assert(spec_keyword_debug(k) =~= capitalized(spec_keyword_text(k)));
        },
        Keyword::Add => {
            reveal_strlit("Add");
            reveal_strlit("add");
            assert(spec_keyword_debug(k) =~= capitalized(spec_keyword_text(k)));
        },
        Keyword::Sub => {
            reveal_strlit("Sub");
            reveal_strlit("sub");
            assert(spec_keyword_debug(k) =~= capitalized(spec_keyword_text(k)));
        },
        Keyword::Mul => {
            reveal_strlit("Mul");
            reveal_strlit("mul");
            assert(spec_keyword_debug(k) =~= capitalized(spec_keyword_text(k)));
        },
        Keyword::Div => {
            reveal_strlit("Div");
            reveal_strlit("div");
            assert(spec_keyword_debug(k) =~= capitalized(spec_keyword_text(k)));
        },
        Keyword::Rem => {
            reveal_strlit("Rem");
            reveal_strlit("rem");
            assert(spec_keyword_debug(k) =~= capitalized(spec_keyword_text(k)));
        },
        Keyword::Pow => {
            reveal_strlit("Pow");
            reveal_strlit("pow");
            assert(spec_keyword_debug(k) =~= capitalized(spec_keyword_text(k)));
        },
        Keyword::Neg => {
            reveal_strlit("Neg");
            reveal_strlit("neg");
            assert(spec_keyword_debug(k) =~= capitalized(spec_keyword_text(k)));
        },
        Keyword::And => {
            reveal_strlit("And");
            reveal_strlit("and");
            assert(spec_keyword_debug(k) =~= capitalized(spec_keyword_text(k)));
        },
        Keyword::Or => {
            reveal_strlit("Or");
            reveal_strlit("or");
            assert(spec_keyword_debug(k) =~= capitalized(spec_keyword_text(k)));
        },
        Keyword::Xor => {
            reveal_strlit("Xor");
            reveal_strlit("xor");
            assert(spec_keyword_debug(k) =~= capitalized(spec_keyword_text(k)));
        },
        Keyword::Shl => {
            reveal_strlit("Shl");
            reveal_strlit("shl");
            assert(spec_keyword_debug(k) =~= capitalized(spec_keyword_text(k)));
        },
        Keyword::Shr => {
            reveal_strlit("Shr");
            reveal_strlit("shr");
            assert(spec_keyword_debug(k) =~= capitalized(spec_keyword_text(k)));
        },
        Keyword::Cmp => {
            reveal_strlit("Cmp");
            reveal_strlit("cmp");
            assert(spec_keyword_debug(k) =~= capitalized(spec_keyword_text(k)));
        },
        Keyword::Jmp => {
            reveal_strlit("Jmp");
            reveal_strlit("jmp");
            assert(spec_keyword_debug(k) =~= capitalized(spec_keyword_text(k)));
        },
        Keyword::Jeq => {
            reveal_strlit("Jeq");
            reveal_strlit("jeq");
            assert(spec_keyword_debug(k) =~= capitalized(spec_keyword_text(k)));
        },
        Keyword::Jne => {
            reveal_strlit("Jne");
            reveal_strlit("jne");
            assert(spec_keyword_debug(k) =~= capitalized(spec_keyword_text(k)));
        },
        Keyword::Jge => {
            reveal_strlit("Jge");
            reveal_strlit("jge");
            assert(spec_keyword_debug(k) =~= capitalized(spec_keyword_text(k)));
        },
        Keyword::Jgt => {
            reveal_strlit("Jgt");
            reveal_strlit("jgt");
            assert(spec_keyword_debug(k) =~= capitalized(spec_keyword_text(k)));
        },
        Keyword::Jle => {
            reveal_strlit("Jle");
            reveal_strlit("jle");
            assert(spec_keyword_debug(k) =~= capitalized(spec_keyword_text(k)));
        },
        Keyword::Jlt => {
            reveal_strlit("Jlt");
            reveal_strlit("jlt");
            assert(spec_keyword_debug(k) =~= capitalized(spec_keyword_text(k)));
        },
        Keyword::Coal => {
            reveal_strlit("Coal");
            reveal_strlit("coal");
            assert(spec_keyword_debug(k) =~= capitalized(spec_keyword_text(k)));
        },
        Keyword::Call => {
            reveal_strlit("Call");
            reveal_strlit("call");
            assert(spec_keyword_debug(k) =~= capitalized(spec_keyword_text(k)));
        },
        Keyword::Ret => {
            reveal_strlit("Ret");
            reveal_strlit("ret");
            assert(spec_keyword_debug(k) =~= capitalized(spec_keyword_text(k)));
        },
        Keyword::Push => {
            reveal_strlit("Push");
            reveal_strlit("push");
            assert(spec_keyword_debug(k) =~= capitalized(spec_keyword_text(k)));
        },
        Keyword::Pop => {
            reveal_strlit("Pop");
            reveal_strlit("pop");
            assert(spec_keyword_debug(k) =~= capitalized(spec_keyword_text(k)));
        },
        Keyword::Pusha => {
            reveal_strlit("Pusha");
            reveal_strlit("pusha");
            assert(spec_keyword_debug(k) =~= capitalized(spec_keyword_text(k)));
        },
        Keyword::Popa => {
            reveal_strlit("Popa");
            reveal_strlit("popa");
            assert(spec_keyword_debug(k) =~= capitalized(spec_keyword_text(k)));
        },
        Keyword::Dv => {
            reveal_strlit("Dv");
            reveal_strlit("dv");
            assert(spec_keyword_debug(k) =~= capitalized(spec_keyword_text(k)));
        },
        Keyword::Mov => {
            reveal_strlit("Mov");
            reveal_strlit("mov");
            assert(spec_keyword_debug(k) =~= capitalized(spec_keyword_text(k)));
        },
    }
}

/// Reading back the spelling of any mnemonic gives that mnemonic.
pub proof fn lemma_keyword_text_roundtrip(k: Keyword)
    ensures
        spec_keyword_from_str(spec_keyword_text(k)) == Some(k),
{
    match k {
        Keyword::Inc => {
            reveal_strlit("inc");
        },
        Keyword::Dec => {
            reveal_strlit("dec");
            reveal_strlit("inc");
            assert("dec"@[0] != "inc"@[0]);
        },
        Keyword::Add => {
            reveal_strlit("add");
            reveal_strlit("inc");
            assert("add"@[0] != "inc"@[0]);
            reveal_strlit("dec");
            assert("add"@[0] != "dec"@[0]);
        },
        Keyword::Sub => {
            reveal_strlit("sub");
            reveal_strlit("inc");
            assert("sub"@[0] != "inc"@[0]);
            reveal_strlit("dec");
            assert("sub"@[0] != "dec"@[0]);
            reveal_strlit("add");
            assert("sub"@[0] != "add"@[0]);
        },
        Keyword::Mul => {
            reveal_strlit("mul");
            reveal_strlit("inc");
            assert("mul"@[0] != "inc"@[0]);
            reveal_strlit("dec");
            assert("mul"@[0] != "dec"@[0]);
            reveal_strlit("add");
            assert("mul"@[0] != "add"@[0]);
            reveal_strlit("sub");
            assert("mul"@[0] != "sub"@[0]);
        },
        Keyword::Div => {
            reveal_strlit("div");
            reveal_strlit("inc");
            assert("div"@[0] != "inc"@[0]);
            reveal_strlit("dec");
            assert("div"@[1] != "dec"@[1]);
            reveal_strlit("add");
            assert("div"@[0] != "add"@[0]);
            reveal_strlit("sub");
            assert("div"@[0] != "sub"@[0]);
            reveal_strlit("mul");
            assert("div"@[0] != "mul"@[0]);
        },
        Keyword::Rem => {
            reveal_strlit("rem");
            reveal_strlit("inc");
            assert("rem"@[0] != "inc"@[0]);
            reveal_strlit("dec");
            assert("rem"@[0] != "dec"@[0]);
            reveal_strlit("add");
            assert("rem"@[0] != "add"@[0]);
            reveal_strlit("sub");
            assert("rem"@[0] != "sub"@[0]);
            reveal_strlit("mul");
            assert("rem"@[0] != "mul"@[0]);
            reveal_strlit("div");
            assert("rem"@[0] != "div"@[0]);
        },
        Keyword::Pow => {
            reveal_strlit("pow");
            reveal_strlit("inc");
            assert("pow"@[0] != "inc"@[0]);
            reveal_strlit("dec");
            assert("pow"@[0] != "dec"@[0]);
            reveal_strlit("add");
            assert("pow"@[0] != "add"@[0]);
            reveal_strlit("sub");
            assert("pow"@[0] != "sub"@[0]);
            reveal_strlit("mul");
            assert("pow"@[0] != "mul"@[0]);
            reveal_strlit("div");
            assert("pow"@[0] != "div"@[0]);
            reveal_strlit("rem");
            assert("pow"@[0] != "rem"@[0]);
        },
        Keyword::Neg => {
            reveal_strlit("neg");
            reveal_strlit("inc");
            assert("neg"@[0] != "inc"@[0]);
            reveal_strlit("dec");
            assert("neg"@[0] != "dec"@[0]);
            reveal_strlit("add");
            assert("neg"@[0] != "add"@[0]);
            reveal_strlit("sub");
            assert("neg"@[0] != "sub"@[0]);
            reveal_strlit("mul");
            assert("neg"@[0] != "mul"@[0]);
            reveal_strlit("div");
            assert("neg"@[0] != "div"@[0]);
            reveal_strlit("rem");
            assert("neg"@[0] != "rem"@[0]);
            reveal_strlit("pow");
            assert("neg"@[0] != "pow"@[0]);
        },
        Keyword::And => {
            reveal_strlit("and");
            reveal_strlit("inc");
            assert("and"@[0] != "inc"@[0]);
            reveal_strlit("dec");
            assert("and"@[0] != "dec"@[0]);
            reveal_strlit("add");
            assert("and"@[1] != "add"@[1]);
            reveal_strlit("sub");
            assert("and"@[0] != "sub"@[0]);
            reveal_strlit("mul");
            assert("and"@[0] != "mul"@[0]);
            reveal_strlit("div");
            assert("and"@[0] != "div"@[0]);
            reveal_strlit("rem");
            assert("and"@[0] != "rem"@[0]);
            reveal_strlit("pow");
            assert("and"@[0] != "pow"@[0]);
            reveal_strlit("neg");
            assert("and"@[0] != "neg"@[0]);
        },
        Keyword::Or => {
            reveal_strlit("or");
            reveal_strlit("inc");
            assert("or"@.len() != "inc"@.len());
            reveal_strlit("dec");
            assert("or"@.len() != "dec"@.len());
            reveal_strlit("add");
            assert("or"@.len() != "add"@.len());
            reveal_strlit("sub");
            assert("or"@.len() != "sub"@.len());
            reveal_strlit("mul");
            assert("or"@.len() != "mul"@.len());
            reveal_strlit("div");
            assert("or"@.len() != "div"@.len());
            reveal_strlit("rem");
            assert("or"@.len() != "rem"@.len());
            reveal_strlit("pow");
            assert("or"@.len() != "pow"@.len());
            reveal_strlit("neg");
            assert("or"@.len() != "neg"@.len());
            reveal_strlit("and");
            assert("or"@.len() != "and"@.len());
        },
        Keyword::Xor => {
            reveal_strlit("xor");
            reveal_strlit("inc");
            assert("xor"@[0] != "inc"@[0]);
            reveal_strlit("dec");
            assert("xor"@[0] != "dec"@[0]);
            reveal_strlit("add");
            assert("xor"@[0] != "add"@[0]);
            reveal_strlit("sub");
            assert("xor"@[0] != "sub"@[0]);
            reveal_strlit("mul");
            assert("xor"@[0] != "mul"@[0]);
            reveal_strlit("div");
            assert("xor"@[0] != "div"@[0]);
            reveal_strlit("rem");
            assert("xor"@[0] != "rem"@[0]);
            reveal_strlit("pow");
            assert("xor"@[0] != "pow"@[0]);
            reveal_strlit("neg");
            assert("xor"@[0] != "neg"@[0]);
            reveal_strlit("and");
            assert("xor"@[0] != "and"@[0]);
            reveal_strlit("or");
            assert("xor"@.len() != "or"@.len());
        },
        Keyword::Shl => {
            reveal_strlit("shl");
            reveal_strlit("inc");
            assert("shl"@[0] != "inc"@[0]);
            reveal_strlit("dec");
            assert("shl"@[0] != "dec"@[0]);
            reveal_strlit("add");
            assert("shl"@[0] != "add"@[0]);
            reveal_strlit("sub");
            assert("shl"@[1] != "sub"@[1]);
            reveal_strlit("mul");
            assert("shl"@[0] != "mul"@[0]);
            reveal_strlit("div");
            assert("shl"@[0] != "div"@[0]);
            reveal_strlit("rem");
            assert("shl"@[0] != "rem"@[0]);
            reveal_strlit("pow");
            assert("shl"@[0] != "pow"@[0]);
            reveal_strlit("neg");
            assert("shl"@[0] != "neg"@[0]);
            reveal_strlit("and");
            assert("shl"@[0] != "and"@[0]);
            reveal_strlit("or");
            assert("shl"@.len() != "or"@.len());
            reveal_strlit("xor");
            assert("shl"@[0] != "xor"@[0]);
        },
        Keyword::Shr => {
            reveal_strlit("shr");
            reveal_strlit("inc");
            assert("shr"@[0] != "inc"@[0]);
            reveal_strlit("dec");
            assert("shr"@[0] != "dec"@[0]);
            reveal_strlit("add");
            assert("shr"@[0] != "add"@[0]);
            reveal_strlit("sub");
            assert("shr"@[1] != "sub"@[1]);
            reveal_strlit("mul");
            assert("shr"@[0] != "mul"@[0]);
            reveal_strlit("div");
            assert("shr"@[0] != "div"@[0]);
            reveal_strlit("rem");
            assert("shr"@[0] != "rem"@[0]);
            reveal_strlit("pow");
            assert("shr"@[0] != "pow"@[0]);
            reveal_strlit("neg");
            assert("shr"@[0] != "neg"@[0]);
            reveal_strlit("and");
            assert("shr"@[0] != "and"@[0]);
            reveal_strlit("or");
            assert("shr"@.len() != "or"@.len());
            reveal_strlit("xor");
            assert("shr"@[0] != "xor"@[0]);
            reveal_strlit("shl");
            assert("shr"@[2] != "shl"@[2]);
        },
        Keyword::Cmp => {
            reveal_strlit("cmp");
            reveal_strlit("inc");
            assert("cmp"@[0] != "inc"@[0]);
            reveal_strlit("dec");
            assert("cmp"@[0] != "dec"@[0]);
            reveal_strlit("add");
            assert("cmp"@[0] != "add"@[0]);
            reveal_strlit("sub");
            assert("cmp"@[0] != "sub"@[0]);
            reveal_strlit("mul");
            assert("cmp"@[0] != "mul"@[0]);
            reveal_strlit("div");
            assert("cmp"@[0] != "div"@[0]);
            reveal_strlit("rem");
            assert("cmp"@[0] != "rem"@[0]);
            reveal_strlit("pow");
            assert("cmp"@[0] != "pow"@[0]);
            reveal_strlit("neg");
            assert("cmp"@[0] != "neg"@[0]);
            reveal_strlit("and");
            assert("cmp"@[0] != "and"@[0]);
            reveal_strlit("or");
            assert("cmp"@.len() != "or"@.len());
            reveal_strlit("xor");
            assert("cmp"@[0] != "xor"@[0]);
            reveal_strlit("shl");
            assert("cmp"@[0] != "shl"@[0]);
            reveal_strlit("shr");
            assert("cmp"@[0] != "shr"@[0]);
        },
        Keyword::Jmp => {
            reveal_strlit("jmp");
            reveal_strlit("inc");
            assert("jmp"@[0] != "inc"@[0]);
            reveal_strlit("dec");
            assert("jmp"@[0] != "dec"@[0]);
            reveal_strlit("add");
            assert("jmp"@[0] != "add"@[0]);
            reveal_strlit("sub");
            assert("jmp"@[0] != "sub"@[0]);
            reveal_strlit("mul");
            assert("jmp"@[0] != "mul"@[0]);
            reveal_strlit("div");
            assert("jmp"@[0] != "div"@[0]);
            reveal_strlit("rem");
            assert("jmp"@[0] != "rem"@[0]);
            reveal_strlit("pow");
            assert("jmp"@[0] != "pow"@[0]);
            reveal_strlit("neg");
            assert("jmp"@[0] != "neg"@[0]);
            reveal_strlit("and");
            assert("jmp"@[0] != "and"@[0]);
            reveal_strlit("or");
            assert("jmp"@.len() != "or"@.len());
            reveal_strlit("xor");
            assert("jmp"@[0] != "xor"@[0]);
            reveal_strlit("shl");
            assert("jmp"@[0] != "shl"@[0]);
            reveal_strlit("shr");
            assert("jmp"@[0] != "shr"@[0]);
            reveal_strlit("cmp");
            assert("jmp"@[0] != "cmp"@[0]);
        },
        Keyword::Jeq => {
            reveal_strlit("jeq");
            reveal_strlit("inc");
            assert("jeq"@[0] != "inc"@[0]);
            reveal_strlit("dec");
            assert("jeq"@[0] != "dec"@[0]);
            reveal_strlit("add");
            assert("jeq"@[0] != "add"@[0]);
            reveal_strlit("sub");
            assert("jeq"@[0] != "sub"@[0]);
            reveal_strlit("mul");
            assert("jeq"@[0] != "mul"@[0]);
            reveal_strlit("div");
            assert("jeq"@[0] != "div"@[0]);
            reveal_strlit("rem");
            assert("jeq"@[0] != "rem"@[0]);
            reveal_strlit("pow");
            assert("jeq"@[0] != "pow"@[0]);
            reveal_strlit("neg");
            assert("jeq"@[0] != "neg"@[0]);
            reveal_strlit("and");
            assert("jeq"@[0] != "and"@[0]);
            reveal_strlit("or");
            assert("jeq"@.len() != "or"@.len());
            reveal_strlit("xor");
            assert("jeq"@[0] != "xor"@[0]);
            reveal_strlit("shl");
            assert("jeq"@[0] != "shl"@[0]);
            reveal_strlit("shr");
            assert("jeq"@[0] != "shr"@[0]);
            reveal_strlit("cmp");
            assert("jeq"@[0] != "cmp"@[0]);
            reveal_strlit("jmp");
            assert("jeq"@[1] != "jmp"@[1]);
        },
        Keyword::Jne => {
            reveal_strlit("jne");
            reveal_strlit("inc");
            assert("jne"@[0] != "inc"@[0]);
            reveal_strlit("dec");
            assert("jne"@[0] != "dec"@[0]);
            reveal_strlit("add");
            assert("jne"@[0] != "add"@[0]);
            reveal_strlit("sub");
            assert("jne"@[0] != "sub"@[0]);
            reveal_strlit("mul");
            assert("jne"@[0] != "mul"@[0]);
            reveal_strlit("div");
            assert("jne"@[0] != "div"@[0]);
            reveal_strlit("rem");
            assert("jne"@[0] != "rem"@[0]);
            reveal_strlit("pow");
            assert("jne"@[0] != "pow"@[0]);
            reveal_strlit("neg");
            assert("jne"@[0] != "neg"@[0]);
            reveal_strlit("and");
            assert("jne"@[0] != "and"@[0]);
            reveal_strlit("or");
            assert("jne"@.len() != "or"@.len());
            reveal_strlit("xor");
            assert("jne"@[0] != "xor"@[0]);
            reveal_strlit("shl");
            assert("jne"@[0] != "shl"@[0]);
            reveal_strlit("shr");
            assert("jne"@[0] != "shr"@[0]);
            reveal_strlit("cmp");
            assert("jne"@[0] != "cmp"@[0]);
            reveal_strlit("jmp");
            assert("jne"@[1] != "jmp"@[1]);
            reveal_strlit("jeq");
            assert("jne"@[1] != "jeq"@[1]);
        },
        Keyword::Jge => {
            reveal_strlit("jge");
            reveal_strlit("inc");
            assert("jge"@[0] != "inc"@[0]);
            reveal_strlit("dec");
            assert("jge"@[0] != "dec"@[0]);
            reveal_strlit("add");
            assert("jge"@[0] != "add"@[0]);
            reveal_strlit("sub");
            assert("jge"@[0] != "sub"@[0]);
            reveal_strlit("mul");
            assert("jge"@[0] != "mul"@[0]);
            reveal_strlit("div");
            assert("jge"@[0] != "div"@[0]);
            reveal_strlit("rem");
            assert("jge"@[0] != "rem"@[0]);
            reveal_strlit("pow");
            assert("jge"@[0] != "pow"@[0]);
            reveal_strlit("neg");
            assert("jge"@[0] != "neg"@[0]);
            reveal_strlit("and");
            assert("jge"@[0] != "and"@[0]);
            reveal_strlit("or");
            assert("jge"@.len() != "or"@.len());
            reveal_strlit("xor");
            assert("jge"@[0] != "xor"@[0]);
            reveal_strlit("shl");
            assert("jge"@[0] != "shl"@[0]);
            reveal_strlit("shr");
            assert("jge"@[0] != "shr"@[0]);
            reveal_strlit("cmp");
            assert("jge"@[0] != "cmp"@[0]);
            reveal_strlit("jmp");
            assert("jge"@[1] != "jmp"@[1]);
            reveal_strlit("jeq");
            assert("jge"@[1] != "jeq"@[1]);
            reveal_strlit("jne");
            assert("jge"@[1] != "jne"@[1]);
        },
        Keyword::Jgt => {
            reveal_strlit("jgt");
            reveal_strlit("inc");
            assert("jgt"@[0] != "inc"@[0]);
            reveal_strlit("dec");
            assert("jgt"@[0] != "dec"@[0]);
            reveal_strlit("add");
            assert("jgt"@[0] != "add"@[0]);
            reveal_strlit("sub");
            assert("jgt"@[0] != "sub"@[0]);
            reveal_strlit("mul");
            assert("jgt"@[0] != "mul"@[0]);
            reveal_strlit("div");
            assert("jgt"@[0] != "div"@[0]);
            reveal_strlit("rem");
            assert("jgt"@[0] != "rem"@[0]);
            reveal_strlit("pow");
            assert("jgt"@[0] != "pow"@[0]);
            reveal_strlit("neg");
            assert("jgt"@[0] != "neg"@[0]);
            reveal_strlit("and");
            assert("jgt"@[0] != "and"@[0]);
            reveal_strlit("or");
            assert("jgt"@.len() != "or"@.len());
            reveal_strlit("xor");
            assert("jgt"@[0] != "xor"@[0]);
            reveal_strlit("shl");
            assert("jgt"@[0] != "shl"@[0]);
            reveal_strlit("shr");
            assert("jgt"@[0] != "shr"@[0]);
            reveal_strlit("cmp");
            assert("jgt"@[0] != "cmp"@[0]);
            reveal_strlit("jmp");
            assert("jgt"@[1] != "jmp"@[1]);
            reveal_strlit("jeq");
            assert("jgt"@[1] != "jeq"@[1]);
            reveal_strlit("jne");
            assert("jgt"@[1] != "jne"@[1]);
            reveal_strlit("jge");
            assert("jgt"@[2] != "jge"@[2]);
        },
        Keyword::Jle => {
            reveal_strlit("jle");
            reveal_strlit("inc");
            assert("jle"@[0] != "inc"@[0]);
            reveal_strlit("dec");
            assert("jle"@[0] != "dec"@[0]);
            reveal_strlit("add");
            assert("jle"@[0] != "add"@[0]);
            reveal_strlit("sub");
            assert("jle"@[0] != "sub"@[0]);
            reveal_strlit("mul");
            assert("jle"@[0] != "mul"@[0]);
            reveal_strlit("div");
            assert("jle"@[0] != "div"@[0]);
            reveal_strlit("rem");
            assert("jle"@[0] != "rem"@[0]);
            reveal_strlit("pow");
            assert("jle"@[0] != "pow"@[0]);
            reveal_strlit("neg");
            assert("jle"@[0] != "neg"@[0]);
            reveal_strlit("and");
            assert("jle"@[0] != "and"@[0]);
            reveal_strlit("or");
            assert("jle"@.len() != "or"@.len());
            reveal_strlit("xor");
            assert("jle"@[0] != "xor"@[0]);
            reveal_strlit("shl");
            assert("jle"@[0] != "shl"@[0]);
            reveal_strlit("shr");
            assert("jle"@[0] != "shr"@[0]);
            reveal_strlit("cmp");
            assert("jle"@[0] != "cmp"@[0]);
            reveal_strlit("jmp");
            assert("jle"@[1] != "jmp"@[1]);
            reveal_strlit("jeq");
            assert("jle"@[1] != "jeq"@[1]);
            reveal_strlit("jne");
            assert("jle"@[1] != "jne"@[1]);
            reveal_strlit("jge");
            assert("jle"@[1] != "jge"@[1]);
            reveal_strlit("jgt");
            assert("jle"@[1] != "jgt"@[1]);
        },
        Keyword::Jlt => {
            reveal_strlit("jlt");
            reveal_strlit("inc");
            assert("jlt"@[0] != "inc"@[0]);
            reveal_strlit("dec");
            assert("jlt"@[0] != "dec"@[0]);
            reveal_strlit("add");
            assert("jlt"@[0] != "add"@[0]);
            reveal_strlit("sub");
            assert("jlt"@[0] != "sub"@[0]);
            reveal_strlit("mul");
            assert("jlt"@[0] != "mul"@[0]);
            reveal_strlit("div");
            assert("jlt"@[0] != "div"@[0]);
            reveal_strlit("rem");
            assert("jlt"@[0] != "rem"@[0]);
            reveal_strlit("pow");
            assert("jlt"@[0] != "pow"@[0]);
            reveal_strlit("neg");
            assert("jlt"@[0] != "neg"@[0]);
            reveal_strlit("and");
            assert("jlt"@[0] != "and"@[0]);
            reveal_strlit("or");
            assert("jlt"@.len() != "or"@.len());
            reveal_strlit("xor");
            assert("jlt"@[0] != "xor"@[0]);
            reveal_strlit("shl");
            assert("jlt"@[0] != "shl"@[0]);
            reveal_strlit("shr");
            assert("jlt"@[0] != "shr"@[0]);
            reveal_strlit("cmp");
            assert("jlt"@[0] != "cmp"@[0]);
            reveal_strlit("jmp");
            assert("jlt"@[1] != "jmp"@[1]);
            reveal_strlit("jeq");
            assert("jlt"@[1] != "jeq"@[1]);
            reveal_strlit("jne");
            assert("jlt"@[1] != "jne"@[1]);
            reveal_strlit("jge");
            assert("jlt"@[1] != "jge"@[1]);
            reveal_strlit("jgt");
            assert("jlt"@[1] != "jgt"@[1]);
            reveal_strlit("jle");
            assert("jlt"@[2] != "jle"@[2]);
        },
        Keyword::Call => {
            reveal_strlit("call");
            reveal_strlit("inc");
            assert("call"@.len() != "inc"@.len());
            reveal_strlit("dec");
            assert("call"@.len() != "dec"@.len());
            reveal_strlit("add");
            assert("call"@.len() != "add"@.len());
            reveal_strlit("sub");
            assert("call"@.len() != "sub"@.len());
            reveal_strlit("mul");
            assert("call"@.len() != "mul"@.len());
            reveal_strlit("div");
            assert("call"@.len() != "div"@.len());
            reveal_strlit("rem");
            assert("call"@.len() != "rem"@.len());
            reveal_strlit("pow");
            assert("call"@.len() != "pow"@.len());
            reveal_strlit("neg");
            assert("call"@.len() != "neg"@.len());
            reveal_strlit("and");
            assert("call"@.len() != "and"@.len());
            reveal_strlit("or");
            assert("call"@.len() != "or"@.len());
            reveal_strlit("xor");
            assert("call"@.len() != "xor"@.len());
            reveal_strlit("shl");
            assert("call"@.len() != "shl"@.len());
            reveal_strlit("shr");
            assert("call"@.len() != "shr"@.len());
            reveal_strlit("cmp");
            assert("call"@.len() != "cmp"@.len());
            reveal_strlit("jmp");
            assert("call"@.len() != "jmp"@.len());
            reveal_strlit("jeq");
            assert("call"@.len() != "jeq"@.len());
            reveal_strlit("jne");
            assert("call"@.len() != "jne"@.len());
            reveal_strlit("jge");
            assert("call"@.len() != "jge"@.len());
            reveal_strlit("jgt");
            assert("call"@.len() != "jgt"@.len());
            reveal_strlit("jle");
            assert("call"@.len() != "jle"@.len());
            reveal_strlit("jlt");
            assert("call"@.len() != "jlt"@.len());
        },
        Keyword::Coal => {
            reveal_strlit("coal");
            reveal_strlit("inc");
            assert("coal"@.len() != "inc"@.len());
            reveal_strlit("dec");
            assert("coal"@.len() != "dec"@.len());
            reveal_strlit("add");
            assert("coal"@.len() != "add"@.len());
            reveal_strlit("sub");
            assert("coal"@.len() != "sub"@.len());
            reveal_strlit("mul");
            assert("coal"@.len() != "mul"@.len());
            reveal_strlit("div");
            assert("coal"@.len() != "div"@.len());
            reveal_strlit("rem");
            assert("coal"@.len() != "rem"@.len());
            reveal_strlit("pow");
            assert("coal"@.len() != "pow"@.len());
            reveal_strlit("neg");
            assert("coal"@.len() != "neg"@.len());
            reveal_strlit("and");
            assert("coal"@.len() != "and"@.len());
            reveal_strlit("or");
            assert("coal"@.len() != "or"@.len());
            reveal_strlit("xor");
            assert("coal"@.len() != "xor"@.len());
            reveal_strlit("shl");
            assert("coal"@.len() != "shl"@.len());
            reveal_strlit("shr");
            assert("coal"@.len() != "shr"@.len());
            reveal_strlit("cmp");
            assert("coal"@.len() != "cmp"@.len());
            reveal_strlit("jmp");
            assert("coal"@.len() != "jmp"@.len());
            reveal_strlit("jeq");
            assert("coal"@.len() != "jeq"@.len());
            reveal_strlit("jne");
            assert("coal"@.len() != "jne"@.len());
            reveal_strlit("jge");
            assert("coal"@.len() != "jge"@.len());
            reveal_strlit("jgt");
            assert("coal"@.len() != "jgt"@.len());
            reveal_strlit("jle");
            assert("coal"@.len() != "jle"@.len());
            reveal_strlit("jlt");
            assert("coal"@.len() != "jlt"@.len());
            reveal_strlit("call");
            assert("coal"@[1] != "call"@[1]);
        },
        Keyword::Ret => {
            reveal_strlit("ret");
            reveal_strlit("inc");
            assert("ret"@[0] != "inc"@[0]);
            reveal_strlit("dec");
            assert("ret"@[0] != "dec"@[0]);
            reveal_strlit("add");
            assert("ret"@[0] != "add"@[0]);
            reveal_strlit("sub");
            assert("ret"@[0] != "sub"@[0]);
            reveal_strlit("mul");
            assert("ret"@[0] != "mul"@[0]);
            reveal_strlit("div");
            assert("ret"@[0] != "div"@[0]);
            reveal_strlit("rem");
            assert("ret"@[2] != "rem"@[2]);
            reveal_strlit("pow");
            assert("ret"@[0] != "pow"@[0]);
            reveal_strlit("neg");
            assert("ret"@[0] != "neg"@[0]);
            reveal_strlit("and");
            assert("ret"@[0] != "and"@[0]);
            reveal_strlit("or");
            assert("ret"@.len() != "or"@.len());
            reveal_strlit("xor");
            assert("ret"@[0] != "xor"@[0]);
            reveal_strlit("shl");
            assert("ret"@[0] != "shl"@[0]);
            reveal_strlit("shr");
            assert("ret"@[0] != "shr"@[0]);
            reveal_strlit("cmp");
            assert("ret"@[0] != "cmp"@[0]);
            reveal_strlit("jmp");
            assert("ret"@[0] != "jmp"@[0]);
            reveal_strlit("jeq");
            assert("ret"@[0] != "jeq"@[0]);
            reveal_strlit("jne");
            assert("ret"@[0] != "jne"@[0]);
            reveal_strlit("jge");
            assert("ret"@[0] != "jge"@[0]);
            reveal_strlit("jgt");
            assert("ret"@[0] != "jgt"@[0]);
            reveal_strlit("jle");
            assert("ret"@[0] != "jle"@[0]);
            reveal_strlit("jlt");
            assert("ret"@[0] != "jlt"@[0]);
            reveal_strlit("call");
            assert("ret"@.len() != "call"@.len());
            reveal_strlit("coal");
            assert("ret"@.len() != "coal"@.len());
        },
        Keyword::Push => {
            reveal_strlit("push");
            reveal_strlit("inc");
            assert("push"@.len() != "inc"@.len());
            reveal_strlit("dec");
            assert("push"@.len() != "dec"@.len());
            reveal_strlit("add");
            assert("push"@.len() != "add"@.len());
            reveal_strlit("sub");
            assert("push"@.len() != "sub"@.len());
            reveal_strlit("mul");
            assert("push"@.len() != "mul"@.len());
            reveal_strlit("div");
            assert("push"@.len() != "div"@.len());
            reveal_strlit("rem");
            assert("push"@.len() != "rem"@.len());
            reveal_strlit("pow");
            assert("push"@.len() != "pow"@.len());
            reveal_strlit("neg");
            assert("push"@.len() != "neg"@.len());
            reveal_strlit("and");
            assert("push"@.len() != "and"@.len());
            reveal_strlit("or");
            assert("push"@.len() != "or"@.len());
            reveal_strlit("xor");
            assert("push"@.len() != "xor"@.len());
            reveal_strlit("shl");
            assert("push"@.len() != "shl"@.len());
            reveal_strlit("shr");
            assert("push"@.len() != "shr"@.len());
            reveal_strlit("cmp");
            assert("push"@.len() != "cmp"@.len());
            reveal_strlit("jmp");
            assert("push"@.len() != "jmp"@.len());
            reveal_strlit("jeq");
            assert("push"@.len() != "jeq"@.len());
            reveal_strlit("jne");
            assert("push"@.len() != "jne"@.len());
            reveal_strlit("jge");
            assert("push"@.len() != "jge"@.len());
            reveal_strlit("jgt");
            assert("push"@.len() != "jgt"@.len());
            reveal_strlit("jle");
            assert("push"@.len() != "jle"@.len());
            reveal_strlit("jlt");
            assert("push"@.len() != "jlt"@.len());
            reveal_strlit("call");
            assert("push"@[0] != "call"@[0]);
            reveal_strlit("coal");
            assert("push"@[0] != "coal"@[0]);
            reveal_strlit("ret");
            assert("push"@.len() != "ret"@.len());
        },
        Keyword::Pop => {
            reveal_strlit("pop");
            reveal_strlit("inc");
            assert("pop"@[0] != "inc"@[0]);
            reveal_strlit("dec");
            assert("pop"@[0] != "dec"@[0]);
            reveal_strlit("add");
            assert("pop"@[0] != "add"@[0]);
            reveal_strlit("sub");
            assert("pop"@[0] != "sub"@[0]);
            reveal_strlit("mul");
            assert("pop"@[0] != "mul"@[0]);
            reveal_strlit("div");
            assert("pop"@[0] != "div"@[0]);
            reveal_strlit("rem");
            assert("pop"@[0] != "rem"@[0]);
            reveal_strlit("pow");
            assert("pop"@[2] != "pow"@[2]);
            reveal_strlit("neg");
            assert("pop"@[0] != "neg"@[0]);
            reveal_strlit("and");
            assert("pop"@[0] != "and"@[0]);
            reveal_strlit("or");
            assert("pop"@.len() != "or"@.len());
            reveal_strlit("xor");
            assert("pop"@[0] != "xor"@[0]);
            reveal_strlit("shl");
            assert("pop"@[0] != "shl"@[0]);
            reveal_strlit("shr");
            assert("pop"@[0] != "shr"@[0]);
            reveal_strlit("cmp");
            assert("pop"@[0] != "cmp"@[0]);
            reveal_strlit("jmp");
            assert("pop"@[0] != "jmp"@[0]);
            reveal_strlit("jeq");
            assert("pop"@[0] != "jeq"@[0]);
            reveal_strlit("jne");
            assert("pop"@[0] != "jne"@[0]);
            reveal_strlit("jge");
            assert("pop"@[0] != "jge"@[0]);
            reveal_strlit("jgt");
            assert("pop"@[0] != "jgt"@[0]);
            reveal_strlit("jle");
            assert("pop"@[0] != "jle"@[0]);
            reveal_strlit("jlt");
            assert("pop"@[0] != "jlt"@[0]);
            reveal_strlit("call");
            assert("pop"@.len() != "call"@.len());
            reveal_strlit("coal");
            assert("pop"@.len() != "coal"@.len());
            reveal_strlit("ret");
            assert("pop"@[0] != "ret"@[0]);
            reveal_strlit("push");
            assert("pop"@.len() != "push"@.len());
        },
        Keyword::Pusha => {
            reveal_strlit("pusha");
            reveal_strlit("inc");
            assert("pusha"@.len() != "inc"@.len());
            reveal_strlit("dec");
            assert("pusha"@.len() != "dec"@.len());
            reveal_strlit("add");
            assert("pusha"@.len() != "add"@.len());
            reveal_strlit("sub");
            assert("pusha"@.len() != "sub"@.len());
            reveal_strlit("mul");
            assert("pusha"@.len() != "mul"@.len());
            reveal_strlit("div");
            assert("pusha"@.len() != "div"@.len());
            reveal_strlit("rem");
            assert("pusha"@.len() != "rem"@.len());
            reveal_strlit("pow");
            assert("pusha"@.len() != "pow"@.len());
            reveal_strlit("neg");
            assert("pusha"@.len() != "neg"@.len());
            reveal_strlit("and");
            assert("pusha"@.len() != "and"@.len());
            reveal_strlit("or");
            assert("pusha"@.len() != "or"@.len());
            reveal_strlit("xor");
            assert("pusha"@.len() != "xor"@.len());
            reveal_strlit("shl");
            assert("pusha"@.len() != "shl"@.len());
            reveal_strlit("shr");
            assert("pusha"@.len() != "shr"@.len());
            reveal_strlit("cmp");
            assert("pusha"@.len() != "cmp"@.len());
            reveal_strlit("jmp");
            assert("pusha"@.len() != "jmp"@.len());
            reveal_strlit("jeq");
            assert("pusha"@.len() != "jeq"@.len());
            reveal_strlit("jne");
            assert("pusha"@.len() != "jne"@.len());
            reveal_strlit("jge");
            assert("pusha"@.len() != "jge"@.len());
            reveal_strlit("jgt");
            assert("pusha"@.len() != "jgt"@.len());
            reveal_strlit("jle");
            assert("pusha"@.len() != "jle"@.len());
            reveal_strlit("jlt");
            assert("pusha"@.len() != "jlt"@.len());
            reveal_strlit("call");
            assert("pusha"@.len() != "call"@.len());
            reveal_strlit("coal");
            assert("pusha"@.len() != "coal"@.len());
            reveal_strlit("ret");
            assert("pusha"@.len() != "ret"@.len());
            reveal_strlit("push");
            assert("pusha"@.len() != "push"@.len());
            reveal_strlit("pop");
            assert("pusha"@.len() != "pop"@.len());
        },
        Keyword::Popa => {
            reveal_strlit("popa");
            reveal_strlit("inc");
            assert("popa"@.len() != "inc"@.len());
            reveal_strlit("dec");
            assert("popa"@.len() != "dec"@.len());
            reveal_strlit("add");
            assert("popa"@.len() != "add"@.len());
            reveal_strlit("sub");
            assert("popa"@.len() != "sub"@.len());
            reveal_strlit("mul");
            assert("popa"@.len() != "mul"@.len());
            reveal_strlit("div");
            assert("popa"@.len() != "div"@.len());
            reveal_strlit("rem");
            assert("popa"@.len() != "rem"@.len());
            reveal_strlit("pow");
            assert("popa"@.len() != "pow"@.len());
            reveal_strlit("neg");
            assert("popa"@.len() != "neg"@.len());
            reveal_strlit("and");
            assert("popa"@.len() != "and"@.len());
            reveal_strlit("or");
            assert("popa"@.len() != "or"@.len());
            reveal_strlit("xor");
            assert("popa"@.len() != "xor"@.len());
            reveal_strlit("shl");
            assert("popa"@.len() != "shl"@.len());
            reveal_strlit("shr");
            assert("popa"@.len() != "shr"@.len());
            reveal_strlit("cmp");
            assert("popa"@.len() != "cmp"@.len());
            reveal_strlit("jmp");
            assert("popa"@.len() != "jmp"@.len());
            reveal_strlit("jeq");
            assert("popa"@.len() != "jeq"@.len());
            reveal_strlit("jne");
            assert("popa"@.len() != "jne"@.len());
            reveal_strlit("jge");
            assert("popa"@.len() != "jge"@.len());
            reveal_strlit("jgt");
            assert("popa"@.len() != "jgt"@.len());
            reveal_strlit("jle");
            assert("popa"@.len() != "jle"@.len());
            reveal_strlit("jlt");
            assert("popa"@.len() != "jlt"@.len());
            reveal_strlit("call");
            assert("popa"@[0] != "call"@[0]);
            reveal_strlit("coal");
            assert("popa"@[0] != "coal"@[0]);
            reveal_strlit("ret");
            assert("popa"@.len() != "ret"@.len());
            reveal_strlit("push");
            assert("popa"@[1] != "push"@[1]);
            reveal_strlit("pop");
            assert("popa"@.len() != "pop"@.len());
            reveal_strlit("pusha");
            assert("popa"@.len() != "pusha"@.len());
        },
        Keyword::Dv => {
            reveal_strlit("dv");
            reveal_strlit("inc");
            assert("dv"@.len() != "inc"@.len());
            reveal_strlit("dec");
            assert("dv"@.len() != "dec"@.len());
            reveal_strlit("add");
            assert("dv"@.len() != "add"@.len());
            reveal_strlit("sub");
            assert("dv"@.len() != "sub"@.len());
            reveal_strlit("mul");
            assert("dv"@.len() != "mul"@.len());
            reveal_strlit("div");
            assert("dv"@.len() != "div"@.len());
            reveal_strlit("rem");
            assert("dv"@.len() != "rem"@.len());
            reveal_strlit("pow");
            assert("dv"@.len() != "pow"@.len());
            reveal_strlit("neg");
            assert("dv"@.len() != "neg"@.len());
            reveal_strlit("and");
            assert("dv"@.len() != "and"@.len());
            reveal_strlit("or");
            assert("dv"@[0] != "or"@[0]);
            reveal_strlit("xor");
            assert("dv"@.len() != "xor"@.len());
            reveal_strlit("shl");
            assert("dv"@.len() != "shl"@.len());
            reveal_strlit("shr");
            assert("dv"@.len() != "shr"@.len());
            reveal_strlit("cmp");
            assert("dv"@.len() != "cmp"@.len());
            reveal_strlit("jmp");
            assert("dv"@.len() != "jmp"@.len());
            reveal_strlit("jeq");
            assert("dv"@.len() != "jeq"@.len());
            reveal_strlit("jne");
            assert("dv"@.len() != "jne"@.len());
            reveal_strlit("jge");
            assert("dv"@.len() != "jge"@.len());
            reveal_strlit("jgt");
            assert("dv"@.len() != "jgt"@.len());
            reveal_strlit("jle");
            assert("dv"@.len() != "jle"@.len());
            reveal_strlit("jlt");
            assert("dv"@.len() != "jlt"@.len());
            reveal_strlit("call");
            assert("dv"@.len() != "call"@.len());
            reveal_strlit("coal");
            assert("dv"@.len() != "coal"@.len());
            reveal_strlit("ret");
            assert("dv"@.len() != "ret"@.len());
            reveal_strlit("push");
            assert("dv"@.len() != "push"@.len());
            reveal_strlit("pop");
            assert("dv"@.len() != "pop"@.len());
            reveal_strlit("pusha");
            assert("dv"@.len() != "pusha"@.len());
            reveal_strlit("popa");
            assert("dv"@.len() != "popa"@.len());
        },
        Keyword::Mov => {
            reveal_strlit("mov");
            reveal_strlit("inc");
            assert("mov"@[0] != "inc"@[0]);
            reveal_strlit("dec");
            assert("mov"@[0] != "dec"@[0]);
            reveal_strlit("add");
            assert("mov"@[0] != "add"@[0]);
            reveal_strlit("sub");
            assert("mov"@[0] != "sub"@[0]);
            reveal_strlit("mul");
            assert("mov"@[1] != "mul"@[1]);
            reveal_strlit("div");
            assert("mov"@[0] != "div"@[0]);
            reveal_strlit("rem");
            assert("mov"@[0] != "rem"@[0]);
            reveal_strlit("pow");
            assert("mov"@[0] != "pow"@[0]);
            reveal_strlit("neg");
            assert("mov"@[0] != "neg"@[0]);
            reveal_strlit("and");
            assert("mov"@[0] != "and"@[0]);
            reveal_strlit("or");
            assert("mov"@.len() != "or"@.len());
            reveal_strlit("xor");
            assert("mov"@[0] != "xor"@[0]);
            reveal_strlit("shl");
            assert("mov"@[0] != "shl"@[0]);
            reveal_strlit("shr");
            assert("mov"@[0] != "shr"@[0]);
            reveal_strlit("cmp");
            assert("mov"@[0] != "cmp"@[0]);
            reveal_strlit("jmp");
            assert("mov"@[0] != "jmp"@[0]);
            reveal_strlit("jeq");
            assert("mov"@[0] != "jeq"@[0]);
            reveal_strlit("jne");
            assert("mov"@[0] != "jne"@[0]);
            reveal_strlit("jge");
            assert("mov"@[0] != "jge"@[0]);
            reveal_strlit("jgt");
            assert("mov"@[0] != "jgt"@[0]);
            reveal_strlit("jle");
            assert("mov"@[0] != "jle"@[0]);
            reveal_strlit("jlt");
            assert("mov"@[0] != "jlt"@[0]);
            reveal_strlit("call");
            assert("mov"@.len() != "call"@.len());
            reveal_strlit("coal");
            assert("mov"@.len() != "coal"@.len());
            reveal_strlit("ret");
            assert("mov"@[0] != "ret"@[0]);
            reveal_strlit("push");
            assert("mov"@.len() != "push"@.len());
            reveal_strlit("pop");
            assert("mov"@[0] != "pop"@[0]);
            reveal_strlit("pusha");
            assert("mov"@.len() != "pusha"@.len());
            reveal_strlit("popa");
            assert("mov"@.len() != "popa"@.len());
            reveal_strlit("dv");
            assert("mov"@.len() != "dv"@.len());
        },
    }
}

impl Keyword {
    /// The name of the variant, as `{:?}` prints it.
    pub fn debug_name(&self) -> (res: &'static str)
        ensures
            res@ == spec_keyword_debug(*self),
    {
        match self {
            Keyword::Inc => "Inc",
            Keyword::Dec => "Dec",
            Keyword::Add => "Add",
            Keyword::Sub => "Sub",
            Keyword::Mul => "Mul",
            Keyword::Div => "Div",
            Keyword::Rem => "Rem",
            Keyword::Pow => "Pow",
            Keyword::Neg => "Neg",
            Keyword::And => "And",
            Keyword::Or => "Or",
            Keyword::Xor => "Xor",
            Keyword::Shl => "Shl",
            Keyword::Shr => "Shr",
            Keyword::Cmp => "Cmp",
            Keyword::Jmp => "Jmp",
            Keyword::Jeq => "Jeq",
            Keyword::Jne => "Jne",
            Keyword::Jge => "Jge",
            Keyword::Jgt => "Jgt",
            Keyword::Jle => "Jle",
            Keyword::Jlt => "Jlt",
            Keyword::Coal => "Coal",
            Keyword::Call => "Call",
            Keyword::Ret => "Ret",
            Keyword::Push => "Push",
            Keyword::Pop => "Pop",
            Keyword::Pusha => "Pusha",
            Keyword::Popa => "Popa",
            Keyword::Dv => "Dv",
            Keyword::Mov => "Mov",
        }
    }

    /// The number of operands the mnemonic takes.
    pub fn arguments(&self) -> (res: usize)
        ensures
            res == spec_keyword_arguments(*self),
    {
        match self {
            Keyword::Mov | Keyword::Add | Keyword::Sub | Keyword::Mul | Keyword::Div | Keyword::Rem | Keyword::Pow | Keyword::Neg | Keyword::And | Keyword::Or | Keyword::Xor | Keyword::Shl | Keyword::Shr | Keyword::Cmp | Keyword::Coal => 2,
            Keyword::Dv | Keyword::Inc | Keyword::Dec | Keyword::Jmp | Keyword::Jeq | Keyword::Jne | Keyword::Jge | Keyword::Jgt | Keyword::Jle | Keyword::Jlt | Keyword::Call | Keyword::Push | Keyword::Pop => 1,
            Keyword::Ret | Keyword::Pusha | Keyword::Popa => 0,
        }
    }

    /// The machine instruction of the mnemonic; `dv` and `mov` have none.
    pub fn into_inx(&self) -> (res: Instruction)
        requires
            is_instruction_keyword(*self),
        ensures
            res == spec_keyword_inx(*self),
    {
        match self {
            Keyword::Inc => Instruction::Inc,
            Keyword::Dec => Instruction::Dec,
            Keyword::Add => Instruction::Add,
            Keyword::Sub => Instruction::Sub,
            Keyword::Mul => Instruction::Mul,
            Keyword::Div => Instruction::Div,
            Keyword::Rem => Instruction::Rem,
            Keyword::Pow => Instruction::Pow,
            Keyword::Neg => Instruction::Neg,
            Keyword::And => Instruction::And,
            Keyword::Or => Instruction::Or,
            Keyword::Xor => Instruction::Xor,
            Keyword::Shl => Instruction::Shl,
            Keyword::Shr => Instruction::Shr,
            Keyword::Cmp => Instruction::Cmp,
            Keyword::Jmp => Instruction::Jmp,
            Keyword::Jeq => Instruction::Jeq,
            Keyword::Jne => Instruction::Jne,
            Keyword::Jge => Instruction::Jge,
            Keyword::Jgt => Instruction::Jgt,
            Keyword::Jle => Instruction::Jle,
            Keyword::Jlt => Instruction::Jlt,
            Keyword::Coal => Instruction::Coal,
            Keyword::Call => Instruction::Call,
            Keyword::Ret => Instruction::Ret,
            Keyword::Push => Instruction::Push,
            Keyword::Pop => Instruction::Pop,
            Keyword::Pusha => Instruction::Pusha,
            Keyword::Popa => Instruction::Popa,
            Keyword::Dv | Keyword::Mov => vstd::pervasive::unreached(),
        }
    }

    /// Reads a mnemonic; any other text is rejected with `"not an keyword"`.
    pub fn from_str(from: &str) -> (res: Result<Keyword, &'static str>)
        ensures
            spec_keyword_from_str(from@) matches Some(k) ==> res == Ok::<Keyword, &'static str>(k),
            spec_keyword_from_str(from@) is None ==> (res matches Err(e) && e@ == "not an keyword"@),
    {
        if str_eq(from, "inc") {
            return Ok(Keyword::Inc);
        }
        if str_eq(from, "dec") {
            return Ok(Keyword::Dec);
        }
        if str_eq(from, "add") {
            return Ok(Keyword::Add);
        }
        if str_eq(from, "sub") {
            return Ok(Keyword::Sub);
        }
        if str_eq(from, "mul") {
            return Ok(Keyword::Mul);
        }
        if str_eq(from, "div") {
            return Ok(Keyword::Div);
        }
        if str_eq(from, "rem") {
            return Ok(Keyword::Rem);
        }
        if str_eq(from, "pow") {
            return Ok(Keyword::Pow);
        }
        if str_eq(from, "neg") {
            return Ok(Keyword::Neg);
        }
        if str_eq(from, "and") {
            return Ok(Keyword::And);
        }
        if str_eq(from, "or") {
            return Ok(Keyword::Or);
        }
        if str_eq(from, "xor") {
            return Ok(Keyword::Xor);
        }
        if str_eq(from, "shl") {
            return Ok(Keyword::Shl);
        }
        if str_eq(from, "shr") {
            return Ok(Keyword::Shr);
        }
        if str_eq(from, "cmp") {
            return Ok(Keyword::Cmp);
        }
        if str_eq(from, "jmp") {
            return Ok(Keyword::Jmp);
        }
        if str_eq(from, "jeq") {
            return Ok(Keyword::Jeq);
        }
        if str_eq(from, "jne") {
            return Ok(Keyword::Jne);
        }
        if str_eq(from, "jge") {
            return Ok(Keyword::Jge);
        }
        if str_eq(from, "jgt") {
            return Ok(Keyword::Jgt);
        }
        if str_eq(from, "jle") {
            return Ok(Keyword::Jle);
        }
        if str_eq(from, "jlt") {
            return Ok(Keyword::Jlt);
        }
        if str_eq(from, "call") {
            return Ok(Keyword::Call);
        }
        if str_eq(from, "coal") {
            return Ok(Keyword::Coal);
        }
        if str_eq(from, "ret") {
            return Ok(Keyword::Ret);
        }
        if str_eq(from, "push") {
            return Ok(Keyword::Push);
        }
        if str_eq(from, "pop") {
            return Ok(Keyword::Pop);
        }
        if str_eq(from, "pusha") {
            return Ok(Keyword::Pusha);
        }
        if str_eq(from, "popa") {
            return Ok(Keyword::Popa);
        }
        if str_eq(from, "dv") {
            return Ok(Keyword::Dv);
        }
        if str_eq(from, "mov") {
            return Ok(Keyword::Mov);
        }
        Err("not an keyword")
    }
}

} // verus!
