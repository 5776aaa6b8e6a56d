use lovm::code::Instruction;
use lovm::data::code::{Code, Protocol};

#[test]
fn code_arg_of_argument_instructions() {
    assert_eq!(Code::Jmp(3).arg(), Some(3));
    assert_eq!(Code::CPush(0).arg(), Some(0));
    assert_eq!(Code::OCall(9).arg(), Some(9));
    assert_eq!(Code::ONew(4).arg(), Some(4));
    assert_eq!(Code::Int(10).arg(), Some(10));
}

#[test]
fn code_arg_of_plain_instructions() {
    assert_eq!(Code::Add.arg(), None);
    assert_eq!(Code::Dup.arg(), None);
    assert_eq!(Code::ONewDict.arg(), None);
    assert_eq!(Code::OAppend.arg(), None);
}

#[test]
fn code_arg_mut_replaces_the_argument() {
    let mut c = Code::LPop(1);
    *c.arg_mut().unwrap() = 7;
    assert_eq!(c, Code::LPop(7));
    assert_eq!(c.arg(), Some(7));
}

#[test]
fn code_arg_mut_of_plain_instruction_is_none() {
    let mut c = Code::Ret;
    assert!(c.arg_mut().is_none());
    assert_eq!(c, Code::Ret);
}

#[test]
fn code_arguments_counts() {
    assert_eq!(Code::GCall(2).arguments(), 1);
    assert_eq!(Code::Cast(1).arguments(), 1);
    assert_eq!(Code::Pusha.arguments(), 0);
    assert_eq!(Code::CmpLt.arguments(), 0);
    assert_eq!(Protocol::<usize>::OSet(0).arguments(), 1);
}

#[test]
fn code_arg_roundtrip_law() {
    // setting an argument and reading it back gives it; putting back the old one restores
    let mut c = Code::Jf(5);
    let old = c.arg().unwrap();
    *c.arg_mut().unwrap() = 11;
    assert_eq!(c.arg(), Some(11));
    *c.arg_mut().unwrap() = old;
    assert_eq!(c, Code::Jf(5));
}

#[test]
fn instruction_arg_and_arguments() {
    assert_eq!(Instruction::CPush(2).arg(), Some(2));
    assert_eq!(Instruction::OGet(1).arg(), Some(1));
    assert_eq!(Instruction::ONew.arg(), None);
    assert_eq!(Instruction::Add.arg(), None);
    assert_eq!(Instruction::GPop(3).arguments(), 1);
    assert_eq!(Instruction::Ret.arguments(), 0);
}

#[test]
fn instruction_arg_mut_replaces_the_argument() {
    let mut i = Instruction::GCall(0);
    *i.arg_mut().unwrap() = 4;
    assert_eq!(i, Instruction::GCall(4));
    let mut j = Instruction::Popa;
    assert!(j.arg_mut().is_none());
    assert_eq!(j, Instruction::Popa);
}
