use crate::assembler::compiler::objects::ty::Type;
use crate::assembler::parser::keyword::{is_instruction_keyword, spec_keyword_inx, Keyword};
use crate::assembler::target::Instruction;
use vstd::prelude::*;

verus! {

/// A statement: its mnemonic, an optional type annotation and up to two operands.
#[derive(Debug)]
pub struct Statement<O> {
    pub kw: Keyword,
    pub ty: Option<Type>,
    pub arg1: Option<O>,
    pub arg2: Option<O>,
}

impl<O> Statement<O> {
    /// A statement without operands.
    pub fn from(kw: Keyword, ty: Option<Type>) -> (res: Self)
        ensures
            res.kw == kw,
            res.ty == ty,
            res.arg1 is None,
            res.arg2 is None,
    {
        Statement { kw, ty, arg1: None, arg2: None }
    }

    /// Sets the type annotation.
    pub fn ty(self, ty: Option<Type>) -> (res: Self)
        ensures
            res.kw == self.kw,
            res.ty == ty,
            res.arg1 == self.arg1,
            res.arg2 == self.arg2,
    {
        let mut s = self;
        s.ty = ty;
        s
    }

    /// Sets the first operand.
    pub fn arg1(self, arg1: O) -> (res: Self)
        ensures
            res.kw == self.kw,
            res.ty == self.ty,
            res.arg1 == Some(arg1),
            res.arg2 == self.arg2,
    {
        let mut s = self;
        s.arg1 = Some(arg1);
        s
    }

    /// Sets the second operand.
    pub fn arg2(self, arg2: O) -> (res: Self)
        ensures
            res.kw == self.kw,
            res.ty == self.ty,
            res.arg1 == self.arg1,
            res.arg2 == Some(arg2),
    {
        let mut s = self;
        s.arg2 = Some(arg2);
        s
    }

    /// The machine instruction of the mnemonic; `dv` and `mov` have none.
    pub fn inx(&self) -> (res: Instruction)
        requires
            is_instruction_keyword(self.kw),
        ensures
            res == spec_keyword_inx(self.kw),
    {
        self.kw.into_inx()
    }
}

} // verus!
