use crate::assembler::target::{spec_register_from_str, Register};
use crate::text::Location;
use vstd::prelude::*;

verus! {

/// A name in assembly source together with where it was read.
/// Two identifiers are equal when their text is, wherever they stand.
#[derive(Debug)]
pub struct Ident {
    pub loc: Location,
    pub raw: String,
}

impl Ident {
    /// Creates an identifier.
    pub fn new(loc: Location, raw: String) -> (res: Self)
        ensures
            res.loc == loc,
            res.raw@ == raw@,
    {
        Self { loc, raw }
    }

    /// Whether the identifier names one of the registers `A` to `D`.
    pub fn is_register(&self) -> (res: bool)
        ensures
            res == spec_register_from_str(self.raw@) is Some,
    {
        Register::from_str(self.raw.as_str()).is_ok()
    }
}

impl Clone for Ident {
    fn clone(&self) -> (res: Self)
        ensures
            res == *self,
    {
        Ident { loc: self.loc, raw: self.raw.clone() }
    }
}

impl PartialEq for Ident {
    fn eq(&self, other: &Ident) -> (res: bool) {
        self.raw == other.raw
    }
}

impl vstd::std_specs::cmp::PartialEqSpecImpl for Ident {
    open spec fn obeys_eq_spec() -> bool {
        true
    }

    open spec fn eq_spec(&self, other: &Ident) -> bool {
        self.raw@ == other.raw@
    }
}

impl Eq for Ident {
}

impl Default for Ident {
    fn default() -> (res: Self)
        ensures
            res.loc == (0usize, 0usize, 0usize),
            res.raw@ == Seq::<char>::empty(),
    {
        Ident { loc: (0, 0, 0), raw: String::new() }
    }
}

} // verus!
