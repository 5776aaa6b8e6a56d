use crate::assembler::compiler::objects::ident::Ident;
use std::rc::Rc;
use vstd::prelude::*;

verus! {

/// A jump label: where it is declared, where it is used, and whether it is exported.
#[derive(Debug)]
pub struct Label {
    pub decl: Option<(Ident, usize)>,
    pub locations: Vec<(Ident, usize)>,
    pub parent: Option<Rc<Label>>,
    pub public: bool,
}

/// A label is exported when it is public and has no parent, or when it is declared as `main`.
pub open spec fn spec_is_exported(l: Label) -> bool {
    (l.parent is None && l.public) || (l.decl matches Some(d) && d.0.raw@ == "main"@)
}

impl Label {
    /// A label that is neither declared nor used.
    pub fn new() -> (res: Self)
        ensures
            res.decl is None,
            res.locations@.len() == 0,
            res.parent is None,
            !res.public,
    {
        Self { decl: None, locations: Vec::new(), parent: None, public: false }
    }

    /// Records the declaration of the label.
    pub fn declaration(self, ident: &Ident, off: usize) -> (res: Self)
        ensures
            res.decl == Some((*ident, off)),
            res.locations == self.locations,
            res.parent == self.parent,
            res.public == self.public,
    {
        let mut s = self;
        s.decl = Some((ident.clone(), off));
        s
    }

    /// Records a use of the label.
    pub fn location(self, ident: &Ident, off: usize) -> (res: Self)
        ensures
            res.decl == self.decl,
            res.locations@ == self.locations@.push((*ident, off)),
            res.parent == self.parent,
            res.public == self.public,
    {
        let mut s = self;
        s.locations.push((ident.clone(), off));
        s
    }

    /// Whether the label is visible outside its unit.
    pub fn is_exported(&self) -> (res: bool)
        ensures
            res == spec_is_exported(*self),
    {
        (self.parent.is_none() && self.public) || match &self.decl {
            Some((ident, _)) => crate::text::str_eq(ident.raw.as_str(), "main"),
            None => false,
        }
    }
}

} // verus!
