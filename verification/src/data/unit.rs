use std::rc::Rc;
use vstd::prelude::*;

use crate::data::code::{Code, CodeObject};
use crate::data::space::Space;

verus! {

/// A shared reference to a code object: handing it out keeps the object alive
/// for as long as the receiver needs it.
#[derive(Debug)]
pub struct CodeObjectRef<V>(pub Rc<CodeObject<V>>);

impl<V> Clone for CodeObjectRef<V> {
    fn clone(&self) -> (res: Self)
        ensures
            res == *self,
    {
        CodeObjectRef(self.0.clone())
    }
}

impl<V> CodeObject<V> {
    /// Wraps the code object into a shared reference.
    pub fn into_ref(self) -> (res: CodeObjectRef<V>)
        ensures
            *res.0 == self,
    {
        CodeObjectRef(Rc::new(self))
    }
}

/// A program unit: a pool of shared data and named code objects.
#[derive(Clone, Debug)]
pub struct Unit<V> {
    pub space: Space<V>,
    pub code: Vec<(String, CodeObjectRef<V>)>,
}

/// Slot `i` is the first slot of `code` named `name`.
pub open spec fn is_first_slot<V>(code: Seq<(String, CodeObjectRef<V>)>, name: Seq<char>, i: int) -> bool {
    &&& 0 <= i < code.len()
    &&& code[i].0@ == name
    &&& forall|j: int| 0 <= j < i ==> (#[trigger] code[j]).0@ != name
}

/// Some slot of `code` is named `name`.
pub open spec fn has_slot<V>(code: Seq<(String, CodeObjectRef<V>)>, name: Seq<char>) -> bool {
    exists|i: int| 0 <= i < code.len() && (#[trigger] code[i]).0@ == name
}

/// The position of the first slot of `code` named `name`, if any.
fn find_slot<V>(code: &Vec<(String, CodeObjectRef<V>)>, name: &str) -> (res: Option<usize>)
    ensures
        match res {
            Some(i) => is_first_slot(code@, name@, i as int),
            None => !has_slot(code@, name@),
        },
{
    let n = code.len();
    let mut i: usize = 0;
    while i < n
        invariant
            n == code@.len(),
            i <= n,
            forall|j: int| 0 <= j < i ==> (#[trigger] code@[j]).0@ != name@,
        decreases n - i,
    {
        if crate::text::str_eq(code[i].0.as_str(), name) {
            return Some(i);
        }
        i += 1;
    }
    None
}

impl<V: PartialEq + Clone> Unit<V> {
    /// An empty unit.
    pub fn new() -> (res: Self)
        ensures
            res.space.consts@.len() == 0,
            res.space.locals@.len() == 0,
            res.space.globals@.len() == 0,
            res.code@.len() == 0,
    {
        Unit { space: Space::new(), code: Vec::new() }
    }

    /// The code object in the first slot named `name`, if there is one.
    pub fn get(&self, name: &String) -> (res: Option<CodeObjectRef<V>>)
        ensures
            match res {
                Some(r) => exists|i: int| is_first_slot(self.code@, name@, i) && r == self.code@[i].1,
                None => !has_slot(self.code@, name@),
            },
    {
        match find_slot(&self.code, name.as_str()) {
            Some(i) => Some(self.code[i].1.clone()),
            None => None,
        }
    }

    /// Adds `co` in a new slot named `name`. When a slot of that name exists,
    /// the object goes to a copy of its reference that is dropped at once, so
    /// the unit is left as it is.
    pub fn set(&mut self, name: &String, co: CodeObject<V>)
        ensures
            final(self).space == old(self).space,
            has_slot(old(self).code@, name@) ==> final(self).code@ == old(self).code@,
            !has_slot(old(self).code@, name@) ==> final(self).code@.len() == old(self).code@.len() + 1
                && final(self).code@.subrange(0, old(self).code@.len() as int) == old(self).code@
                && final(self).code@.last().0@ == name@ && *final(self).code@.last().1.0 == co,
    {
        if find_slot(&self.code, name.as_str()).is_none() {
            let ghost before = self.code@;
            self.code.push((name.clone(), co.into_ref()));
            assert(self.code@.subrange(0, before.len() as int) =~= before);
        }
    }

    /// A unit holding `code` as the body of a `main` object without arguments.
    pub fn with_code(code: Vec<Code>) -> (res: Self)
        ensures
            res.space.consts@.len() == 0,
            res.space.locals@.len() == 0,
            res.space.globals@.len() == 0,
            res.code@.len() == 1,
            res.code@[0].0@ == "main"@,
            res.code@[0].1.0.argc == 0,
            res.code@[0].1.0.code@ == code@,
            res.code@[0].1.0.space.consts@.len() == 0,
            res.code@[0].1.0.space.locals@.len() == 0,
            res.code@[0].1.0.space.globals@.len() == 0,
    {
        let mut unit = Self::new();
        let mut co = CodeObject::new();
        co.code = code;
        unit.set(&String::from_str("main"), co);
        unit
    }

    /// The code object of the first slot named `main`.
    pub fn code(&self) -> (res: CodeObjectRef<V>)
        requires
            has_slot(self.code@, "main"@),
        ensures
            exists|i: int| is_first_slot(self.code@, "main"@, i) && res == self.code@[i].1,
    {
        match find_slot(&self.code, "main") {
            Some(i) => self.code[i].1.clone(),
            None => vstd::pervasive::unreached(),
        }
    }

    /// The named slots of the unit.
    pub fn slots(&self) -> (res: &Vec<(String, CodeObjectRef<V>)>)
        ensures
            res == &self.code,
    {
        &self.code
    }
}

} // verus!
