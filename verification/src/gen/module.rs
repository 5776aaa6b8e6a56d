use vstd::prelude::*;

use crate::code::{CodeObject, Module};
use crate::gen::block::BuildResult;

verus! {

/// Collects named code objects and builds a module from them.
#[derive(Debug)]
pub struct ModuleBuilder<V> {
    slots: Vec<(String, CodeObject<V>)>,
}

impl<V> View for ModuleBuilder<V> {
    type V = Seq<(String, CodeObject<V>)>;

    closed spec fn view(&self) -> Seq<(String, CodeObject<V>)> {
        self.slots@
    }
}

impl<V: PartialEq + Clone> ModuleBuilder<V> {
    /// A builder without slots.
    pub fn new() -> (res: Self)
        ensures
            res@.len() == 0,
    {
        ModuleBuilder { slots: Vec::new() }
    }

    /// A builder holding `co` in a slot named `main`.
    pub fn from_object(co: CodeObject<V>) -> (res: Self)
        ensures
            res@.len() == 1,
            res@[0].0@ == "main"@,
            res@[0].1 == co,
    {
        let mut slots = Vec::new();
        slots.push((String::from_str("main"), co));
        ModuleBuilder { slots }
    }

    /// Adds `co` in a new last slot named `name`.
    pub fn decl(&mut self, name: &str, co: CodeObject<V>) -> (res: &mut Self)
        ensures
            res@.len() == old(self)@.len() + 1,
            res@.subrange(0, old(self)@.len() as int) == old(self)@,
            res@.last().0@ == name@,
            res@.last().1 == co,
            *final(self) == *final(res),
    {
        let ghost before = self@;
        self.slots.push((String::from_str(name), co));
        assert(self@.subrange(0, before.len() as int) =~= before);
        self
    }

    /// The module holding the slots of the builder, in order.
    pub fn build(self) -> (res: BuildResult<Module<V>>)
        ensures
            res matches Ok(m) && m.inner@ == self@ && m.space.consts@.len() == 0
                && m.space.locals@.len() == 0 && m.space.globals@.len() == 0,
    {
        let mut module = Module::new();
        module.inner = self.slots;
        Ok(module)
    }
}

} // verus!
