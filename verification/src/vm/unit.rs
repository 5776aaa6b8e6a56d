use std::rc::Rc;
use vstd::prelude::*;

use crate::data::unit::{has_slot, is_first_slot, CodeObjectRef, Unit};

verus! {

/// A shared reference to a loaded unit.
#[derive(Debug)]
pub struct UnitRef<V>(pub Rc<Unit<V>>);

impl<V> Clone for UnitRef<V> {
    fn clone(&self) -> (res: Self)
        ensures
            res == *self,
    {
        UnitRef(self.0.clone())
    }
}

/// The units a machine has loaded, in order, and the units registered as
/// named types.
#[derive(Debug)]
pub struct Units<V> {
    pub units: Vec<UnitRef<V>>,
    pub types: Vec<(String, UnitRef<V>)>,
}

/// Unit `i` is the first of `units` with a slot named `name`.
pub open spec fn is_first_unit_with<V>(units: Seq<UnitRef<V>>, name: Seq<char>, i: int) -> bool {
    &&& 0 <= i < units.len()
    &&& has_slot(units[i].0.code@, name)
    &&& forall|j: int| 0 <= j < i ==> !has_slot((#[trigger] units[j]).0.code@, name)
}

/// The position of the type named `name` among `types`, if any.
pub open spec fn type_pos<V>(types: Seq<(String, UnitRef<V>)>, name: Seq<char>, i: int) -> bool {
    0 <= i < types.len() && types[i].0@ == name
}

/// The position of the type named `name`, if any.
fn find_type<V>(types: &Vec<(String, UnitRef<V>)>, name: &str) -> (res: Option<usize>)
    ensures
        match res {
            Some(i) => type_pos(types@, name@, i as int) && forall|j: int| 0 <= j < i ==> (#[trigger] types@[j]).0@ != name@,
            None => forall|i: int| 0 <= i < types@.len() ==> (#[trigger] types@[i]).0@ != name@,
        },
{
    let n = types.len();
    let mut i: usize = 0;
    while i < n
        invariant
            n == types@.len(),
            i <= n,
            forall|j: int| 0 <= j < i ==> (#[trigger] types@[j]).0@ != name@,
        decreases n - i,
    {
        if crate::text::str_eq(types[i].0.as_str(), name) {
            return Some(i);
        }
        i += 1;
    }
    None
}

impl<V: PartialEq + Clone> Units<V> {
    /// The loaded units at start: one empty unit, registered as the type `object`.
    pub fn new() -> (res: Self)
        ensures
            res.units@.len() == 1,
            res.units@[0].0.code@.len() == 0,
            res.types@.len() == 1,
            res.types@[0].0@ == "object"@,
            res.types@[0].1 == res.units@[0],
    {
        let unit = UnitRef(Rc::new(Unit::new()));
        let mut units = Vec::new();
        units.push(unit.clone());
        let mut types = Vec::new();
        types.push((String::from_str("object"), unit));
        Units { units, types }
    }

    /// The code object named `name` in the first loaded unit that has one.
    pub fn lookup(&self, name: &String) -> (res: Option<CodeObjectRef<V>>)
        ensures
            match res {
                Some(r) => exists|i: int, k: int| is_first_unit_with(self.units@, name@, i) && is_first_slot(
                    self.units@[i].0.code@, name@, k) && r == self.units@[i].0.code@[k].1,
                None => forall|i: int| 0 <= i < self.units@.len() ==> !has_slot((#[trigger] self.units@[i]).0.code@, name@),
            },
    {
        let n = self.units.len();
        let mut i: usize = 0;
        while i < n
            invariant
                n == self.units@.len(),
                i <= n,
                forall|j: int| 0 <= j < i ==> !has_slot((#[trigger] self.units@[j]).0.code@, name@),
            decreases n - i,
        {
            let unit: &Unit<V> = &self.units[i].0;
            match unit.get(name) {
                Some(co) => {
                    return Some(co);
                },
                None => {},
            }
            i += 1;
        }
        None
    }

    /// The unit registered as the type `name`, if any.
    pub fn lookup_ty(&self, name: &String) -> (res: Option<UnitRef<V>>)
        ensures
            match res {
                Some(u) => exists|i: int| type_pos(self.types@, name@, i) && u == self.types@[i].1
                    && forall|j: int| 0 <= j < i ==> (#[trigger] self.types@[j]).0@ != name@,
                None => forall|i: int| 0 <= i < self.types@.len() ==> (#[trigger] self.types@[i]).0@ != name@,
            },
    {
        match find_type(&self.types, name.as_str()) {
            Some(i) => Some(self.types[i].1.clone()),
            None => None,
        }
    }

    /// Loads a copy of `module` after the units loaded so far.
    pub fn load(&mut self, module: &Unit<V>) -> (res: Result<(), String>)
        ensures
            res is Ok,
            final(self).types == old(self).types,
            final(self).units@.len() == old(self).units@.len() + 1,
            final(self).units@.subrange(0, old(self).units@.len() as int) == old(self).units@,
            cloned(*module, *final(self).units@.last().0),
    {
        let ghost before = self.units@;
        self.units.push(UnitRef(Rc::new(module.clone())));
        assert(self.units@.subrange(0, before.len() as int) =~= before);
        Ok(())
    }

    /// Loads a copy of `module` and registers it as the type `name`, in place of
    /// a type of that name registered before.
    pub fn load_ty(&mut self, module: &Unit<V>, name: String) -> (res: Result<(), String>)
        ensures
            res is Ok,
            final(self).units@.len() == old(self).units@.len() + 1,
            final(self).units@.subrange(0, old(self).units@.len() as int) == old(self).units@,
            cloned(*module, *final(self).units@.last().0),
            match (exists|i: int| type_pos(old(self).types@, name@, i)) {
                true => exists|i: int| type_pos(old(self).types@, name@, i) && final(self).types@ == old(self).types@.update(
                    i, (old(self).types@[i].0, final(self).units@.last())),
                false => final(self).types@ == old(self).types@.push((name, final(self).units@.last())),
            },
    {
        let ghost before = self.units@;
        self.units.push(UnitRef(Rc::new(module.clone())));
        assert(self.units@.subrange(0, before.len() as int) =~= before);
        let last = self.units[self.units.len() - 1].clone();
        match find_type(&self.types, name.as_str()) {
            Some(i) => {
                let key = self.types[i].0.clone();
                self.types.set(i, (key, last));
            },
            None => {
                self.types.push((name, last));
                assert(!(exists|i: int| type_pos(old(self).types@, name@, i)));
            },
        }
        Ok(())
    }
}

} // verus!
