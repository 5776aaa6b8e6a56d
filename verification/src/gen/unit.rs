use vstd::prelude::*;

use crate::data::code::CodeObject;
use crate::data::unit::Unit;
use crate::gen::block::BuildResult;

verus! {

/// Collects named code objects and builds a unit from them.
#[derive(Debug)]
pub struct UnitBuilder<V> {
    slots: Vec<(String, CodeObject<V>)>,
}

/// The names and objects of a list of slots.
pub open spec fn slots_view<V>(s: Seq<(String, CodeObject<V>)>) -> Seq<(Seq<char>, CodeObject<V>)> {
    s.map_values(|x: (String, CodeObject<V>)| (x.0@, x.1))
}

impl<V> View for UnitBuilder<V> {
    type V = Seq<(Seq<char>, CodeObject<V>)>;

    closed spec fn view(&self) -> Seq<(Seq<char>, CodeObject<V>)> {
        slots_view(self.slots@)
    }
}

/// The position of the first slot named `name`, if any.
pub open spec fn first_named<V>(s: Seq<(Seq<char>, CodeObject<V>)>, name: Seq<char>, i: int) -> bool {
    &&& 0 <= i < s.len()
    &&& s[i].0 == name
    &&& forall|j: int| 0 <= j < i ==> (#[trigger] s[j]).0 != name
}

impl<V: PartialEq + Clone> UnitBuilder<V> {
    /// A builder without slots.
    pub fn new() -> (res: Self)
        ensures
            res@ == Seq::<(Seq<char>, CodeObject<V>)>::empty(),
    {
        let b = UnitBuilder { slots: Vec::new() };
        assert(b@ =~= Seq::<(Seq<char>, CodeObject<V>)>::empty());
        b
    }

    /// A builder holding `co` in a slot named `main`.
    pub fn from_object(co: CodeObject<V>) -> (res: Self)
        ensures
            res@ == seq![("main"@, co)],
    {
        let mut slots = Vec::new();
        slots.push((String::from_str("main"), co));
        let b = UnitBuilder { slots };
        assert(b@ =~= seq![("main"@, co)]);
        b
    }

    /// Puts `co` in the first slot named `name`, or in a new last slot when
    /// there is none.
    pub fn set(&mut self, name: &str, co: CodeObject<V>) -> (res: &mut Self)
        ensures
            (exists|i: int| first_named(old(self)@, name@, i)) ==> (exists|i: int|
                first_named(old(self)@, name@, i) && res@ == old(self)@.update(i, (name@, co))),
            !(exists|i: int| first_named(old(self)@, name@, i)) ==> res@ == old(self)@.push((name@, co)),
            *final(self) == *final(res),
    {
        let n = self.slots.len();
        let mut i: usize = 0;
        while i < n
            invariant
                n == self.slots@.len(),
                i <= n,
                *self == *old(self),
                forall|j: int| 0 <= j < i ==> (#[trigger] self@[j]).0 != name@,
            decreases n - i,
        {
            if crate::text::str_eq(self.slots[i].0.as_str(), name) {
                let ghost before = self@;
                self.slots.set(i, (String::from_str(name), co));
                proof {
                    assert(first_named(before, name@, i as int));
                    assert(self@ =~= before.update(i as int, (name@, co)));
                }
                return self;
            }
            i += 1;
        }
        let ghost before = self@;
        self.slots.push((String::from_str(name), co));
        proof {
            assert(self@ =~= before.push((name@, co)));
            assert forall|k: int| !first_named(before, name@, k) by {
                if 0 <= k < before.len() && before[k].0 == name@ {
                }
            }
        }
        self
    }

    /// Adds `co` in a new last slot named `name`.
    pub fn decl(&mut self, name: &str, co: CodeObject<V>) -> (res: &mut Self)
        ensures
            res@ == old(self)@.push((name@, co)),
            *final(self) == *final(res),
    {
        let ghost before = self@;
        self.slots.push((String::from_str(name), co));
        assert(self@ =~= before.push((name@, co)));
        self
    }

    /// A unit with a slot for each slot of the builder, in order, holding a copy
    /// of its object.
    pub fn build(&self) -> (res: BuildResult<Unit<V>>)
        ensures
            res matches Ok(u) && u.code@.len() == self@.len() && u.space.consts@.len() == 0
                && u.space.locals@.len() == 0 && u.space.globals@.len() == 0
                && forall|i: int| 0 <= i < self@.len() ==> (#[trigger] u.code@[i]).0@ == self@[i].0
                && cloned(self@[i].1, *u.code@[i].1.0),
    {
        let mut unit = Unit::new();
        let n = self.slots.len();
        let mut i: usize = 0;
        while i < n
            invariant
                n == self.slots@.len(),
                i <= n,
                unit.code@.len() == i,
                unit.space.consts@.len() == 0,
                unit.space.locals@.len() == 0,
                unit.space.globals@.len() == 0,
                forall|k: int| 0 <= k < i ==> (#[trigger] unit.code@[k]).0@ == self@[k].0
                    && cloned(self@[k].1, *unit.code@[k].1.0),
            decreases n - i,
        {
            let name = self.slots[i].0.clone();
            let co = self.slots[i].1.clone();
            unit.code.push((name, co.into_ref()));
            i += 1;
        }
        Ok(unit)
    }
}

} // verus!
