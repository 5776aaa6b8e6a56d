use vstd::prelude::*;
use vstd::std_specs::cmp::PartialEqSpec;

use crate::gen::{index_of, name_index_of, names};

verus! {

/// The pools a code object indexes into: constants, local names and global names.
#[derive(Clone, Debug)]
pub struct Space<V> {
    pub consts: Vec<V>,
    pub locals: Vec<String>,
    pub globals: Vec<String>,
}

/// `stored` stands for the constant `item` in a pool: it compares equal to it,
/// or it was cloned from it.
pub open spec fn const_matches<V: PartialEq + Clone>(item: V, stored: V) -> bool {
    stored.eq_spec(&item) || cloned(item, stored)
}

/// The name pool `pool` after interning `items` one after the other: each name
/// not yet present is appended.
pub open spec fn intern_names(pool: Seq<Seq<char>>, items: Seq<Seq<char>>) -> Seq<Seq<char>>
    decreases items.len(),
{
    if items.len() == 0 {
        pool
    } else {
        let p = intern_names(pool, items.drop_last());
        if p.contains(items.last()) {
            p
        } else {
            p.push(items.last())
        }
    }
}

/// Some entry of `pool` stands for the constant `item`.
pub open spec fn matched_in<V: PartialEq + Clone>(pool: Seq<V>, item: V) -> bool {
    exists|t: int| 0 <= t < pool.len() && #[trigger] const_matches(item, pool[t])
}

/// `x` was cloned from one of `items`.
pub open spec fn cloned_from<V: Clone>(items: Seq<V>, x: V) -> bool {
    exists|k: int| 0 <= k < items.len() && #[trigger] cloned(items[k], x)
}

/// Interning keeps every name of the pool and brings in every item.
proof fn lemma_intern_names_contains(pool: Seq<Seq<char>>, items: Seq<Seq<char>>)
    ensures
        forall|x: Seq<char>| pool.contains(x) ==> #[trigger] intern_names(pool, items).contains(x),
        forall|i: int| 0 <= i < items.len() ==> intern_names(pool, items).contains(#[trigger] items[i]),
    decreases items.len(),
{
    if items.len() > 0 {
        let d = items.drop_last();
        lemma_intern_names_contains(pool, d);
        let p = intern_names(pool, d);
        let q = intern_names(pool, items);
        assert forall|x: Seq<char>| p.contains(x) implies #[trigger] q.contains(x) by {
            let t = choose|t: int| 0 <= t < p.len() && p[t] == x;
            if !p.contains(items.last()) {
                assert(q[t] == p[t]);
            }
        }
        assert forall|i: int| 0 <= i < items.len() implies q.contains(#[trigger] items[i]) by {
            if i < d.len() {
                assert(d[i] == items[i]);
                assert(p.contains(d[i]));
            } else if !p.contains(items.last()) {
                assert(q[p.len() as int] == items.last());
            }
        }
    }
}

/// Interning names the pool holds already leaves it as it is.
proof fn lemma_intern_names_fixed(pool: Seq<Seq<char>>, items: Seq<Seq<char>>)
    requires
        forall|i: int| 0 <= i < items.len() ==> pool.contains(#[trigger] items[i]),
    ensures
        intern_names(pool, items) == pool,
    decreases items.len(),
{
    if items.len() > 0 {
        let d = items.drop_last();
        assert forall|i: int| 0 <= i < d.len() implies pool.contains(#[trigger] d[i]) by {
            assert(d[i] == items[i]);
        }
        lemma_intern_names_fixed(pool, d);
        assert(pool.contains(items[items.len() - 1]));
    }
}

/// Interning the same names twice: the second time adds nothing. So merging a
/// space into one that has already taken it in leaves its local and global
/// names as they are.
pub proof fn lemma_intern_names_idempotent(pool: Seq<Seq<char>>, items: Seq<Seq<char>>)
    ensures
        intern_names(intern_names(pool, items), items) == intern_names(pool, items),
{
    lemma_intern_names_contains(pool, items);
    lemma_intern_names_fixed(intern_names(pool, items), items);
}

/// `new` extends the constant pool `old` by interning the constants `items`:
/// `old` stays a prefix, every item is matched in `new`, and every appended
/// entry was cloned from one of the items.
pub open spec fn consts_interned<V: PartialEq + Clone>(old: Seq<V>, items: Seq<V>, new: Seq<V>) -> bool {
    &&& old.len() <= new.len()
    &&& new.subrange(0, old.len() as int) == old
    &&& V::obeys_eq_spec() ==> forall|i: int| 0 <= i < items.len() ==> #[trigger] matched_in(new, items[i])
    &&& forall|t: int| old.len() <= t < new.len() ==> #[trigger] cloned_from(items, new[t])
}

impl<V: PartialEq + Clone> Space<V> {
    /// An empty space.
    pub fn new() -> (s: Self)
        ensures
            s.consts@.len() == 0,
            s.locals@.len() == 0,
            s.globals@.len() == 0,
    {
        Space { consts: Vec::new(), locals: Vec::new(), globals: Vec::new() }
    }

    /// Adds the entries of `other` that `self` does not hold yet, keeping the
    /// positions of everything `self` held.
    pub fn merge(&mut self, other: &Self)
        ensures
            consts_interned(old(self).consts@, other.consts@, final(self).consts@),
            names(final(self).locals@) == intern_names(names(old(self).locals@), names(other.locals@)),
            names(final(self).globals@) == intern_names(names(old(self).globals@), names(other.globals@)),
    {
        let nc = other.consts.len();
        let mut i: usize = 0;
        assert(self.consts@.subrange(0, self.consts@.len() as int) =~= self.consts@);
        while i < nc
            invariant
                nc == other.consts@.len(),
                i <= nc,
                self.locals == old(self).locals,
                self.globals == old(self).globals,
                consts_interned(old(self).consts@, other.consts@.take(i as int), self.consts@),
            decreases nc - i,
        {
            let ghost before = self.consts@;
            let r = index_of(&mut self.consts, &other.consts[i]);
            proof {
                let items = other.consts@.take(i as int + 1);
                let prev = other.consts@.take(i as int);
                assert(items[i as int] == other.consts@[i as int]);
                if r < before.len() {
                    assert(self.consts@ == before);
                } else {
                    assert(self.consts@.subrange(0, before.len() as int) == before);
                }
                assert forall|t: int| 0 <= t < before.len() implies self.consts@[t] == before[t] by {
                    assert(self.consts@.subrange(0, before.len() as int)[t] == before[t]);
                }
                assert(self.consts@.subrange(0, old(self).consts@.len() as int) =~= old(self).consts@) by {
                    assert(before.subrange(0, old(self).consts@.len() as int) == old(self).consts@);
                }
                if V::obeys_eq_spec() {
                    assert forall|k: int| 0 <= k < items.len() implies #[trigger] matched_in(self.consts@, items[k]) by {
                        if k < i {
                            assert(items[k] == prev[k]);
                            assert(matched_in(before, prev[k]));
                            let t = choose|t: int| 0 <= t < before.len() && #[trigger] const_matches(prev[k], before[t]);
                            assert(self.consts@[t] == before[t]);
                            assert(const_matches(items[k], self.consts@[t]));
                        } else {
                            assert(const_matches(items[k], self.consts@[r as int]));
                        }
                    }
                }
                assert forall|t: int| old(self).consts@.len() <= t < self.consts@.len() implies #[trigger] cloned_from(items, self.consts@[t]) by {
                    if t < before.len() {
                        assert(cloned_from(prev, before[t]));
                        let k = choose|k: int| 0 <= k < prev.len() && #[trigger] cloned(prev[k], before[t]);
                        assert(items[k] == prev[k]);
                        assert(self.consts@[t] == before[t]);
                        assert(cloned(items[k], self.consts@[t]));
                    } else {
                        assert(cloned(items[i as int], self.consts@[t]));
                    }
                }
                assert(consts_interned(old(self).consts@, items, self.consts@));
            }
            i += 1;
        }
        proof {
            assert(other.consts@.take(nc as int) =~= other.consts@);
        }
        let nl = other.locals.len();
        let mut i: usize = 0;
        while i < nl
            invariant
                nl == other.locals@.len(),
                i <= nl,
                consts_interned(old(self).consts@, other.consts@, self.consts@),
                self.globals == old(self).globals,
                names(self.locals@) == intern_names(names(old(self).locals@), names(other.locals@).take(i as int)),
            decreases nl - i,
        {
            let ghost before = names(self.locals@);
            name_index_of(&mut self.locals, &other.locals[i]);
            proof {
                let items = names(other.locals@).take(i as int + 1);
                assert(items.drop_last() =~= names(other.locals@).take(i as int));
                assert(items.last() == other.locals@[i as int]@);
                assert(names(self.locals@) =~= intern_names(names(old(self).locals@), items));
            }
            i += 1;
        }
        proof {
            assert(names(other.locals@).take(nl as int) =~= names(other.locals@));
        }
        let ng = other.globals.len();
        let mut i: usize = 0;
        while i < ng
            invariant
                ng == other.globals@.len(),
                i <= ng,
                consts_interned(old(self).consts@, other.consts@, self.consts@),
                names(self.locals@) == intern_names(names(old(self).locals@), names(other.locals@)),
                names(self.globals@) == intern_names(names(old(self).globals@), names(other.globals@).take(i as int)),
            decreases ng - i,
        {
            name_index_of(&mut self.globals, &other.globals[i]);
            proof {
                let items = names(other.globals@).take(i as int + 1);
                assert(items.drop_last() =~= names(other.globals@).take(i as int));
                assert(items.last() == other.globals@[i as int]@);
                assert(names(self.globals@) =~= intern_names(names(old(self).globals@), items));
            }
            i += 1;
        }
        proof {
            assert(names(other.globals@).take(ng as int) =~= names(other.globals@));
        }
    }
}

} // verus!
