pub mod block;
pub mod code;
pub mod func;
pub mod module;
pub mod op;
pub mod unit;

use vstd::prelude::*;
use vstd::std_specs::cmp::PartialEqSpec;

verus! {

/// Where a branch jumps to, relative to the block it belongs to.
#[derive(Clone, Copy, Debug, PartialEq, Eq, Structural)]
pub enum BranchLocation {
    Start,
    End,
    Relative(usize),
}

/// `i` is the first position of `s` whose element compares equal to `x`.
pub open spec fn is_first_match<T: PartialEq>(s: Seq<T>, x: T, i: int) -> bool {
    &&& 0 <= i < s.len()
    &&& s[i].eq_spec(&x)
    &&& forall|j: int| 0 <= j < i ==> !(#[trigger] s[j]).eq_spec(&x)
}

/// No element of `s` compares equal to `x`.
pub open spec fn has_no_match<T: PartialEq>(s: Seq<T>, x: T) -> bool {
    forall|j: int| 0 <= j < s.len() ==> !(#[trigger] s[j]).eq_spec(&x)
}

/// `new` and `k` are the pool and the slot that interning `item` into `old`
/// gives: either the pool unchanged and `k` the first slot whose element equals
/// `item`, or the pool with a clone of `item` appended and `k` its slot, the
/// latter exactly when no element equals `item` (equality as `==` states it,
/// where the type's `==` obeys its specification).
pub open spec fn pool_interned<T: PartialEq + Clone>(old: Seq<T>, item: T, new: Seq<T>, k: int) -> bool {
    &&& 0 <= k < new.len()
    &&& ({
        ||| new == old && k < old.len()
        ||| {
            &&& k == old.len()
            &&& new.len() == old.len() + 1
            &&& new.subrange(0, k) == old
            &&& cloned(item, new[k])
        }
    })
    &&& T::obeys_eq_spec() ==> (k < old.len() <==> !has_no_match(old, item))
    &&& T::obeys_eq_spec() && k < old.len() ==> is_first_match(old, item, k)
}

/// Interns `item` into the pool `ls`: returns the position of the first element
/// equal to `item`, appending a clone of `item` when there is none.
pub fn index_of<T: PartialEq + Clone>(ls: &mut Vec<T>, item: &T) -> (res: usize)
    ensures
        pool_interned(old(ls)@, *item, final(ls)@, res as int),
{
    let n = ls.len();
    let mut i: usize = 0;
    while i < n
        invariant
            n == ls@.len(),
            i <= n,
            T::obeys_eq_spec() ==> forall|j: int| 0 <= j < i ==> !(#[trigger] ls@[j]).eq_spec(item),
        decreases n - i,
    {
        if ls[i] == *item {
            return i;
        }
        i += 1;
    }
    let c = item.clone();
    ls.push(c);
    proof {
        assert(ls@.subrange(0, n as int) =~= old(ls)@);
    }
    n
}

/// The character sequences of a list of names.
pub open spec fn names(s: Seq<String>) -> Seq<Seq<char>> {
    s.map_values(|n: String| n@)
}

/// `new` and `res` are the name pool and the slot that interning `name` into `old`
/// gives: the first slot of `old` holding `name` with the pool unchanged, or a new
/// last slot holding `name`.
pub open spec fn name_interned(old: Seq<String>, name: String, new: Seq<String>, res: int) -> bool {
    &&& 0 <= res < new.len()
    &&& new[res]@ == name@
    &&& names(old).contains(name@) ==> new == old && forall|j: int| 0 <= j < res ==> (#[trigger] old[j])@ != name@
    &&& !names(old).contains(name@) ==> new == old.push(name) && res == old.len()
}

/// Interning a name a second time gives the slot of the first time and leaves
/// the pool as the first time left it.
pub proof fn lemma_name_intern_idempotent(
    pool: Seq<String>,
    name: String,
    mid: Seq<String>,
    r1: int,
    new: Seq<String>,
    r2: int,
)
    requires
        name_interned(pool, name, mid, r1),
        name_interned(mid, name, new, r2),
    ensures
        r2 == r1,
        new == mid,
{
    assert(names(mid)[r1] == name@);
    if r2 < r1 {
        if names(pool).contains(name@) {
            assert(pool[r2]@ != name@);
        } else {
            assert(mid[r2] == pool[r2]);
            assert(names(pool)[r2] == name@);
        }
    }
    if r1 < r2 {
        assert(mid[r1]@ != name@);
    }
}

/// Interns `name` into the name pool `ls`: returns the position of the first
/// name equal to `name`, appending `name` when there is none.
pub fn name_index_of(ls: &mut Vec<String>, name: &String) -> (res: usize)
    ensures
        name_interned(old(ls)@, *name, final(ls)@, res as int),
{
    let n = ls.len();
    let mut i: usize = 0;
    while i < n
        invariant
            n == ls@.len(),
            i <= n,
            *ls == *old(ls),
            forall|j: int| 0 <= j < i ==> (#[trigger] ls@[j])@ != name@,
        decreases n - i,
    {
        if ls[i] == *name {
            assert(names(ls@)[i as int] == name@);
            return i;
        }
        i += 1;
    }
    assert(!names(old(ls)@).contains(name@)) by {
        if names(old(ls)@).contains(name@) {
            let j = choose|j: int| 0 <= j < names(old(ls)@).len() && names(old(ls)@)[j] == name@;
            assert(old(ls)@[j]@ != name@);
        }
    }
    ls.push(name.clone());
    n
}

/// Whether some name in `ls` equals `name`.
pub fn contains_name(ls: &Vec<String>, name: &String) -> (res: bool)
    ensures
        res == names(ls@).contains(name@),
{
    let n = ls.len();
    let mut i: usize = 0;
    while i < n
        invariant
            n == ls@.len(),
            i <= n,
            forall|j: int| 0 <= j < i ==> (#[trigger] ls@[j])@ != name@,
        decreases n - i,
    {
        if ls[i] == *name {
            assert(names(ls@)[i as int] == name@);
            return true;
        }
        i += 1;
    }
    assert(!names(ls@).contains(name@)) by {
        if names(ls@).contains(name@) {
            let j = choose|j: int| 0 <= j < names(ls@).len() && names(ls@)[j] == name@;
            assert(ls@[j]@ != name@);
        }
    }
    false
}

} // verus!
