use vstd::prelude::*;
use vstd::std_specs::cmp::PartialEqSpec;

use crate::code::{spec_instruction_arg, spec_instruction_with_arg, CodeObject, Instruction};
use crate::data::space::{const_matches, Space};
use crate::gen::{contains_name, index_of, name_index_of, name_interned, names, pool_interned};

verus! {

/// A function under construction in the first code generator: its argument
/// count, pools and instructions, and the branch offsets still to resolve.
#[derive(Clone, Debug)]
pub struct Frame<V> {
    pub argc: usize,
    pub space: Space<V>,
    pub inner: Vec<Instruction>,
    pub offsets: Vec<(usize, usize)>,
}

/// A function is built as a frame.
pub type Function<V> = Frame<V>;

/// An operation on a local slot that a frame merge relinks.
pub open spec fn is_frame_local_op(c: Instruction) -> bool {
    c is LPush || c is LPop
}

/// An operation on a global slot.
pub open spec fn is_frame_global_op(c: Instruction) -> bool {
    c is GPush || c is GPop || c is GCall
}

/// The local-slot operation on slot `k` that stands in for the global-slot operation `c`.
pub open spec fn frame_localized(c: Instruction, k: usize) -> Instruction {
    match c {
        Instruction::GPush(_) => Instruction::LPush(k),
        Instruction::GPop(_) => Instruction::LPop(k),
        Instruction::GCall(_) => Instruction::LCall(k),
        _ => c,
    }
}

/// `c` can be carried over by a frame merge: its index refers into the pools of
/// `f`, and it is none of the instructions a frame merge cannot relink.
pub open spec fn frame_code_mergeable<V>(c: Instruction, f: Frame<V>) -> bool {
    match c {
        Instruction::CPush(k) => k < f.space.consts@.len(),
        Instruction::LPush(k) => k < f.space.locals@.len(),
        Instruction::LPop(k) => k < f.space.locals@.len(),
        Instruction::GPush(k) => k < f.space.globals@.len(),
        Instruction::GPop(k) => k < f.space.globals@.len(),
        Instruction::GCall(k) => k < f.space.globals@.len(),
        _ => spec_instruction_arg(c) is None,
    }
}

/// Every instruction of `other` can be merged into another frame.
pub open spec fn frame_mergeable<V>(other: Frame<V>) -> bool {
    forall|j: int| 0 <= j < other.inner@.len() ==> #[trigger] frame_code_mergeable(other.inner@[j], other)
}

/// The name of the local slot that the local-slot operation `c` of `f` refers to.
pub open spec fn frame_local_name<V>(f: Frame<V>, c: Instruction) -> Seq<char> {
    f.space.locals@[spec_instruction_arg(c)->0 as int]@
}

/// Once the first `j` instructions of `other` are merged, `name` is a local of the
/// receiving frame: it was one before, or one of those instructions brought it.
pub open spec fn frame_in_scope<V>(locals: Seq<Seq<char>>, other: Frame<V>, j: int, name: Seq<char>) -> bool {
    ||| locals.contains(name)
    ||| exists|i: int|
        0 <= i < j && is_frame_local_op(#[trigger] other.inner@[i]) && frame_local_name(other, other.inner@[i]) == name
}

/// Slot `k` of the name pool `pool` holds `name`.
pub open spec fn frame_names_slot(pool: Seq<String>, k: usize, name: Seq<char>) -> bool {
    k < pool.len() && pool[k as int]@ == name
}

/// `r` is the relinked form of instruction `j` of `other`, merged into a frame
/// whose locals were `locals` before the merge and whose pools are now `consts`,
/// `lpool` and `gpool`: a constant push pushes an entry standing for the same
/// constant, a local-slot operation names the same local, a global-slot
/// operation names the same global (or becomes the local-slot operation on that
/// name when it is in scope there), and any other instruction is kept.
pub open spec fn frame_relinked<V: PartialEq + Clone>(
    other: Frame<V>,
    locals: Seq<Seq<char>>,
    j: int,
    r: Instruction,
    consts: Seq<V>,
    lpool: Seq<String>,
    gpool: Seq<String>,
) -> bool {
    let c = other.inner@[j];
    match spec_instruction_arg(r) {
        None => spec_instruction_arg(c) is None && r == c,
        Some(k2) => {
            if c is CPush {
                &&& r == Instruction::CPush(k2)
                &&& k2 < consts.len()
                &&& V::obeys_eq_spec() ==> const_matches(other.space.consts@[c->CPush_0 as int], consts[k2 as int])
            } else if is_frame_local_op(c) {
                r == spec_instruction_with_arg(c, k2) && frame_names_slot(lpool, k2, frame_local_name(other, c))
            } else {
                let name = other.space.globals@[spec_instruction_arg(c)->0 as int]@;
                &&& is_frame_global_op(c)
                &&& if frame_in_scope(locals, other, j, name) {
                    r == frame_localized(c, k2) && frame_names_slot(lpool, k2, name)
                } else {
                    r == spec_instruction_with_arg(c, k2) && frame_names_slot(gpool, k2, name)
                }
            }
        },
    }
}

/// Relinking instruction `j` of `other` gave `r` and took the pools of the
/// receiving frame from `c0`, `l0`, `g0` to `c1`, `l1`, `g1`: a constant push
/// interns its constant, a local-slot operation its local name, and a
/// global-slot operation its name, into the locals where that name is a local
/// by then and into the globals otherwise; interning reuses the first equal
/// entry and appends only where there is none. Any other instruction leaves the
/// pools alone.
pub open spec fn frame_relink_step<V: PartialEq + Clone>(
    other: Frame<V>,
    locals: Seq<Seq<char>>,
    j: int,
    r: Instruction,
    c0: Seq<V>,
    l0: Seq<String>,
    g0: Seq<String>,
    c1: Seq<V>,
    l1: Seq<String>,
    g1: Seq<String>,
) -> bool {
    let c = other.inner@[j];
    let k2 = spec_instruction_arg(r)->0 as int;
    if c is CPush {
        &&& l1 == l0 && g1 == g0
        &&& r is CPush
        &&& pool_interned(c0, other.space.consts@[c->CPush_0 as int], c1, k2)
    } else if is_frame_local_op(c) {
        &&& c1 == c0 && g1 == g0
        &&& spec_instruction_arg(r) is Some && r == spec_instruction_with_arg(c, k2 as usize)
        &&& name_interned(l0, other.space.locals@[spec_instruction_arg(c)->0 as int], l1, k2)
    } else if is_frame_global_op(c) {
        let name = other.space.globals@[spec_instruction_arg(c)->0 as int];
        &&& c1 == c0
        &&& spec_instruction_arg(r) is Some
        &&& if frame_in_scope(locals, other, j, name@) {
            g1 == g0 && r == frame_localized(c, k2 as usize) && name_interned(l0, name, l1, k2)
        } else {
            l1 == l0 && r == spec_instruction_with_arg(c, k2 as usize) && name_interned(g0, name, g1, k2)
        }
    } else {
        &&& c1 == c0 && l1 == l0 && g1 == g0
        &&& frame_relinked(other, locals, j, r, c1, l1, g1)
    }
}

/// The instructions of `other` were relinked in order into `rs`, the pools of
/// the receiving frame passing through `cs`, `ls` and `gs`.
pub open spec fn frame_relink_steps<V: PartialEq + Clone>(
    other: Frame<V>,
    locals: Seq<Seq<char>>,
    rs: Seq<Instruction>,
    cs: Seq<Seq<V>>,
    ls: Seq<Seq<String>>,
    gs: Seq<Seq<String>>,
) -> bool {
    &&& rs.len() == other.inner@.len()
    &&& cs.len() == rs.len() + 1 && ls.len() == rs.len() + 1 && gs.len() == rs.len() + 1
    &&& forall|j: int|
        0 <= j < rs.len() ==> #[trigger] frame_relink_step(other, locals, j, rs[j], cs[j], ls[j], gs[j], cs[j + 1], ls[j + 1],
            gs[j + 1])
}

/// Growing the pools keeps a relinked instruction relinked.
proof fn lemma_frame_relinked_grow<V: PartialEq + Clone>(
    other: Frame<V>,
    locals: Seq<Seq<char>>,
    j: int,
    r: Instruction,
    consts: Seq<V>,
    lpool: Seq<String>,
    gpool: Seq<String>,
    consts2: Seq<V>,
    lpool2: Seq<String>,
    gpool2: Seq<String>,
)
    requires
        frame_relinked(other, locals, j, r, consts, lpool, gpool),
        consts.is_prefix_of(consts2),
        lpool.is_prefix_of(lpool2),
        gpool.is_prefix_of(gpool2),
    ensures
        frame_relinked(other, locals, j, r, consts2, lpool2, gpool2),
{
    if let Some(k2) = spec_instruction_arg(r) {
        if k2 < consts.len() {
            assert(consts2[k2 as int] == consts[k2 as int]);
        }
        if k2 < lpool.len() {
            assert(lpool2[k2 as int] == lpool[k2 as int]);
        }
        if k2 < gpool.len() {
            assert(gpool2[k2 as int] == gpool[k2 as int]);
        }
    }
}

impl<V: PartialEq + Clone> Frame<V> {
    /// An empty frame that takes no arguments.
    pub fn new() -> (f: Self)
        ensures
            f.argc == 0,
            f.space.consts@.len() == 0,
            f.space.locals@.len() == 0,
            f.space.globals@.len() == 0,
            f.inner@.len() == 0,
    {
        Frame { argc: 0, space: Space::new(), inner: Vec::new(), offsets: Vec::new() }
    }

    /// Appends the instructions of `other` to `self`, relinking each one to the
    /// pools of `self`: constants and names are interned there, reusing the first
    /// equal entry and appending only where there is none (`frame_relink_step`),
    /// and a global that
    /// is a local of `self` by the time the instruction is reached becomes a local
    /// access.
    pub fn merge(&mut self, other: &Self)
        requires
            frame_mergeable(*other),
        ensures
            final(self).argc == old(self).argc,
            final(self).inner@.len() == old(self).inner@.len() + other.inner@.len(),
            final(self).inner@.subrange(0, old(self).inner@.len() as int) == old(self).inner@,
            old(self).space.consts@.is_prefix_of(final(self).space.consts@),
            old(self).space.locals@.is_prefix_of(final(self).space.locals@),
            old(self).space.globals@.is_prefix_of(final(self).space.globals@),
            forall|j: int|
                0 <= j < other.inner@.len() ==> #[trigger] frame_relinked(
                    *other,
                    names(old(self).space.locals@),
                    j,
                    final(self).inner@[old(self).inner@.len() + j],
                    final(self).space.consts@,
                    final(self).space.locals@,
                    final(self).space.globals@,
                ),
            exists|cs: Seq<Seq<V>>, ls: Seq<Seq<String>>, gs: Seq<Seq<String>>|
                #[trigger] frame_relink_steps(
                    *other,
                    names(old(self).space.locals@),
                    final(self).inner@.subrange(old(self).inner@.len() as int, final(self).inner@.len() as int),
                    cs,
                    ls,
                    gs,
                ) && cs[0] == old(self).space.consts@ && ls[0] == old(self).space.locals@ && gs[0] == old(self).space.globals@
                    && cs[other.inner@.len() as int] == final(self).space.consts@ && ls[other.inner@.len() as int]
                    == final(self).space.locals@ && gs[other.inner@.len() as int] == final(self).space.globals@,
    {
        let base = self.inner.len();
        let n = other.inner.len();
        let ghost locals0 = names(old(self).space.locals@);
        let ghost mut cs: Seq<Seq<V>> = seq![self.space.consts@];
        let ghost mut ls: Seq<Seq<String>> = seq![self.space.locals@];
        let ghost mut gs: Seq<Seq<String>> = seq![self.space.globals@];
        let mut j: usize = 0;
        while j < n
            invariant
                n == other.inner@.len(),
                j <= n,
                cs.len() == j + 1 && ls.len() == j + 1 && gs.len() == j + 1,
                cs[0] == old(self).space.consts@ && ls[0] == old(self).space.locals@ && gs[0] == old(self).space.globals@,
                cs[j as int] == self.space.consts@ && ls[j as int] == self.space.locals@ && gs[j as int] == self.space.globals@,
                forall|i: int|
                    0 <= i < j ==> #[trigger] frame_relink_step(*other, locals0, i, self.inner@[base + i], cs[i], ls[i], gs[i],
                        cs[i + 1], ls[i + 1], gs[i + 1]),
                base == old(self).inner@.len(),
                frame_mergeable(*other),
                locals0 == names(old(self).space.locals@),
                self.argc == old(self).argc,
                self.inner@.len() == base + j,
                self.inner@.subrange(0, base as int) == old(self).inner@,
                old(self).space.consts@.is_prefix_of(self.space.consts@),
                old(self).space.locals@.is_prefix_of(self.space.locals@),
                old(self).space.globals@.is_prefix_of(self.space.globals@),
                forall|name: Seq<char>|
                    #[trigger] names(self.space.locals@).contains(name) <==> frame_in_scope(locals0, *other, j as int, name),
                forall|i: int|
                    0 <= i < j ==> #[trigger] frame_relinked(
                        *other,
                        locals0,
                        i,
                        self.inner@[base + i],
                        self.space.consts@,
                        self.space.locals@,
                        self.space.globals@,
                    ),
            decreases n - j,
        {
            let ghost consts1 = self.space.consts@;
            let ghost lpool1 = self.space.locals@;
            let ghost gpool1 = self.space.globals@;
            let ghost code1 = self.inner@;
            let inx = other.inner[j];
            assert(frame_code_mergeable(other.inner@[j as int], *other));
            let new_inx = match inx {
                Instruction::CPush(k) => Instruction::CPush(index_of(&mut self.space.consts, &other.space.consts[k])),
                Instruction::LPush(k) => Instruction::LPush(name_index_of(&mut self.space.locals, &other.space.locals[k])),
                Instruction::LPop(k) => Instruction::LPop(name_index_of(&mut self.space.locals, &other.space.locals[k])),
                Instruction::GPush(k) => {
                    if contains_name(&self.space.locals, &other.space.globals[k]) {
                        Instruction::LPush(name_index_of(&mut self.space.locals, &other.space.globals[k]))
                    } else {
                        Instruction::GPush(name_index_of(&mut self.space.globals, &other.space.globals[k]))
                    }
                },
                Instruction::GPop(k) => {
                    if contains_name(&self.space.locals, &other.space.globals[k]) {
                        Instruction::LPop(name_index_of(&mut self.space.locals, &other.space.globals[k]))
                    } else {
                        Instruction::GPop(name_index_of(&mut self.space.globals, &other.space.globals[k]))
                    }
                },
                Instruction::GCall(k) => {
                    if contains_name(&self.space.locals, &other.space.globals[k]) {
                        Instruction::LCall(name_index_of(&mut self.space.locals, &other.space.globals[k]))
                    } else {
                        Instruction::GCall(name_index_of(&mut self.space.globals, &other.space.globals[k]))
                    }
                },
                _ => inx,
            };
            self.inner.push(new_inx);
            proof {
                assert(consts1.is_prefix_of(self.space.consts@)) by {
                    if self.space.consts@ != consts1 {
                        assert(self.space.consts@.subrange(0, consts1.len() as int) == consts1);
                    }
                }
                assert(lpool1.is_prefix_of(self.space.locals@)) by {
                    if self.space.locals@ != lpool1 {
                        assert(self.space.locals@.subrange(0, lpool1.len() as int) =~= lpool1);
                    }
                }
                assert(gpool1.is_prefix_of(self.space.globals@)) by {
                    if self.space.globals@ != gpool1 {
                        assert(self.space.globals@.subrange(0, gpool1.len() as int) =~= gpool1);
                    }
                }
                assert forall|i: int|
                    0 <= i < j + 1 implies #[trigger] frame_relinked(
                        *other,
                        locals0,
                        i,
                        self.inner@[base + i],
                        self.space.consts@,
                        self.space.locals@,
                        self.space.globals@,
                    ) by {
                    if i < j {
                        assert(self.inner@[base + i] == code1[base + i]);
                        lemma_frame_relinked_grow(
                            *other,
                            locals0,
                            i,
                            code1[base + i],
                            consts1,
                            lpool1,
                            gpool1,
                            self.space.consts@,
                            self.space.locals@,
                            self.space.globals@,
                        );
                    } else {
                        assert(self.inner@[base + i] == new_inx);
                    }
                }
                assert(self.inner@.subrange(0, base as int) =~= code1.subrange(0, base as int));
                assert forall|name: Seq<char>|
                    #[trigger] names(self.space.locals@).contains(name) <==> frame_in_scope(locals0, *other, j + 1, name) by {
                    if frame_in_scope(locals0, *other, j + 1, name) && !frame_in_scope(locals0, *other, j as int, name) {
                        let i = choose|i: int|
                            0 <= i < j + 1 && is_frame_local_op(#[trigger] other.inner@[i]) && frame_local_name(*other, other.inner@[i]) == name;
                        assert(i == j);
                        assert(names(self.space.locals@)[spec_instruction_arg(new_inx)->0 as int] == name);
                    }
                    if frame_in_scope(locals0, *other, j as int, name) {
                        assert(names(lpool1).contains(name));
                        let t = choose|t: int| 0 <= t < names(lpool1).len() && names(lpool1)[t] == name;
                        assert(self.space.locals@[t] == lpool1[t]);
                        assert(names(self.space.locals@)[t] == name);
                    }
                    if names(self.space.locals@).contains(name) && !names(lpool1).contains(name) {
                        let t = choose|t: int| 0 <= t < names(self.space.locals@).len() && names(self.space.locals@)[t] == name;
                        if t < lpool1.len() {
                            assert(self.space.locals@[t] == lpool1[t]);
                            assert(names(lpool1)[t] == name);
                        }
                        assert(self.space.locals@ != lpool1);
                        assert(t == lpool1.len());
                        assert(is_frame_local_op(other.inner@[j as int]));
                        assert(frame_local_name(*other, other.inner@[j as int]) == name);
                    }
                }
            }
            proof {
                assert(frame_relink_step(*other, locals0, j as int, new_inx, consts1, lpool1, gpool1, self.space.consts@,
                    self.space.locals@, self.space.globals@)) by {
                    assert(frame_relinked(*other, locals0, j as int, self.inner@[base + j], self.space.consts@,
                        self.space.locals@, self.space.globals@));
                }
                let cs0 = cs;
                let ls0 = ls;
                let gs0 = gs;
                cs = cs.push(self.space.consts@);
                ls = ls.push(self.space.locals@);
                gs = gs.push(self.space.globals@);
                assert forall|i: int|
                    0 <= i < j + 1 implies #[trigger] frame_relink_step(*other, locals0, i, self.inner@[base + i], cs[i], ls[i],
                        gs[i], cs[i + 1], ls[i + 1], gs[i + 1]) by {
                    if i < j {
                        assert(self.inner@[base + i] == code1[base + i]);
                        assert(cs[i] == cs0[i] && cs[i + 1] == cs0[i + 1]);
                        assert(ls[i] == ls0[i] && ls[i + 1] == ls0[i + 1]);
                        assert(gs[i] == gs0[i] && gs[i + 1] == gs0[i + 1]);
                    } else {
                        assert(self.inner@[base + i] == new_inx);
                    }
                }
            }
            j += 1;
        }
        proof {
            let rs = self.inner@.subrange(base as int, self.inner@.len() as int);
            assert forall|i: int|
                0 <= i < rs.len() implies #[trigger] frame_relink_step(*other, locals0, i, rs[i], cs[i], ls[i], gs[i], cs[i + 1],
                    ls[i + 1], gs[i + 1]) by {
                assert(rs[i] == self.inner@[base + i]);
            }
            assert(frame_relink_steps(*other, locals0, rs, cs, ls, gs));
        }
    }
}

impl<V> From<Frame<V>> for CodeObject<V> {
    fn from(from: Frame<V>) -> (res: Self) {
        CodeObject { argc: from.argc, space: from.space, inner: from.inner }
    }
}

impl<V> vstd::std_specs::convert::FromSpecImpl<Frame<V>> for CodeObject<V> {
    open spec fn obeys_from_spec() -> bool {
        true
    }

    open spec fn from_spec(v: Frame<V>) -> CodeObject<V> {
        CodeObject { argc: v.argc, space: v.space, inner: v.inner }
    }
}

} // verus!
