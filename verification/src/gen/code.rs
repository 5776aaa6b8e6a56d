use vstd::prelude::*;
use vstd::std_specs::cmp::PartialEqSpec;

use crate::data::code::{spec_code_arg, spec_code_with_arg, Code, CodeObject, Protocol};
use crate::data::space::const_matches;
use crate::gen::{contains_name, index_of, name_index_of, name_interned, names, pool_interned};

verus! {

/// An operation on a local slot.
pub open spec fn is_local_op(c: Code) -> bool {
    c is LPush || c is LPop || c is LCall
}

/// An operation on a global slot.
pub open spec fn is_global_op(c: Code) -> bool {
    c is GPush || c is GPop || c is GCall
}

/// A jump.
pub open spec fn is_jump(c: Code) -> bool {
    c is Jmp || c is Jt || c is Jf
}

/// The local-slot operation on slot `k` that stands in for the global-slot operation `c`.
pub open spec fn localized(c: Code, k: usize) -> Code {
    match c {
        Protocol::GPush(_) => Protocol::LPush(k),
        Protocol::GPop(_) => Protocol::LPop(k),
        Protocol::GCall(_) => Protocol::LCall(k),
        _ => c,
    }
}

/// `c` can be carried over by a merge into a code object of `offset` instructions:
/// its index refers into the pools of `co`, a jump target is resolved and stays in
/// range once shifted, and it is none of the instructions a merge cannot relink.
pub open spec fn code_mergeable<V>(c: Code, co: CodeObject<V>, offset: int) -> bool {
    match c {
        Protocol::CPush(k) => k < co.space.consts@.len(),
        Protocol::LPush(k) => k < co.space.locals@.len(),
        Protocol::LPop(k) => k < co.space.locals@.len(),
        Protocol::LCall(k) => k < co.space.locals@.len(),
        Protocol::GPush(k) => k < co.space.globals@.len(),
        Protocol::GPop(k) => k < co.space.globals@.len(),
        Protocol::GCall(k) => k < co.space.globals@.len(),
        Protocol::Jmp(b) => b < usize::MAX && b + offset <= usize::MAX,
        Protocol::Jt(b) => b < usize::MAX && b + offset <= usize::MAX,
        Protocol::Jf(b) => b < usize::MAX && b + offset <= usize::MAX,
        _ => spec_code_arg(c) is None,
    }
}

/// Every instruction of `other` can be merged into a code object of `offset` instructions.
pub open spec fn mergeable<V>(other: CodeObject<V>, offset: int) -> bool {
    forall|j: int| 0 <= j < other.code@.len() ==> #[trigger] code_mergeable(other.code@[j], other, offset)
}

/// The name of the local slot that the local-slot operation `c` of `co` refers to.
pub open spec fn local_name<V>(co: CodeObject<V>, c: Code) -> Seq<char> {
    co.space.locals@[spec_code_arg(c)->0 as int]@
}

/// Once the first `j` instructions of `other` are merged, `name` is a local of the
/// receiving code object: it was one before, or one of those instructions brought it.
pub open spec fn in_scope<V>(locals: Seq<Seq<char>>, other: CodeObject<V>, j: int, name: Seq<char>) -> bool {
    ||| locals.contains(name)
    ||| exists|i: int|
        0 <= i < j && is_local_op(#[trigger] other.code@[i]) && local_name(other, other.code@[i]) == name
}

/// Slot `k` of the name pool `pool` holds `name`.
pub open spec fn names_slot(pool: Seq<String>, k: usize, name: Seq<char>) -> bool {
    k < pool.len() && pool[k as int]@ == name
}

/// `r` is the relinked form of instruction `j` of `other`, merged behind `offset`
/// instructions into a code object whose locals were `locals` before the merge and
/// whose pools are now `consts`, `lpool` and `gpool`:
/// a constant push pushes an entry standing for the same constant, a local-slot
/// operation names the same local, a global-slot operation names the same global
/// (or becomes the local-slot operation on that name when it is in scope there),
/// a jump is shifted by `offset`, and any other instruction is kept.
pub open spec fn relinked<V: PartialEq + Clone>(
    other: CodeObject<V>,
    locals: Seq<Seq<char>>,
    j: int,
    r: Code,
    consts: Seq<V>,
    lpool: Seq<String>,
    gpool: Seq<String>,
    offset: int,
) -> bool {
    let c = other.code@[j];
    match spec_code_arg(r) {
        None => spec_code_arg(c) is None && r == c,
        Some(k2) => {
            if c is CPush {
                &&& r == Protocol::<usize>::CPush(k2)
                &&& k2 < consts.len()
                &&& V::obeys_eq_spec() ==> const_matches(other.space.consts@[c->CPush_0 as int], consts[k2 as int])
            } else if is_local_op(c) {
                r == spec_code_with_arg(c, k2) && names_slot(lpool, k2, local_name(other, c))
            } else if is_global_op(c) {
                let name = other.space.globals@[spec_code_arg(c)->0 as int]@;
                if in_scope(locals, other, j, name) {
                    r == localized(c, k2) && names_slot(lpool, k2, name)
                } else {
                    r == spec_code_with_arg(c, k2) && names_slot(gpool, k2, name)
                }
            } else {
                is_jump(c) && r == spec_code_with_arg(c, (spec_code_arg(c)->0 + offset) as usize)
            }
        },
    }
}

/// Relinking instruction `j` of `other` gave `r` and took the pools of the
/// receiving code object from `c0`, `l0`, `g0` to `c1`, `l1`, `g1`: a constant
/// push interns its constant, a local-slot operation its local name, and a
/// global-slot operation its name, into the locals where that name is a local
/// by then and into the globals otherwise; interning reuses the first equal
/// entry and appends only where there is none. Any other instruction leaves
/// the pools alone.
pub open spec fn relink_step<V: PartialEq + Clone>(
    other: CodeObject<V>,
    locals: Seq<Seq<char>>,
    j: int,
    r: Code,
    c0: Seq<V>,
    l0: Seq<String>,
    g0: Seq<String>,
    c1: Seq<V>,
    l1: Seq<String>,
    g1: Seq<String>,
    offset: int,
) -> bool {
    let c = other.code@[j];
    let k2 = spec_code_arg(r)->0 as int;
    if c is CPush {
        &&& l1 == l0 && g1 == g0
        &&& r is CPush
        &&& pool_interned(c0, other.space.consts@[c->CPush_0 as int], c1, k2)
    } else if is_local_op(c) {
        &&& c1 == c0 && g1 == g0
        &&& spec_code_arg(r) is Some && r == spec_code_with_arg(c, k2 as usize)
        &&& name_interned(l0, other.space.locals@[spec_code_arg(c)->0 as int], l1, k2)
    } else if is_global_op(c) {
        let name = other.space.globals@[spec_code_arg(c)->0 as int];
        &&& c1 == c0
        &&& spec_code_arg(r) is Some
        &&& if in_scope(locals, other, j, name@) {
            g1 == g0 && r == localized(c, k2 as usize) && name_interned(l0, name, l1, k2)
        } else {
            l1 == l0 && r == spec_code_with_arg(c, k2 as usize) && name_interned(g0, name, g1, k2)
        }
    } else {
        &&& c1 == c0 && l1 == l0 && g1 == g0
        &&& relinked(other, locals, j, r, c1, l1, g1, offset)
    }
}

/// The instructions of `other` were relinked in order into `rs`, the pools of
/// the receiving code object passing through `cs`, `ls` and `gs`.
pub open spec fn relink_steps<V: PartialEq + Clone>(
    other: CodeObject<V>,
    locals: Seq<Seq<char>>,
    rs: Seq<Code>,
    cs: Seq<Seq<V>>,
    ls: Seq<Seq<String>>,
    gs: Seq<Seq<String>>,
    offset: int,
) -> bool {
    &&& rs.len() == other.code@.len()
    &&& cs.len() == rs.len() + 1 && ls.len() == rs.len() + 1 && gs.len() == rs.len() + 1
    &&& forall|j: int|
        0 <= j < rs.len() ==> #[trigger] relink_step(other, locals, j, rs[j], cs[j], ls[j], gs[j], cs[j + 1], ls[j + 1], gs[j
            + 1], offset)
}

/// Growing the pools keeps a relinked instruction relinked.
proof fn lemma_relinked_grow<V: PartialEq + Clone>(
    other: CodeObject<V>,
    locals: Seq<Seq<char>>,
    j: int,
    r: Code,
    consts: Seq<V>,
    lpool: Seq<String>,
    gpool: Seq<String>,
    consts2: Seq<V>,
    lpool2: Seq<String>,
    gpool2: Seq<String>,
    offset: int,
)
    requires
        relinked(other, locals, j, r, consts, lpool, gpool, offset),
        consts.is_prefix_of(consts2),
        lpool.is_prefix_of(lpool2),
        gpool.is_prefix_of(gpool2),
    ensures
        relinked(other, locals, j, r, consts2, lpool2, gpool2, offset),
{
    if let Some(k2) = spec_code_arg(r) {
        if k2 < consts.len() {
            assert(consts2[k2 as int] == consts[k2 as int]);
        }
        if k2 < lpool.len() {
            assert(lpool2[k2 as int] == lpool[k2 as int]);
        }
        if k2 < gpool.len() {
            assert(gpool2[k2 as int] == gpool[k2 as int]);
        }
    }
}

/// `b` is `a` with the code of `other` merged in, as `CodeObject::merge`
/// describes: the code of `other` is appended, each instruction relinked to the
/// pools of `a` in order (`relink_steps`), and the argument count kept.
pub open spec fn merged<V: PartialEq + Clone>(a: CodeObject<V>, other: CodeObject<V>, b: CodeObject<V>) -> bool {
    &&& b.argc == a.argc
    &&& b.code@.len() == a.code@.len() + other.code@.len()
    &&& b.code@.subrange(0, a.code@.len() as int) == a.code@
    &&& a.space.consts@.is_prefix_of(b.space.consts@)
    &&& a.space.locals@.is_prefix_of(b.space.locals@)
    &&& a.space.globals@.is_prefix_of(b.space.globals@)
    &&& forall|j: int|
            0 <= j < other.code@.len() ==> #[trigger] relinked(
                other,
                names(a.space.locals@),
                j,
                b.code@[a.code@.len() + j],
                b.space.consts@,
                b.space.locals@,
                b.space.globals@,
                a.code@.len() as int,
            )
    &&& exists|cs: Seq<Seq<V>>, ls: Seq<Seq<String>>, gs: Seq<Seq<String>>|
            #[trigger] relink_steps(
                other,
                names(a.space.locals@),
                b.code@.subrange(a.code@.len() as int, b.code@.len() as int),
                cs,
                ls,
                gs,
                a.code@.len() as int,
            ) && cs[0] == a.space.consts@ && ls[0] == a.space.locals@ && gs[0] == a.space.globals@
                && cs[other.code@.len() as int] == b.space.consts@ && ls[other.code@.len() as int]
                == b.space.locals@ && gs[other.code@.len() as int] == b.space.globals@
}

impl<V: PartialEq + Clone> CodeObject<V> {
    /// Appends the code of `other` to `self`, relinking each instruction to the
    /// pools of `self`: constants and names are interned there, reusing the first
    /// equal entry and appending only where there is none (`relink_step`), a global that is
    /// a local of `self` by the time the instruction is reached becomes a local
    /// access, and jumps are shifted by the former length of the code.
    pub fn merge(&mut self, other: &Self)
        requires
            mergeable(*other, old(self).code@.len() as int),
        ensures
            merged(*old(self), *other, *final(self)),
    {
        let branch_offset = self.code.len();
        let n = other.code.len();
        let ghost locals0 = names(old(self).space.locals@);
        let ghost mut cs: Seq<Seq<V>> = seq![self.space.consts@];
        let ghost mut ls: Seq<Seq<String>> = seq![self.space.locals@];
        let ghost mut gs: Seq<Seq<String>> = seq![self.space.globals@];
        let mut j: usize = 0;
        while j < n
            invariant
                n == other.code@.len(),
                j <= n,
                cs.len() == j + 1 && ls.len() == j + 1 && gs.len() == j + 1,
                cs[0] == old(self).space.consts@ && ls[0] == old(self).space.locals@ && gs[0] == old(self).space.globals@,
                cs[j as int] == self.space.consts@ && ls[j as int] == self.space.locals@ && gs[j as int] == self.space.globals@,
                forall|i: int|
                    0 <= i < j ==> #[trigger] relink_step(*other, locals0, i, self.code@[branch_offset + i], cs[i], ls[i], gs[i],
                        cs[i + 1], ls[i + 1], gs[i + 1], branch_offset as int),
                branch_offset == old(self).code@.len(),
                mergeable(*other, branch_offset as int),
                locals0 == names(old(self).space.locals@),
                self.argc == old(self).argc,
                self.code@.len() == branch_offset + j,
                self.code@.subrange(0, branch_offset as int) == old(self).code@,
                old(self).space.consts@.is_prefix_of(self.space.consts@),
                old(self).space.locals@.is_prefix_of(self.space.locals@),
                old(self).space.globals@.is_prefix_of(self.space.globals@),
                forall|name: Seq<char>|
                    #[trigger] names(self.space.locals@).contains(name) <==> in_scope(locals0, *other, j as int, name),
                forall|i: int|
                    0 <= i < j ==> #[trigger] relinked(
                        *other,
                        locals0,
                        i,
                        self.code@[branch_offset + i],
                        self.space.consts@,
                        self.space.locals@,
                        self.space.globals@,
                        branch_offset as int,
                    ),
            decreases n - j,
        {
            let ghost consts1 = self.space.consts@;
            let ghost lpool1 = self.space.locals@;
            let ghost gpool1 = self.space.globals@;
            let ghost code1 = self.code@;
            let inx = other.code[j];
            assert(code_mergeable(other.code@[j as int], *other, branch_offset as int));
            let new_inx = match inx {
                Protocol::CPush(k) => Protocol::CPush(index_of(&mut self.space.consts, &other.space.consts[k])),
                Protocol::LPush(k) => Protocol::LPush(name_index_of(&mut self.space.locals, &other.space.locals[k])),
                Protocol::LPop(k) => Protocol::LPop(name_index_of(&mut self.space.locals, &other.space.locals[k])),
                Protocol::LCall(k) => Protocol::LCall(name_index_of(&mut self.space.locals, &other.space.locals[k])),
                Protocol::GPush(k) => {
                    if contains_name(&self.space.locals, &other.space.globals[k]) {
                        Protocol::LPush(name_index_of(&mut self.space.locals, &other.space.globals[k]))
                    } else {
                        Protocol::GPush(name_index_of(&mut self.space.globals, &other.space.globals[k]))
                    }
                },
                Protocol::GPop(k) => {
                    if contains_name(&self.space.locals, &other.space.globals[k]) {
                        Protocol::LPop(name_index_of(&mut self.space.locals, &other.space.globals[k]))
                    } else {
                        Protocol::GPop(name_index_of(&mut self.space.globals, &other.space.globals[k]))
                    }
                },
                Protocol::GCall(k) => {
                    if contains_name(&self.space.locals, &other.space.globals[k]) {
                        Protocol::LCall(name_index_of(&mut self.space.locals, &other.space.globals[k]))
                    } else {
                        Protocol::GCall(name_index_of(&mut self.space.globals, &other.space.globals[k]))
                    }
                },
                Protocol::Jmp(b) => Protocol::Jmp(b + branch_offset),
                Protocol::Jt(b) => Protocol::Jt(b + branch_offset),
                Protocol::Jf(b) => Protocol::Jf(b + branch_offset),
                _ => inx,
            };
            self.code.push(new_inx);
            proof {
                assert(consts1.is_prefix_of(self.space.consts@)) by {
                    if self.space.consts@ != consts1 {
                        assert(self.space.consts@.subrange(0, consts1.len() as int) == consts1);
                    }
                }
                assert(lpool1.is_prefix_of(self.space.locals@)) by {
                    if self.space.locals@ != lpool1 {
                        assert(self.space.locals@.subrange(0, lpool1.len() as int) =~= lpool1);
                    }
                }
                assert(gpool1.is_prefix_of(self.space.globals@)) by {
                    if self.space.globals@ != gpool1 {
                        assert(self.space.globals@.subrange(0, gpool1.len() as int) =~= gpool1);
                    }
                }
                assert forall|i: int|
                    0 <= i < j + 1 implies #[trigger] relinked(
                        *other,
                        locals0,
                        i,
                        self.code@[branch_offset + i],
                        self.space.consts@,
                        self.space.locals@,
                        self.space.globals@,
                        branch_offset as int,
                    ) by {
                    if i < j {
                        assert(self.code@[branch_offset + i] == code1[branch_offset + i]);
                        lemma_relinked_grow(
                            *other,
                            locals0,
                            i,
                            code1[branch_offset + i],
                            consts1,
                            lpool1,
                            gpool1,
                            self.space.consts@,
                            self.space.locals@,
                            self.space.globals@,
                            branch_offset as int,
                        );
                    } else {
                        assert(self.code@[branch_offset + i] == new_inx);
                    }
                }
                assert(self.code@.subrange(0, branch_offset as int) =~= code1.subrange(0, branch_offset as int));
                assert forall|name: Seq<char>|
                    #[trigger] names(self.space.locals@).contains(name) <==> in_scope(locals0, *other, j + 1, name) by {
                    if in_scope(locals0, *other, j + 1, name) && !in_scope(locals0, *other, j as int, name) {
                        let i = choose|i: int|
                            0 <= i < j + 1 && is_local_op(#[trigger] other.code@[i]) && local_name(*other, other.code@[i]) == name;
                        assert(i == j);
                        assert(names(self.space.locals@)[spec_code_arg(new_inx)->0 as int] == name);
                    }
                    if in_scope(locals0, *other, j as int, name) {
                        assert(names(lpool1).contains(name));
                        let t = choose|t: int| 0 <= t < names(lpool1).len() && names(lpool1)[t] == name;
                        assert(self.space.locals@[t] == lpool1[t]);
                        assert(names(self.space.locals@)[t] == name);
                    }
                    if names(self.space.locals@).contains(name) && !names(lpool1).contains(name) {
                        let t = choose|t: int| 0 <= t < names(self.space.locals@).len() && names(self.space.locals@)[t] == name;
                        if t < lpool1.len() {
                            assert(self.space.locals@[t] == lpool1[t]);
                            assert(names(lpool1)[t] == name);
                        }
                        assert(self.space.locals@ != lpool1);
                        assert(t == lpool1.len());
                        assert(is_local_op(other.code@[j as int]));
                        assert(local_name(*other, other.code@[j as int]) == name);
                    }
                }
            }
            proof {
                assert(relink_step(*other, locals0, j as int, new_inx, consts1, lpool1, gpool1, self.space.consts@,
                    self.space.locals@, self.space.globals@, branch_offset as int)) by {
                    assert(relinked(*other, locals0, j as int, self.code@[branch_offset + j], self.space.consts@,
                        self.space.locals@, self.space.globals@, branch_offset as int));
                }
                let cs0 = cs;
                let ls0 = ls;
                let gs0 = gs;
                cs = cs.push(self.space.consts@);
                ls = ls.push(self.space.locals@);
                gs = gs.push(self.space.globals@);
                assert forall|i: int|
                    0 <= i < j + 1 implies #[trigger] relink_step(*other, locals0, i, self.code@[branch_offset + i], cs[i], ls[i],
                        gs[i], cs[i + 1], ls[i + 1], gs[i + 1], branch_offset as int) by {
                    if i < j {
                        assert(self.code@[branch_offset + i] == code1[branch_offset + i]);
                        assert(cs[i] == cs0[i] && cs[i + 1] == cs0[i + 1]);
                        assert(ls[i] == ls0[i] && ls[i + 1] == ls0[i + 1]);
                        assert(gs[i] == gs0[i] && gs[i + 1] == gs0[i + 1]);
                    } else {
                        assert(self.code@[branch_offset + i] == new_inx);
                    }
                }
            }
            j += 1;
        }
        proof {
            let rs = self.code@.subrange(branch_offset as int, self.code@.len() as int);
            assert forall|i: int|
                0 <= i < rs.len() implies #[trigger] relink_step(*other, locals0, i, rs[i], cs[i], ls[i], gs[i], cs[i + 1],
                    ls[i + 1], gs[i + 1], branch_offset as int) by {
                assert(rs[i] == self.code@[branch_offset + i]);
            }
            assert(relink_steps(*other, locals0, rs, cs, ls, gs, branch_offset as int));
        }
    }
}

} // verus!
