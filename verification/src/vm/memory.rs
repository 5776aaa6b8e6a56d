use std::collections::HashMap;
use vstd::prelude::*;

use crate::data::code::Code;

verus! {

broadcast use vstd::std_specs::hash::group_hash_axioms;

/// Instruction memory of the machine: a sparse map from addresses to instructions.
pub struct VmMemory {
    mem: HashMap<usize, Code>,
}

/// `m` with the cells `at .. at + block.len()` holding the instructions of `block`.
pub open spec fn spec_map_block(m: Map<usize, Code>, block: Seq<Code>, at: int) -> Map<usize, Code> {
    m.union_prefer_right(
        Map::new(|k: usize| at <= k < at + block.len(), |k: usize| block[k - at]),
    )
}

impl View for VmMemory {
    type V = Map<usize, Code>;

    closed spec fn view(&self) -> Map<usize, Code> {
        self.mem@
    }
}

impl VmMemory {
    /// An empty memory.
    pub fn new() -> (m: Self)
        ensures
            m@ == Map::<usize, Code>::empty(),
    {
        VmMemory { mem: HashMap::new() }
    }

    /// Places `bl` in memory starting at address `at`, overwriting what was there.
    pub fn map(&mut self, bl: &Vec<Code>, at: usize)
        requires
            at + bl@.len() <= usize::MAX + 1,
        ensures
            final(self)@ == spec_map_block(old(self)@, bl@, at as int),
    {
        let n = bl.len();
        let mut off: usize = 0;
        while off < n
            invariant
                n == bl@.len(),
                off <= n,
                at + n <= usize::MAX + 1,
                self@ == spec_map_block(old(self)@, bl@.subrange(0, off as int), at as int),
            decreases n - off,
        {
            let ghost before = self@;
            self.mem.insert(at + off, bl[off]);
            proof {
                let done = bl@.subrange(0, off as int + 1);
                assert(self@ =~= spec_map_block(old(self)@, done, at as int)) by {
                    assert forall|k: usize| #[trigger] self@.contains_key(k) == spec_map_block(old(self)@, done, at as int).contains_key(k)
                        by {}
                    assert forall|k: usize| self@.contains_key(k) implies #[trigger] self@[k] == spec_map_block(old(self)@, done, at as int)[k]
                        by {
                        if k != at + off {
                            assert(before[k] == self@[k]);
                        }
                    }
                }
            }
            off += 1;
        }
        proof {
            assert(bl@.subrange(0, n as int) =~= bl@);
        }
    }

    /// The instruction stored at `idx`.
    pub fn index(&self, idx: usize) -> (c: Code)
        requires
            self@.contains_key(idx),
        ensures
            c == self@[idx],
    {
        *self.mem.get(&idx).unwrap()
    }
}

/// Reading a cell after mapping a block gives the block's instruction there;
/// every cell outside the block keeps what it held.
pub proof fn lemma_map_then_read(m: Map<usize, Code>, block: Seq<Code>, at: usize, k: usize)
    requires
        at + block.len() <= usize::MAX + 1,
    ensures
        at <= k < at + block.len() ==> spec_map_block(m, block, at as int).contains_key(k)
            && spec_map_block(m, block, at as int)[k] == block[k - at],
        !(at <= k < at + block.len()) ==> (spec_map_block(m, block, at as int).contains_key(k)
            == m.contains_key(k) && (m.contains_key(k) ==> spec_map_block(m, block, at as int)[k]
            == m[k])),
{
}

} // verus!
