use vstd::prelude::*;

verus! {

/// A call frame of the stack machine: the local slots of a running code object.
#[derive(Debug)]
pub struct VmFrame<V> {
    pub locals: Vec<V>,
}

/// Every slot of `locals` holds a clone of `zero`.
pub open spec fn all_cloned_from<V: Clone>(locals: Seq<V>, zero: V) -> bool {
    forall|i: int| 0 <= i < locals.len() ==> cloned(zero, #[trigger] locals[i])
}

impl<V: Clone> VmFrame<V> {
    /// A frame of `argc` local slots, each holding a fresh copy of `zero`.
    pub fn new(argc: usize, zero: &V) -> (res: Self)
        ensures
            res.locals@.len() == argc,
            all_cloned_from(res.locals@, *zero),
    {
        let mut locals: Vec<V> = Vec::new();
        let mut i: usize = 0;
        while i < argc
            invariant
                i <= argc,
                locals@.len() == i,
                all_cloned_from(locals@, *zero),
            decreases argc - i,
        {
            let v = zero.clone();
            locals.push(v);
            i += 1;
        }
        VmFrame { locals }
    }
}

} // verus!
