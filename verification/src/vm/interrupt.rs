use vstd::prelude::*;

verus! {

/// The number of interrupt slots.
pub const INTERRUPT_SLOTS: usize = 256;

/// The slot of the debug interrupt.
pub const DEBUG_INTERRUPT: usize = 10;

/// The interrupt table: a handler, or none, for each of the 256 slots.
#[derive(Debug)]
pub struct Interrupts<H>(Vec<Option<H>>);

impl<H> View for Interrupts<H> {
    type V = Seq<Option<H>>;

    closed spec fn view(&self) -> Seq<Option<H>> {
        self.0@
    }
}

impl<H: Copy> Interrupts<H> {
    /// A table of 256 empty slots.
    pub fn new() -> (res: Self)
        ensures
            res@.len() == INTERRUPT_SLOTS,
            forall|i: int| 0 <= i < INTERRUPT_SLOTS ==> (#[trigger] res@[i]) is None,
    {
        let mut slots: Vec<Option<H>> = Vec::new();
        let mut i: usize = 0;
        while i < INTERRUPT_SLOTS
            invariant
                i <= INTERRUPT_SLOTS,
                slots@.len() == i,
                forall|j: int| 0 <= j < i ==> (#[trigger] slots@[j]) is None,
            decreases INTERRUPT_SLOTS - i,
        {
            slots.push(None);
            i += 1;
        }
        Interrupts(slots)
    }

    /// The default table: `dbg` in the slot of `Dbg` (10), `put` in the slot of
    /// `Put` (20), every other slot empty.
    pub fn with_defaults(dbg: H, put: H) -> (res: Self)
        ensures
            res@.len() == INTERRUPT_SLOTS,
            res@[10] == Some(dbg),
            res@[20] == Some(put),
            forall|i: int| 0 <= i < INTERRUPT_SLOTS && i != 10 && i != 20 ==> (#[trigger] res@[i]) is None,
    {
        let mut t = Self::new();
        t.set(10, Some(dbg));
        t.set(20, Some(put));
        t
    }

    /// The handler in slot `idx`, if there is one.
    pub fn get(&self, idx: usize) -> (res: Option<&H>)
        requires
            idx < self@.len(),
        ensures
            match res {
                Some(h) => self@[idx as int] == Some(*h),
                None => self@[idx as int] is None,
            },
    {
        self.0[idx].as_ref()
    }

    /// Puts `ir` into slot `idx`.
    pub fn set(&mut self, idx: usize, ir: Option<H>)
        requires
            idx < old(self)@.len(),
        ensures
            final(self)@ == old(self)@.update(idx as int, ir),
    {
        self.0.set(idx, ir);
    }
}

} // verus!
