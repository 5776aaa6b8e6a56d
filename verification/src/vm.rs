pub mod frame;
pub mod globals;
pub mod interrupt;
pub mod machine;
pub mod memory;
pub mod object;
pub mod register;
pub mod unit;

use vstd::prelude::*;

verus! {

/// Number of instruction cells a virtual machine addresses.
pub const VM_MEMORY_SIZE: usize = 2400;

/// Maximum depth of the call stack.
pub const VM_STACK_SIZE: usize = 256;

/// Flow-control status of a virtual machine.
#[derive(Clone, Copy, Debug, PartialEq, Eq, Structural)]
pub enum VmState {
    Initial,
    Running,
    Panic,
    Exited,
}

/// The interrupts the machine installs by default.
#[derive(Clone, Copy, Debug, PartialEq, Eq, Structural)]
pub enum Interrupt {
    Dbg,
    Put,
}

/// The slot of an interrupt in the interrupt table.
pub open spec fn spec_interrupt_number(i: Interrupt) -> usize {
    match i {
        Interrupt::Dbg => 10,
        Interrupt::Put => 20,
    }
}

impl Interrupt {
    /// The slot of the interrupt in the interrupt table (`Dbg` is 10, `Put` is 20).
    pub fn number(self) -> (n: usize)
        ensures
            n == spec_interrupt_number(self),
    {
        match self {
            Interrupt::Dbg => 10,
            Interrupt::Put => 20,
        }
    }
}

} // verus!
