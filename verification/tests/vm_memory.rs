use lovm::data::code::Code;
use lovm::vm::memory::VmMemory;
use lovm::vm::{Interrupt, VmState, VM_MEMORY_SIZE, VM_STACK_SIZE};

#[test]
fn map_then_read_gives_the_block() {
    let mut m = VmMemory::new();
    m.map(&vec![Code::Add, Code::Jmp(2), Code::Ret], 10);
    assert_eq!(m.index(10), Code::Add);
    assert_eq!(m.index(11), Code::Jmp(2));
    assert_eq!(m.index(12), Code::Ret);
}

#[test]
fn map_overwrites_only_the_block() {
    let mut m = VmMemory::new();
    m.map(&vec![Code::Add, Code::Sub], 0);
    m.map(&vec![Code::Mul], 1);
    assert_eq!(m.index(0), Code::Add);
    assert_eq!(m.index(1), Code::Mul);
}

#[test]
fn map_of_empty_block_changes_nothing() {
    let mut m = VmMemory::new();
    m.map(&vec![Code::Dup], 5);
    m.map(&vec![], 5);
    assert_eq!(m.index(5), Code::Dup);
}

#[test]
fn map_at_the_top_of_the_address_space() {
    let mut m = VmMemory::new();
    m.map(&vec![Code::Neg], usize::MAX);
    assert_eq!(m.index(usize::MAX), Code::Neg);
}

#[test]
fn interrupt_numbers() {
    assert_eq!(Interrupt::Dbg.number(), 10);
    assert_eq!(Interrupt::Put.number(), 20);
}

#[test]
fn vm_limits() {
    assert_eq!(VM_MEMORY_SIZE, 2400);
    assert_eq!(VM_STACK_SIZE, 256);
    assert_ne!(VmState::Initial, VmState::Running);
    assert_eq!(VmState::Exited, VmState::Exited);
}

use lovm::vm::object::pool::ObjectPool;

#[test]
fn object_pool_hands_out_fresh_handles() {
    let mut pool: ObjectPool<&str> = ObjectPool::new();
    let a = pool.new_handle("array");
    let b = pool.new_handle("dict");
    assert_eq!(a, 1);
    assert_eq!(b, 2);
    assert_eq!(pool.get(&a), Some(&"array"));
    assert_eq!(pool.get(&b), Some(&"dict"));
    pool.dispose_handle(&a);
    assert_eq!(pool.get(&a), None);
    assert_eq!(pool.get(&b), Some(&"dict"));
    let c = pool.new_handle("again");
    assert_eq!(c, 3);
    assert_eq!(pool.get(&3), Some(&"again"));
    pool.dispose_handle(&99);
    assert_eq!(pool.get(&99), None);
}

use lovm::vm::interrupt::Interrupts;

#[test]
fn interrupt_table_slots() {
    let mut t: Interrupts<u32> = Interrupts::new();
    assert_eq!(t.get(0), None);
    assert_eq!(t.get(255), None);
    t.set(Interrupt::Dbg.number(), Some(7));
    t.set(Interrupt::Put.number(), Some(8));
    assert_eq!(t.get(10), Some(&7));
    assert_eq!(t.get(20), Some(&8));
    t.set(10, None);
    assert_eq!(t.get(10), None);
}
