//! Verified core of a small ring-0 kernel: the allocators, the physical
//! frame bitmap, the round-robin scheduler, the ASH bytecode interpreter and
//! x86-64 code generator, the text console, protection-key arithmetic and the
//! syscall router.  Hardware access lives outside this crate; every function
//! here computes on plain values.
use vstd::prelude::*;

pub mod allocator;
pub mod apic;
pub mod cpu;
pub mod executor;
pub mod interrupts;
pub mod memory;
pub mod mpk;
pub mod pmm;
pub mod scheduler;
pub mod sip;
pub mod smp;
pub mod syscall;
pub mod task;
pub mod writer;

verus! {

} // verus!
