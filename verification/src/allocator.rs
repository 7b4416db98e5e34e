//! The kernel heap.
use vstd::prelude::*;

pub mod mesh;

verus! {

/// Virtual address where the kernel heap starts.
pub const HEAP_START: u64 = 0x_4444_4444_0000;

/// Size of the kernel heap in bytes (10 MiB).
pub const HEAP_SIZE: u64 = 10 * 1024 * 1024;

} // verus!
