//! Page-table set-up for the cores.
use vstd::prelude::*;
use x86_64::structures::paging::{Page, Size4KiB};
use x86_64::VirtAddr;

verus! {

/// Entries in a page table.
pub const ENTRY_COUNT: usize = 512;

/// The first entry of the kernel's (higher) half of the address space.
pub const HIGHER_HALF_START: usize = 256;

/// A new top-level page table for a core: the lower half empty and the
/// higher half shared with the active table `active`.
pub fn create_per_core_page_table(active: &[u64]) -> (r: Vec<u64>)
    requires
        active@.len() == ENTRY_COUNT,
    ensures
        r@.len() == ENTRY_COUNT,
        forall|i: int| 0 <= i < HIGHER_HALF_START ==> r@[i] == 0,
        forall|i: int| HIGHER_HALF_START <= i < ENTRY_COUNT ==> r@[i] == active@[i],
{
    let mut table = vec![0u64; ENTRY_COUNT];
    let mut i: usize = HIGHER_HALF_START;
    while i < ENTRY_COUNT
        invariant
            HIGHER_HALF_START <= i <= ENTRY_COUNT,
            active@.len() == ENTRY_COUNT,
            table@.len() == ENTRY_COUNT,
            forall|j: int| 0 <= j < HIGHER_HALF_START ==> table@[j] == 0,
            forall|j: int| HIGHER_HALF_START <= j < i ==> table@[j] == active@[j],
        decreases ENTRY_COUNT - i,
    {
        table.set(i, active[i]);
        i = i + 1;
    }
    table
}

/// The start address of the 4 KiB page that contains `addr`.
///
/// Calls `x86_64`'s `Page::<Size4KiB>::containing_address(VirtAddr::new(addr))`
/// and its `start_address`, which aligns the address down to 4096; for an
/// address below 2^47 that is `addr` with its low 12 bits cleared.
#[verifier::external_body]
fn page_containing(addr: u64) -> (r: u64)
    requires
        addr < 0x8000_0000_0000,
    ensures
        r == addr & !0xfffu64,
{
    Page::<Size4KiB>::containing_address(VirtAddr::new(addr)).start_address().as_u64()
}

/// The first and the last page of the region `[start, start + size)`, as
/// the addresses they start at.
pub fn page_range(start: u64, size: u64) -> (r: (u64, u64))
    requires
        size > 0,
        start + size <= 0x8000_0000_0000,
    ensures
        r.0 == start & !0xfffu64,
        r.1 == ((start + size - 1) as u64) & !0xfffu64,
        r.0 <= start,
        r.1 <= start + size - 1,
        start + size - 1 < r.1 + 4096,
{
    let first = page_containing(start);
    let last_byte = start + size - 1;
    let last = page_containing(last_byte);
    proof {
        assert(start & !0xfffu64 <= start) by (bit_vector);
        assert(last_byte & !0xfffu64 <= last_byte) by (bit_vector);
        assert(last_byte < (last_byte & !0xfffu64) + 4096) by (bit_vector);
    }
    (first, last)
}

} // verus!
