//! Protection keys for supervisor pages: the PKRS rights register and the
//! key field of page-table entries.
use vstd::prelude::*;
use x86_64::VirtAddr;

verus! {

/// PKRS model-specific register.
pub const MSR_PKRS: u32 = 0x6E1;

/// Bit of CR4 that enables protection keys for supervisor pages.
pub const CR4_PKS_BIT: u64 = 1 << 24;

/// Mask of the physical frame address in a page-table entry.
pub const ENTRY_ADDR_MASK: u64 = 0x000F_FFFF_FFFF_F000;

/// Access to pages tagged with key `key` is disabled by `pkrs`.
pub open spec fn access_disabled(pkrs: u64, key: u64) -> bool {
    (pkrs >> (2 * key) as u64) & 1 == 1
}

/// Writes to pages tagged with key `key` are disabled by `pkrs`.
pub open spec fn write_disabled(pkrs: u64, key: u64) -> bool {
    (pkrs >> (2 * key + 1) as u64) & 1 == 1
}

/// CR4 with protection keys for supervisor pages enabled.
pub fn cr4_with_pks(cr4: u64) -> (r: u64)
    ensures
        r == cr4 | CR4_PKS_BIT,
{
    cr4 | (1 << 24)
}

proof fn lemma_key_rights_bits(current: u64, shift: u64, a: u64, da: bool, dw: bool)
    requires
        shift < 32,
        a < 32,
        shift % 2 == 0,
        a % 2 == 0,
    ensures
        ({
            let cleared = current & !(3u64 << shift);
            let r1 = if da { cleared | (1u64 << shift) } else { cleared };
            let r = if dw { r1 | (2u64 << shift) } else { r1 };
            &&& ((r >> a) & 1 == 1) == (if a == shift { da } else { (current >> a) & 1 == 1 })
            &&& ((r >> (a + 1) as u64) & 1 == 1) == (if a == shift { dw } else { (current >> (a + 1) as u64) & 1 == 1 })
            &&& r >> 32u64 == current >> 32u64
        }),
{
    let cleared = current & !(3u64 << shift);
    let r1 = if da { cleared | (1u64 << shift) } else { cleared };
    let r = if dw { r1 | (2u64 << shift) } else { r1 };
    let b: u64 = (a + 1) as u64;
    assert(shift <= 30);
    assert(((r >> a) & 1 == 1) == (if a == shift { da } else { (current >> a) & 1 == 1 })) by (bit_vector)
        requires
            shift < 32, a < 32, shift % 2 == 0, a % 2 == 0,
            cleared == current & !(3u64 << shift),
            r1 == if da { cleared | (1u64 << shift) } else { cleared },
            r == if dw { r1 | (2u64 << shift) } else { r1 };
    assert(((r >> b) & 1 == 1) == (if a == shift { dw } else { (current >> b) & 1 == 1 })) by (bit_vector)
        requires
            shift < 32, a < 32, shift % 2 == 0, a % 2 == 0, b == a + 1,
            cleared == current & !(3u64 << shift),
            r1 == if da { cleared | (1u64 << shift) } else { cleared },
            r == if dw { r1 | (2u64 << shift) } else { r1 };
    assert((3u64 << shift) < 0x1_0000_0000u64 && (1u64 << shift) < 0x1_0000_0000u64 && (2u64 << shift) < 0x1_0000_0000u64) by (bit_vector)
        requires shift <= 30;
    let m3 = 3u64 << shift;
    let m1 = 1u64 << shift;
    let m2 = 2u64 << shift;
    assert((current & !m3) >> 32u64 == current >> 32u64) by (bit_vector)
        requires m3 < 0x1_0000_0000u64;
    assert((cleared | m1) >> 32u64 == cleared >> 32u64) by (bit_vector)
        requires m1 < 0x1_0000_0000u64;
    assert((r1 | m2) >> 32u64 == r1 >> 32u64) by (bit_vector)
        requires m2 < 0x1_0000_0000u64;
}

/// The PKRS value `current_pkrs` with the access- and write-disable bits
/// of `key` set as asked and every other key's rights kept.
pub fn set_key_rights(current_pkrs: u64, key: u8, disable_access: bool, disable_write: bool) -> (r: u64)
    requires
        key < 16,
    ensures
        access_disabled(r, key as u64) == disable_access,
        write_disabled(r, key as u64) == disable_write,
        forall|k: u64| k < 16 && k != key ==> access_disabled(r, k) == access_disabled(current_pkrs, k)
            && write_disabled(r, k) == write_disabled(current_pkrs, k),
        r >> 32u64 == current_pkrs >> 32u64,
{
    let shift = (key * 2) as u64;
    let mut new_pkrs = current_pkrs & !(0b11u64 << shift); // clear bits
    if disable_access {
        new_pkrs |= 1u64 << shift;
    }
    if disable_write {
        new_pkrs |= 2u64 << shift;
    }
    proof {
        lemma_key_rights_bits(current_pkrs, shift, shift, disable_access, disable_write);
        assert forall|k: u64| k < 16 && k != key implies access_disabled(new_pkrs, k) == access_disabled(current_pkrs, k)
            && write_disabled(new_pkrs, k) == write_disabled(current_pkrs, k) by {
            lemma_key_rights_bits(current_pkrs, shift, (2 * k) as u64, disable_access, disable_write);
        }
    }
    new_pkrs
}

/// Why a walk of the page tables to a 4 KiB entry stops.
#[derive(Debug, Clone, Copy, PartialEq, Eq)]
pub enum WalkError {
    /// The entry at this level (4 to 1) is not present.
    NotPresent(u8),
    /// The entry at this level (3 or 2) maps a huge page.
    HugePage(u8),
}

/// The level-1 entry `entry` tagged with protection key `key` (bits 59-62).
pub open spec fn tagged_entry(entry: u64, key: u64) -> u64 {
    (entry & !(0xfu64 << 59u64)) | (key << 59u64)
}

/// Given the entry read at `level` of the walk, the physical address of the
/// next table, or why the walk stops: a missing entry, or a huge page at
/// level 3 or 2.
pub fn next_table(entry: u64, level: u8) -> (r: Result<u64, WalkError>)
    requires
        2 <= level <= 4,
    ensures
        entry & 1 == 0 ==> r == Err::<u64, WalkError>(WalkError::NotPresent(level)),
        entry & 1 != 0 && level <= 3 && entry & 0x80 != 0 ==> r == Err::<u64, WalkError>(WalkError::HugePage(level)),
        entry & 1 != 0 && (level == 4 || entry & 0x80 == 0) ==> r == Ok::<u64, WalkError>(entry & ENTRY_ADDR_MASK),
{
    if entry & 1 == 0 {
        return Err(WalkError::NotPresent(level));
    }
    assert(1u64 << 7u64 == 0x80u64) by (bit_vector);
    if level <= 3 && entry & (1 << 7) != 0 {
        return Err(WalkError::HugePage(level));
    }
    Ok(entry & ENTRY_ADDR_MASK)
}

/// The level-1 entry with its protection key set to `key`, or an error when
/// the entry is not present.
pub fn tag_entry(entry: u64, key: u8) -> (r: Result<u64, WalkError>)
    requires
        key < 16,
    ensures
        entry & 1 == 0 ==> r == Err::<u64, WalkError>(WalkError::NotPresent(1)),
        entry & 1 != 0 ==> r == Ok::<u64, WalkError>(tagged_entry(entry, key as u64)),
{
    if entry & 1 == 0 {
        return Err(WalkError::NotPresent(1));
    }
    let mut p1_entry = entry;
    // Clear the existing protection key (bits 59-62)
    p1_entry &= !(0b1111u64 << 59);
    // Set the new protection key
    p1_entry |= (key as u64) << 59;
    Ok(p1_entry)
}

/// Tagging a present entry sets its key field to the key and keeps every
/// other bit; the key reads back from bits 59-62.
pub proof fn lemma_tagged_entry(entry: u64, key: u64, bit: u64)
    requires
        key < 16,
        bit < 64,
    ensures
        (tagged_entry(entry, key) >> 59u64) & 0xf == key,
        (bit < 59 || bit > 62) ==> (tagged_entry(entry, key) >> bit) & 1 == (entry >> bit) & 1,
{
    assert((((entry & !(0xfu64 << 59u64)) | (key << 59u64)) >> 59u64) & 0xf == key) by (bit_vector)
        requires key < 16;
    assert((bit < 59 || bit > 62) ==> ((((entry & !(0xfu64 << 59u64)) | (key << 59u64)) >> bit) & 1 == (entry >> bit) & 1)) by (bit_vector)
        requires key < 16, bit < 64;
}

/// The level-4 index of a virtual address: bits 39-47.
///
/// Calls `x86_64::VirtAddr::new_truncate` and `VirtAddr::p4_index`, which
/// sign-extends bit 47 and then keeps 9 bits of the address shifted right
/// by 39, so the index is bits 39-47 of `addr`.
#[verifier::external_body]
fn p4_index(addr: u64) -> (r: u16)
    ensures
        r == (addr >> 39u64) & 0x1ff,
{
    u16::from(VirtAddr::new_truncate(addr).p4_index())
}

/// The level-3 index of a virtual address: bits 30-38.
///
/// Calls `x86_64::VirtAddr::p3_index` on the truncated address, which keeps
/// 9 bits of the address shifted right by 30.
#[verifier::external_body]
fn p3_index(addr: u64) -> (r: u16)
    ensures
        r == (addr >> 30u64) & 0x1ff,
{
    u16::from(VirtAddr::new_truncate(addr).p3_index())
}

/// The level-2 index of a virtual address: bits 21-29.
///
/// Calls `x86_64::VirtAddr::p2_index` on the truncated address, which keeps
/// 9 bits of the address shifted right by 21.
#[verifier::external_body]
fn p2_index(addr: u64) -> (r: u16)
    ensures
        r == (addr >> 21u64) & 0x1ff,
{
    u16::from(VirtAddr::new_truncate(addr).p2_index())
}

/// The level-1 index of a virtual address: bits 12-20.
///
/// Calls `x86_64::VirtAddr::p1_index` on the truncated address, which keeps
/// 9 bits of the address shifted right by 12.
#[verifier::external_body]
fn p1_index(addr: u64) -> (r: u16)
    ensures
        r == (addr >> 12u64) & 0x1ff,
{
    u16::from(VirtAddr::new_truncate(addr).p1_index())
}

/// The indices into the level 4, 3, 2 and 1 tables of the walk to `addr`.
pub fn page_table_indices(addr: u64) -> (r: [u16; 4])
    ensures
        r@ == seq![
            ((addr >> 39u64) & 0x1ff) as u16,
            ((addr >> 30u64) & 0x1ff) as u16,
            ((addr >> 21u64) & 0x1ff) as u16,
            ((addr >> 12u64) & 0x1ff) as u16,
        ],
        forall|i: int| 0 <= i < 4 ==> r@[i] < 512,
{
    let r = [p4_index(addr), p3_index(addr), p2_index(addr), p1_index(addr)];
    proof {
        assert((addr >> 39u64) & 0x1ff < 512) by (bit_vector);
        assert((addr >> 30u64) & 0x1ff < 512) by (bit_vector);
        assert((addr >> 21u64) & 0x1ff < 512) by (bit_vector);
        assert((addr >> 12u64) & 0x1ff < 512) by (bit_vector);
    }
    assert(r@ =~= seq![
            ((addr >> 39u64) & 0x1ff) as u16,
            ((addr >> 30u64) & 0x1ff) as u16,
            ((addr >> 21u64) & 0x1ff) as u16,
            ((addr >> 12u64) & 0x1ff) as u16,
        ]);
    r
}

} // verus!
