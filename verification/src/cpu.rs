//! Control-register settings for hardware isolation.
use vstd::prelude::*;
use x86_64::registers::control::Cr4Flags;

verus! {

/// CR4 bits for supervisor-mode execution prevention (20), supervisor-mode
/// access prevention (21) and user protection keys (22).
pub const CR4_PROTECTION_BITS: u64 = 0x70_0000;

/// Inserts `Cr4Flags::SUPERVISOR_MODE_EXECUTION_PROTECTION`,
/// `SUPERVISOR_MODE_ACCESS_PREVENTION` and `PROTECTION_KEY_USER` of the
/// `x86_64` crate (bits 20, 21 and 22) into the flags `cr4`, keeping every
/// other bit as it is.
#[verifier::external_body]
fn insert_protection_flags(cr4: u64) -> (r: u64)
    ensures
        r == cr4 | CR4_PROTECTION_BITS,
{
    let mut flags = Cr4Flags::from_bits_retain(cr4);
    flags.insert(Cr4Flags::SUPERVISOR_MODE_EXECUTION_PROTECTION);
    flags.insert(Cr4Flags::SUPERVISOR_MODE_ACCESS_PREVENTION);
    flags.insert(Cr4Flags::PROTECTION_KEY_USER);
    flags.bits()
}

/// The CR4 value with SMEP, SMAP and user protection keys enabled and every
/// other setting kept.
pub fn protected_cr4(cr4: u64) -> (r: u64)
    ensures
        r == cr4 | CR4_PROTECTION_BITS,
        r & CR4_PROTECTION_BITS == CR4_PROTECTION_BITS,
        r & !CR4_PROTECTION_BITS == cr4 & !CR4_PROTECTION_BITS,
{
    let r = insert_protection_flags(cr4);
    proof {
        assert((cr4 | 0x70_0000u64) & 0x70_0000u64 == 0x70_0000u64) by (bit_vector);
        assert((cr4 | 0x70_0000u64) & !0x70_0000u64 == cr4 & !0x70_0000u64) by (bit_vector);
    }
    r
}

} // verus!
