//! Local APIC register programming.
use vstd::prelude::*;

verus! {

pub const APIC_SIVR: u64 = 0xF0;
pub const APIC_EOI: u64 = 0xB0;
pub const APIC_LVT_TIMER: u64 = 0x320;
pub const APIC_TIMER_INIT: u64 = 0x380;
pub const APIC_TIMER_DIV: u64 = 0x3E0;
pub const APIC_ID: u64 = 0x20;

/// The IA32_APIC_BASE model-specific register.
pub const IA32_APIC_BASE_MSR: u32 = 0x1B;

/// Mask of the physical base address in IA32_APIC_BASE.
pub const APIC_BASE_MASK: u64 = 0xFFFF_FFFF_FFFF_F000;

/// A 32-bit write to the APIC register at `offset`.
#[derive(Debug, Clone, Copy, PartialEq, Eq)]
pub struct RegWrite {
    pub offset: u64,
    pub value: u32,
}

/// The register writes that enable a core's APIC and start its timer:
/// spurious vector 0xFF with the enable bit, periodic timer on vector 32,
/// divide by 16, initial count 10,000,000.
pub open spec fn timer_setup_spec() -> Seq<RegWrite> {
    seq![
        RegWrite { offset: APIC_SIVR, value: 0x1FF },
        RegWrite { offset: APIC_LVT_TIMER, value: 0x20020 },
        RegWrite { offset: APIC_TIMER_DIV, value: 0x3 },
        RegWrite { offset: APIC_TIMER_INIT, value: 10_000_000 },
    ]
}

/// The register writes with which an application processor enables its
/// APIC and starts its timer, in order.
pub fn init_ap() -> (r: Vec<RegWrite>)
    ensures
        r@ == timer_setup_spec(),
{
    let mut w: Vec<RegWrite> = Vec::new();
    // Enable APIC by writing to the Spurious Interrupt Vector Register
    w.push(RegWrite { offset: APIC_SIVR, value: 0xFF | 0x100 });
    // Periodic timer on vector 32
    w.push(RegWrite { offset: APIC_LVT_TIMER, value: 32 | 0x20000 });
    // Divide by 16
    w.push(RegWrite { offset: APIC_TIMER_DIV, value: 0x3 });
    // Initial count
    w.push(RegWrite { offset: APIC_TIMER_INIT, value: 10_000_000 });
    assert((0xFFu32 | 0x100u32) == 0x1FFu32) by (bit_vector);
    assert((32u32 | 0x20000u32) == 0x20020u32) by (bit_vector);
    assert(w@ =~= timer_setup_spec());
    w
}

/// The end-of-interrupt write.
pub fn eoi() -> (r: RegWrite)
    ensures
        r == (RegWrite { offset: APIC_EOI, value: 0 }),
{
    RegWrite { offset: APIC_EOI, value: 0 }
}

/// The APIC id held in the top byte of the ID register value.
pub fn lapic_id(id_register: u32) -> (r: u8)
    ensures
        r == id_register >> 24u32,
{
    proof {
        assert(id_register >> 24u32 <= 0xff) by (bit_vector);
    }
    (id_register >> 24) as u8
}

/// The address of an APIC register, or `None` before the APIC base has
/// been recorded (base 0).
pub fn register_address(base_virt: u64, offset: u64) -> (r: Option<u64>)
    requires
        base_virt + offset <= u64::MAX,
    ensures
        base_virt == 0 ==> r is None,
        base_virt != 0 ==> r == Some((base_virt + offset) as u64),
{
    if base_virt == 0 {
        return None;
    }
    Some(base_virt + offset)
}

/// The physical base of the APIC registers taken from IA32_APIC_BASE, and
/// its address in the higher-half direct map.
pub fn apic_bases(msr_value: u64, hhdm_offset: u64) -> (r: (u64, u64))
    requires
        (msr_value & APIC_BASE_MASK) + hhdm_offset <= u64::MAX,
    ensures
        r.0 == msr_value & APIC_BASE_MASK,
        r.1 == r.0 + hhdm_offset,
{
    let phys_base = msr_value & APIC_BASE_MASK;
    (phys_base, phys_base + hhdm_offset)
}

} // verus!
