//! What each application processor does once it is up.
use vstd::prelude::*;

verus! {

/// The work an application processor takes on.
#[derive(Debug, Clone, Copy, PartialEq, Eq)]
pub enum ApRole {
    /// Runs the sending process.
    Alpha,
    /// Runs the receiving process.
    Beta,
    /// Parks in a halt loop.
    Idle,
}

/// The processor with APIC id 1 runs the sending process, the one with id
/// 2 the receiving process, and every other one idles.
pub fn ap_role(lapic_id: u32) -> (r: ApRole)
    ensures
        r == if lapic_id == 1 { ApRole::Alpha } else if lapic_id == 2 { ApRole::Beta } else { ApRole::Idle },
{
    if lapic_id == 1 {
        ApRole::Alpha
    } else if lapic_id == 2 {
        ApRole::Beta
    } else {
        ApRole::Idle
    }
}

} // verus!
