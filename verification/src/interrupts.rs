//! Interrupt vector numbering.
use vstd::prelude::*;

verus! {

/// Vector of the first legacy PIC's first interrupt line.
pub const PIC_1_OFFSET: u8 = 32;

/// Vector of the second legacy PIC's first interrupt line.
pub const PIC_2_OFFSET: u8 = PIC_1_OFFSET + 8;

/// Hardware interrupt vectors in use.
#[derive(Debug, Clone, Copy, PartialEq, Eq)]
pub enum InterruptIndex {
    Timer,
}

/// The vector of an interrupt.
pub open spec fn vector_of(i: InterruptIndex) -> u8 {
    match i {
        InterruptIndex::Timer => PIC_1_OFFSET,
    }
}

impl InterruptIndex {
    /// The interrupt's vector.
    pub fn as_u8(self) -> (r: u8)
        ensures
            r == vector_of(self),
    {
        match self {
            InterruptIndex::Timer => PIC_1_OFFSET,
        }
    }

    /// The interrupt's vector, as an index into the descriptor table.
    pub fn as_usize(self) -> (r: usize)
        ensures
            r == vector_of(self),
    {
        self.as_u8() as usize
    }
}

} // verus!
