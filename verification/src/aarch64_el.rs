//! Exception-level excursions: what is recorded about a drop to EL1 and
//! back, and what EL1 could reach before going there.

use vstd::prelude::*;

verus! {

/// `HCR_EL2.TGE`, bit 27: while set, EL1 does not exist as a regime.
pub const HCR_TGE: u64 = 0x800_0000;

/// `SPSR` for EL1h with DAIF masked.
pub const SPSR_EL1H_MASKED: u64 = 0x3C5;

/// `SPSR` for EL2h with DAIF masked.
pub const SPSR_EL2H_MASKED: u64 = 0x3C9;

/// The exception level in a `CurrentEL` value, bits [3:2].
pub fn exception_level_of(current_el: u64) -> (level: u64)
    ensures
        level == (current_el >> 2u64) & 0b11,
        level <= 3,
{
    proof {
        crate::bits::lemma_and_bound(current_el >> 2u64, 0b11);
    }
    (current_el >> 2) & 0b11
}

/// `HCR_EL2` with `TGE` cleared, every other bit kept.
pub fn without_tge(hcr: u64) -> (cleared: u64)
    ensures
        cleared == hcr & !HCR_TGE,
{
    hcr & !HCR_TGE
}

/// What a drop to EL1 and back observed.
#[derive(Debug, Clone, Copy, PartialEq, Eq)]
pub struct Excursion {
    /// The exception level the code at EL1 read from `CurrentEL`.
    pub observed_el: u64,
    /// `HCR_EL2` before the change.
    pub hcr_before: u64,
    /// `HCR_EL2` after restoring.
    pub hcr_after: u64,
    /// The vector the way home arrived on.
    pub return_vector: u64,
    /// What an EL1 fault recorded, if one was taken.
    pub el1_fault: [u64; 4],
}

impl Excursion {
    /// The record of an excursion, from what was read on the way.
    pub fn recorded(
        current_el: u64,
        hcr_before: u64,
        hcr_after: u64,
        return_vector: u64,
        el1_fault: [u64; 4],
    ) -> (excursion: Self)
        ensures
            excursion.observed_el == (current_el >> 2u64) & 0b11,
            excursion.hcr_before == hcr_before,
            excursion.hcr_after == hcr_after,
            excursion.return_vector == return_vector,
            excursion.el1_fault == el1_fault,
    {
        Excursion {
            observed_el: exception_level_of(current_el),
            hcr_before,
            hcr_after,
            return_vector,
            el1_fault,
        }
    }
}

/// What EL1 would be able to reach, asked with `AT S1E1R` and `TGE` clear.
#[derive(Debug, Clone, Copy, PartialEq, Eq)]
pub struct El1Reachability {
    /// `HCR_EL2` as it stood while the questions were asked.
    pub hcr_while_asking: u64,
    /// `PAR_EL1` for the payload's own code.
    pub par_code: u64,
    /// `PAR_EL1` for the EL1 vector table.
    pub par_vectors: u64,
    /// `PAR_EL1` for the stack EL1 would run on.
    pub par_stack: u64,
}

} // verus!
