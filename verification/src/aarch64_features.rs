//! CPU feature detection, decoded from the identification registers.
//!
//! Pure functions over register values: the `mrs` that produces a value is
//! the caller's business.

use vstd::prelude::*;
use crate::bits::lemma_shift_facts;

verus! {

/// The four-bit field of `value` that starts at bit `shift`.
pub open spec fn id_field(value: u64, shift: u64) -> u64 {
    (value >> shift) & 0xF
}

/// Whether the hardware random number generator is present.
///
/// `ID_AA64ISAR0_EL1.RNDR`, bits [63:60]. `0b0001` means `RNDR` and `RNDRRS`
/// exist.
#[derive(Debug, Clone, Copy, PartialEq, Eq)]
pub struct RandomSupport {
    /// `RNDR` and `RNDRRS` are implemented.
    pub present: bool,
}

impl RandomSupport {
    /// Decode from `ID_AA64ISAR0_EL1`.
    pub fn from_isar0(value: u64) -> (support: Self)
        ensures
            support.present == (id_field(value, 60) == 1),
    {
        Self { present: (value >> 60) & 0xF == 0b0001 }
    }
}

/// Pointer authentication and branch-target identification.
#[derive(Debug, Clone, Copy, PartialEq, Eq)]
pub struct ControlFlowSupport {
    /// Address authentication, QARMA5 (`ID_AA64ISAR1_EL1.APA`, bits [7:4]).
    pub address_auth_qarma: bool,
    /// Address authentication, implementation defined (`API`, bits [11:8]).
    pub address_auth_impdef: bool,
    /// Generic authentication, QARMA5 (`GPA`, bits [27:24]).
    pub generic_auth_qarma: bool,
    /// Generic authentication, implementation defined (`GPI`, bits [31:28]).
    pub generic_auth_impdef: bool,
    /// Branch target identification (`ID_AA64PFR1_EL1.BT`, bits [3:0]).
    pub branch_target_identification: bool,
}

impl ControlFlowSupport {
    /// Decode from `ID_AA64ISAR1_EL1` and `ID_AA64PFR1_EL1`.
    ///
    /// Both the QARMA and the implementation-defined fields are decoded:
    /// Apple implements pointer authentication with its own algorithm.
    pub fn from_id_registers(isar1: u64, pfr1: u64) -> (support: Self)
        ensures
            support.address_auth_qarma == (id_field(isar1, 4) != 0),
            support.address_auth_impdef == (id_field(isar1, 8) != 0),
            support.generic_auth_qarma == (id_field(isar1, 24) != 0),
            support.generic_auth_impdef == (id_field(isar1, 28) != 0),
            support.branch_target_identification == (id_field(pfr1, 0) != 0),
    {
        proof {
            lemma_shift_facts(pfr1, 0);
        }
        Self {
            address_auth_qarma: (isar1 >> 4) & 0xF != 0,
            address_auth_impdef: (isar1 >> 8) & 0xF != 0,
            generic_auth_qarma: (isar1 >> 24) & 0xF != 0,
            generic_auth_impdef: (isar1 >> 28) & 0xF != 0,
            branch_target_identification: pfr1 & 0xF != 0,
        }
    }

    /// Whether any form of address authentication is available.
    pub fn address_auth(&self) -> (available: bool)
        ensures
            available == (self.address_auth_qarma || self.address_auth_impdef),
    {
        self.address_auth_qarma || self.address_auth_impdef
    }
}

} // verus!
