//! Pointer authentication: what is switched on, where the key comes from,
//! and what counts as proof that it works.

use vstd::prelude::*;
use crate::aarch64_entropy::SeedReport;

verus! {

/// `SCTLR_EL1.EnIA`, bit 31.
pub const SCTLR_ENIA: u64 = 0x8000_0000;
/// `SCTLR_EL1.EnIB`, bit 30.
pub const SCTLR_ENIB: u64 = 0x4000_0000;
/// `SCTLR_EL1.EnDA`, bit 27.
pub const SCTLR_ENDA: u64 = 0x800_0000;
/// `SCTLR_EL1.EnDB`, bit 13.
pub const SCTLR_ENDB: u64 = 0x2000;
/// `SCTLR_EL1.BT1`, bit 36.
pub const SCTLR_BT1: u64 = 0x10_0000_0000;

/// A bit inside the signature field: flipping it must make authentication
/// fail.
pub const TAMPER_BIT: u64 = 0x80_0000_0000_0000;

/// What reading an unreadable register returned.
pub const UNREADABLE: u64 = 0xDEAD_0000_DEAD_0000;

/// The `SCTLR_EL1` bits set for the measurement: all four keys and BTI at EL1.
pub fn enable_bits() -> (bits: u64)
    ensures
        bits == SCTLR_ENIA | SCTLR_ENIB | SCTLR_ENDA | SCTLR_ENDB | SCTLR_BT1,
{
    SCTLR_ENIA | SCTLR_ENIB | SCTLR_ENDA | SCTLR_ENDB | SCTLR_BT1
}

/// The signed pointer with one signature bit flipped.
pub fn tampered(signed: u64) -> (pointer: u64)
    ensures
        pointer == signed ^ TAMPER_BIT,
{
    signed ^ TAMPER_BIT
}

/// Where the instruction key comes from: `RNDR` when the part has it, the
/// boot seed otherwise, and none when neither is there. The seed report is
/// kept for the log: the consumed seed's, or what a look found.
pub fn key_source(
    from_rndr: Option<(u64, u64)>,
    from_seed: Option<((u64, u64), SeedReport)>,
    looked: SeedReport,
) -> (source: (Option<(u64, u64)>, Option<SeedReport>))
    ensures
        source == (match from_rndr {
            Some(pair) => (Some(pair), None::<SeedReport>),
            None => match from_seed {
                Some((pair, report)) => (Some(pair), Some(report)),
                None => (None::<(u64, u64)>, Some(looked)),
            },
        }),
{
    match from_rndr {
        Some(pair) => (Some(pair), None),
        None => match from_seed {
            Some((pair, report)) => (Some(pair), Some(report)),
            None => (None, Some(looked)),
        },
    }
}

/// What enabling pointer authentication observed.
#[derive(Debug, Clone, Copy, PartialEq, Eq)]
pub struct PacReport {
    /// `SCTLR_EL1` before.
    pub sctlr_before: u64,
    /// `SCTLR_EL1` with the keys enabled.
    pub sctlr_while_enabled: u64,
    /// `SCTLR_EL1` after restoring.
    pub sctlr_after: u64,
    /// Apple's `APCTL_EL1`, or [`UNREADABLE`].
    pub apctl: u64,
    /// The pointer signed.
    pub plain: u64,
    /// What signing returned before the keys were enabled.
    pub signed_as_found: u64,
    /// What signing returned with them enabled.
    pub signed: u64,
    /// What authenticating the signed pointer returned.
    pub recovered: u64,
    /// The signed pointer with a signature bit flipped.
    pub tampered: u64,
    /// What authenticating the tampered pointer returned.
    pub authenticated_tampered: u64,
    /// The last exception vector, to tell a trap from a result.
    pub vector: u64,
    /// Whether our key was installed.
    pub keys_installed: bool,
    /// Whether the part has `RNDR`.
    pub random_present: bool,
    /// The boot seed's report, when the seed was looked at.
    pub seed: Option<SeedReport>,
}

impl PacReport {
    /// Signing changed the pointer, authenticating gave it back, and a
    /// tampered signature did not authenticate to it.
    pub fn authentication_works(&self) -> (works: bool)
        ensures
            works == (self.signed != self.plain && self.recovered == self.plain
                && self.authenticated_tampered != self.plain),
    {
        self.signed != self.plain && self.recovered == self.plain && self.authenticated_tampered
            != self.plain
    }
}

} // verus!
