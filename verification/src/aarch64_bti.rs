//! Branch target identification: what has to be true for enforcement to be
//! shown working.

use vstd::prelude::*;
use crate::aarch64_features::{ControlFlowSupport, id_field};
use crate::aarch64_mmu::{GP, build_error_code, error_code, lifted, lifted_attributes};
use crate::aarch64_tables::BuildError;
use crate::aarch64_walk::{Translation, WalkConfig, WalkError, tcr_config};
use crate::vectors::LastException;

verus! {

/// `SCTLR_EL1.BT`, bit 36.
pub const SCTLR_BT: u64 = 0x10_0000_0000;

/// `ESR_ELx.EC` of a branch-target exception.
pub const EC_BRANCH_TARGET: u64 = 0x0D;

/// Granule of the guarded page: 16 KiB.
pub const GUARDED_GRANULE_BITS: u32 = 14;

/// The 16 KiB page holding `address`.
pub fn guarded_page_of(address: u64) -> (page: u64)
    ensures
        page == address & !0x3FFFu64,
{
    proof {
        crate::bits::lemma_constants();
    }
    address & !((1u64 << GUARDED_GRANULE_BITS) - 1)
}

/// The exception class of a syndrome, bits [31:26].
pub open spec fn exception_class(esr: u64) -> u64 {
    (esr >> 26u64) & 0x3F
}

/// What enabling BTI on a guarded page observed.
#[derive(Debug, Clone, Copy, PartialEq, Eq)]
pub struct BtiReport {
    /// Whether the part implements BTI.
    pub supported: bool,
    /// The root of the tables with the guarded page.
    pub guarded_root: u64,
    /// Tables those cost.
    pub tables_used: usize,
    /// The page marked guarded.
    pub guarded_page: u64,
    /// Its descriptor, read back through the walker.
    pub descriptor: u64,
    /// `SCTLR_EL1` before.
    pub sctlr_before: u64,
    /// `SCTLR_EL1` with `BT` set.
    pub sctlr_while_enabled: u64,
    /// `SCTLR_EL1` after restoring.
    pub sctlr_after: u64,
    /// The syndrome of the branch to a non-landing-pad.
    pub bad_branch_esr: u64,
    /// Whether that branch faulted.
    pub bad_branch_faulted: bool,
    /// Whether the branch to a landing pad faulted.
    pub good_branch_faulted: bool,
    /// `TTBR0_EL2` after restoring.
    pub restored_root: u64,
    /// Build failure code, or 0.
    pub error: u64,
}

/// The report before anything is built: whether BTI is supported, the page
/// to guard, and `SCTLR` and the root as found.
pub open spec fn initial_bti_report(
    supported: bool,
    guarded_page: u64,
    sctlr_before: u64,
    root_before: u64,
) -> BtiReport {
    BtiReport {
        supported,
        guarded_root: 0,
        tables_used: 0,
        guarded_page,
        descriptor: 0,
        sctlr_before,
        sctlr_while_enabled: 0,
        sctlr_after: sctlr_before,
        bad_branch_esr: 0,
        bad_branch_faulted: false,
        good_branch_faulted: false,
        restored_root: root_before,
        error: 0,
    }
}

impl BtiReport {
    /// Start the enforcement test: decide support from `ID_AA64PFR1` (`pfr1`),
    /// the page to guard from the landing pad's address `landing`, the
    /// configuration from `tcr`, and the kernel attributes from `live`, the
    /// walk of the live tables at the guarded page under that configuration.
    ///
    /// The attributes to build the guarded regime with come back only when
    /// BTI is supported, `tcr` decodes (error 5 otherwise) and the live walk
    /// succeeded (error 3 otherwise).
    pub fn prepare(
        pfr1: u64,
        sctlr_before: u64,
        root_before: u64,
        landing: u64,
        tcr: u64,
        live: Result<Translation, WalkError>,
    ) -> (prepared: (BtiReport, Option<u64>))
        ensures
            ({
                let start = initial_bti_report(
                    id_field(pfr1, 0) != 0,
                    landing & !0x3FFFu64,
                    sctlr_before,
                    root_before,
                );
                &&& id_field(pfr1, 0) == 0 ==> prepared == (start, None::<u64>)
                &&& id_field(pfr1, 0) != 0 && tcr_config(tcr) is None ==> prepared == (
                    BtiReport { error: 5, ..start },
                    None::<u64>,
                )
                &&& id_field(pfr1, 0) != 0 && tcr_config(tcr) is Some && live is Err ==> prepared == (
                    BtiReport { error: 3, ..start },
                    None::<u64>,
                )
                &&& id_field(pfr1, 0) != 0 && tcr_config(tcr) is Some && live is Ok ==> prepared == (
                    start,
                    Some(lifted(live->Ok_0.descriptor, tcr_config(tcr)->Some_0.granule_bits)),
                )
            }),
    {
        let report = BtiReport {
            supported: ControlFlowSupport::from_id_registers(0, pfr1).branch_target_identification,
            guarded_root: 0,
            tables_used: 0,
            guarded_page: guarded_page_of(landing),
            descriptor: 0,
            sctlr_before,
            sctlr_while_enabled: 0,
            sctlr_after: sctlr_before,
            bad_branch_esr: 0,
            bad_branch_faulted: false,
            good_branch_faulted: false,
            restored_root: root_before,
            error: 0,
        };
        if !report.supported {
            return (report, None);
        }
        let config = match WalkConfig::from_tcr(tcr) {
            Some(config) => config,
            None => return (BtiReport { error: 5, ..report }, None),
        };
        match live {
            Ok(live) => {
                let attributes = lifted_attributes(live.descriptor, config.granule_bits);
                (report, Some(attributes))
            },
            Err(_) => (BtiReport { error: 3, ..report }, None),
        }
    }

    /// Take in the guarded regime's build: its root and the tables it cost,
    /// or the refusal's code. The result says whether to go on.
    pub fn record_build(&mut self, built: Result<(u64, usize), BuildError>) -> (go_on: bool)
        ensures
            built matches Ok((root, tables)) ==> *final(self) == (BtiReport {
                guarded_root: root,
                tables_used: tables,
                ..*old(self)
            }) && go_on,
            built matches Err(error) ==> *final(self) == (BtiReport {
                error: error_code(error),
                ..*old(self)
            }) && !go_on,
    {
        match built {
            Ok((root, tables)) => {
                self.guarded_root = root;
                self.tables_used = tables;
                true
            },
            Err(error) => {
                self.error = build_error_code(error);
                false
            },
        }
    }

    /// Whether the guarded regime may be installed and branched into: BTI is
    /// supported, nothing failed, and the descriptor read back for the
    /// guarded page carries `GP`. Without `GP` nothing would fault, and
    /// that would read as BTI not being enforced.
    pub open spec fn guard_confirmed(self) -> bool {
        self.supported && self.error == 0 && self.descriptor & GP != 0
    }

    /// Take in the walk of the built tables at the guarded page: its
    /// descriptor is kept when the walk succeeded. The result says whether
    /// the regime may be installed.
    pub fn record_guard(&mut self, built: Result<Translation, WalkError>) -> (install: bool)
        ensures
            *final(self) == (BtiReport {
                descriptor: match built {
                    Ok(translation) => translation.descriptor,
                    Err(_) => old(self).descriptor,
                },
                ..*old(self)
            }),
            install == final(self).guard_confirmed(),
    {
        if let Ok(translation) = built {
            self.descriptor = translation.descriptor;
        }
        self.supported && self.error == 0 && self.descriptor & GP != 0
    }

    /// Take in the two branches, made only with the guard confirmed: `SCTLR`
    /// as read back with `BT` set, the exception count `before` them, the
    /// last exception after the branch that must fault, and the count after
    /// the branch that must not.
    pub fn record_branches(
        &mut self,
        sctlr_while_enabled: u64,
        before: u64,
        after_bad: LastException,
        after_good_count: u64,
    )
        requires
            old(self).guard_confirmed(),
        ensures
            *final(self) == (BtiReport {
                sctlr_while_enabled,
                bad_branch_faulted: after_bad.count != before,
                bad_branch_esr: after_bad.esr,
                good_branch_faulted: after_good_count != after_bad.count,
                ..*old(self)
            }),
    {
        self.sctlr_while_enabled = sctlr_while_enabled;
        self.bad_branch_faulted = after_bad.count != before;
        self.bad_branch_esr = after_bad.esr;
        self.good_branch_faulted = after_good_count != after_bad.count;
    }

    /// Take in `SCTLR` and the root as read after restoring both.
    pub fn record_restore(&mut self, sctlr_after: u64, restored_root: u64)
        ensures
            *final(self) == (BtiReport { sctlr_after, restored_root, ..*old(self) }),
    {
        self.sctlr_after = sctlr_after;
        self.restored_root = restored_root;
    }

    /// Enforcement is shown: supported, enabled, the page guarded, the bad
    /// branch faulted as a branch-target exception and the good one did not.
    pub fn enforcement_works(&self) -> (works: bool)
        ensures
            works == (self.supported && self.sctlr_while_enabled & SCTLR_BT != 0
                && self.descriptor & GP != 0 && self.bad_branch_faulted && exception_class(
                self.bad_branch_esr,
            ) == EC_BRANCH_TARGET && !self.good_branch_faulted),
    {
        self.supported && self.sctlr_while_enabled & SCTLR_BT != 0 && self.descriptor & GP != 0
            && self.bad_branch_faulted && (self.bad_branch_esr >> 26) & 0x3F == EC_BRANCH_TARGET
            && !self.good_branch_faulted
    }
}

} // verus!
