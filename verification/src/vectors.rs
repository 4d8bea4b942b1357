//! What the exception handler records, and where it resumes.
//!
//! The assembly vector tail hands every exception to
//! [`ExceptionRecorder::handle_exception`], which records it and decides the
//! address and state to `eret` to, and whether the level-triggered timer has
//! to be silenced first.

use vstd::prelude::*;

verus! {

/// `ESR_ELx.EC` for an `SVC` executed in AArch64 state.
pub const EC_SVC_AARCH64: u64 = 0x15;

/// `SVC` immediate meaning "record this and put me back where I was".
pub const SVC_RESUME: u64 = 0x55;

/// `SVC` immediate meaning "record this and leave for EL2".
pub const SVC_LEAVE: u64 = 0x56;

/// Sentinel meaning no exception has been taken. Not zero, because zero is a
/// legitimate vector index.
pub const NO_EXCEPTION: u64 = 0xFFFF_FFFF_FFFF_FFFF;

/// Vector index of a synchronous exception from a lower EL in AArch64: the
/// way home from an excursion.
pub const LOWER_EL_SYNCHRONOUS: u64 = 8;

/// What was recorded about the last exception.
#[derive(Debug, Clone, Copy, PartialEq, Eq)]
pub struct LastException {
    /// Which of the sixteen vectors, or [`NO_EXCEPTION`].
    pub index: u64,
    /// `ESR_EL2`, the syndrome.
    pub esr: u64,
    /// `ELR_EL2`, the faulting instruction's address.
    pub elr: u64,
    /// `FAR_EL2`, the faulting virtual address where applicable.
    pub far: u64,
    /// Total exceptions taken.
    pub count: u64,
    /// `GXF_STATUS_EL1` at the time of the exception.
    pub gxf_status: u64,
    /// `SPSR_EL2` at the time of the exception.
    pub spsr: u64,
    /// Whether the syndrome came from Apple's GL registers.
    pub guarded: bool,
}

/// What the assembly tail installs before `eret`.
#[derive(Debug, Clone, Copy, PartialEq, Eq)]
pub struct ExceptionReturn {
    /// Address to resume at.
    pub elr: u64,
    /// Processor state to resume with.
    pub spsr: u64,
}

/// The registers the vector tail saved for one exception.
#[derive(Debug, Clone, Copy, PartialEq, Eq)]
pub struct ExceptionEntry {
    /// Vector index, 0..16.
    pub index: u64,
    /// `ESR_EL2`.
    pub esr_el2: u64,
    /// `ELR_EL2`.
    pub elr_el2: u64,
    /// `FAR_EL2`.
    pub far_el2: u64,
    /// `ESR_GL1`.
    pub esr_gl1: u64,
    /// `ELR_GL1`.
    pub elr_gl1: u64,
    /// `GXF_STATUS_EL1`.
    pub gxf_status: u64,
    /// `SPSR_EL2`.
    pub spsr_el2: u64,
}

/// What handling one exception decided.
#[derive(Debug, Clone, Copy, PartialEq, Eq)]
pub struct ExceptionOutcome {
    /// Where and how to resume.
    pub resume: ExceptionReturn,
    /// Whether `CNTP_CTL_EL0` has to be cleared before resuming, because a
    /// level-triggered timer interrupt would otherwise re-enter at once.
    pub disable_timer: bool,
}

/// Whether the syndrome was recorded in the GL registers rather than EL2's:
/// a non-zero class in one pair and zero in the other says where.
pub open spec fn is_guarded(entry: ExceptionEntry) -> bool {
    entry.esr_el2 == 0 && entry.esr_gl1 != 0
}

/// What the handler records about `entry`, as the `count`-th exception.
pub open spec fn recorded(entry: ExceptionEntry, count: u64) -> LastException {
    let guarded = is_guarded(entry);
    LastException {
        index: entry.index,
        esr: if guarded { entry.esr_gl1 } else { entry.esr_el2 },
        elr: if guarded { entry.elr_gl1 } else { entry.elr_el2 },
        far: entry.far_el2,
        count,
        gxf_status: entry.gxf_status,
        spsr: entry.spsr_el2,
        guarded,
    }
}

/// The record after the handler has run once for each of `entries`, in
/// order, starting from `start`.
pub open spec fn last_after(start: LastException, entries: Seq<ExceptionEntry>) -> LastException
    decreases entries.len(),
{
    if entries.len() == 0 {
        start
    } else {
        recorded(entries.last(), last_after(start, entries.drop_last()).count.wrapping_add(1))
    }
}

/// Handling one more exception extends the record exactly as
/// [`ExceptionRecorder::handle_exception`] does: the new entry, counted one
/// further.
pub proof fn lemma_last_after_step(start: LastException, entries: Seq<ExceptionEntry>, entry: ExceptionEntry)
    ensures
        last_after(start, entries.push(entry)) == recorded(
            entry,
            last_after(start, entries).count.wrapping_add(1),
        ),
{
    assert(entries.push(entry).drop_last() =~= entries);
}

/// From a fresh recorder, after the handler has run `k` times, the last
/// exception is the last one handled, counted as `k` modulo 2^64; with
/// none handled, the index is still [`NO_EXCEPTION`] and the count zero.
pub proof fn lemma_last_after_fresh(start: LastException, entries: Seq<ExceptionEntry>)
    requires
        start.index == NO_EXCEPTION,
        start.count == 0,
    ensures
        last_after(start, entries).count == entries.len() % 0x1_0000_0000_0000_0000,
        entries.len() == 0 ==> last_after(start, entries).index == NO_EXCEPTION,
        entries.len() > 0 ==> last_after(start, entries) == recorded(
            entries.last(),
            last_after(start, entries).count,
        ),
    decreases entries.len(),
{
    if entries.len() > 0 {
        let rest = entries.drop_last();
        lemma_last_after_fresh(start, rest);
        let n = rest.len() as int;
        let m = 0x1_0000_0000_0000_0000int;
        let c = last_after(start, rest).count;
        assert(c == n % m);
        if n % m + 1 == m {
            assert((n + 1) % m == 0) by (nonlinear_arith)
                requires
                    n % m + 1 == m,
                    m > 0,
                    n >= 0,
            ;
        } else {
            assert((n + 1) % m == n % m + 1) by (nonlinear_arith)
                requires
                    n % m + 1 < m,
                    m > 0,
                    n >= 0,
            ;
        }
    }
}

/// Where an exception that is not redirected resumes: past the instruction
/// for a synchronous one (the first of each group of four vectors), where it
/// was interrupted otherwise.
pub open spec fn ordinary_return(entry: ExceptionEntry) -> ExceptionReturn {
    let elr = if is_guarded(entry) { entry.elr_gl1 } else { entry.elr_el2 };
    ExceptionReturn {
        elr: if entry.index % 4 == 0 { elr.wrapping_add(4) } else { elr },
        spsr: entry.spsr_el2,
    }
}

/// The handler's state: the last exception recorded and any pending
/// redirection of a lower-EL trap.
pub struct ExceptionRecorder {
    last: LastException,
    redirect_pc: u64,
    redirect_spsr: u64,
}

impl ExceptionRecorder {
    /// The last exception recorded.
    pub closed spec fn last_spec(self) -> LastException {
        self.last
    }

    /// Where a lower-EL trap will resume, or zero if it returns where it came
    /// from.
    pub closed spec fn redirect_pc_spec(self) -> u64 {
        self.redirect_pc
    }

    /// `SPSR` to install alongside the redirection.
    pub closed spec fn redirect_spsr_spec(self) -> u64 {
        self.redirect_spsr
    }

    /// Nothing taken, nothing pending.
    pub fn new() -> (recorder: Self)
        ensures
            recorder.last_spec().index == NO_EXCEPTION,
            recorder.last_spec().count == 0,
            recorder.redirect_pc_spec() == 0,
            recorder.redirect_spsr_spec() == 0,
    {
        ExceptionRecorder {
            last: LastException {
                index: NO_EXCEPTION,
                esr: 0,
                elr: 0,
                far: 0,
                count: 0,
                gxf_status: 0,
                spsr: 0,
                guarded: false,
            },
            redirect_pc: 0,
            redirect_spsr: 0,
        }
    }

    /// Arrange for the next lower-EL synchronous trap to resume at `pc` with
    /// `spsr`.
    pub fn redirect_lower_el_trap(&mut self, pc: u64, spsr: u64)
        ensures
            final(self).redirect_pc_spec() == pc,
            final(self).redirect_spsr_spec() == spsr,
            final(self).last_spec() == old(self).last_spec(),
    {
        self.redirect_spsr = spsr;
        self.redirect_pc = pc;
    }

    /// Clear any pending redirection.
    pub fn clear_redirect(&mut self)
        ensures
            final(self).redirect_pc_spec() == 0,
            final(self).redirect_spsr_spec() == 0,
            final(self).last_spec() == old(self).last_spec(),
    {
        self.redirect_pc = 0;
        self.redirect_spsr = 0;
    }

    /// What the handler recorded.
    pub fn last_exception(&self) -> (last: LastException)
        ensures
            last == self.last_spec(),
    {
        self.last
    }

    /// Record an exception and decide where it resumes.
    ///
    /// A lower-EL synchronous trap with a redirection pending resumes at the
    /// redirection, which is consumed; every other exception resumes where it
    /// came from, past the faulting instruction when it is synchronous.
    pub fn handle_exception(&mut self, entry: ExceptionEntry) -> (outcome: ExceptionOutcome)
        ensures
            final(self).last_spec() == recorded(entry, old(self).last_spec().count.wrapping_add(1)),
            outcome.disable_timer == (entry.index % 4 == 1 || entry.index % 4 == 2),
            entry.index == LOWER_EL_SYNCHRONOUS && old(self).redirect_pc_spec() != 0 ==> {
                &&& outcome.resume == (ExceptionReturn {
                    elr: old(self).redirect_pc_spec(),
                    spsr: old(self).redirect_spsr_spec(),
                })
                &&& final(self).redirect_pc_spec() == 0
                &&& final(self).redirect_spsr_spec() == 0
            },
            !(entry.index == LOWER_EL_SYNCHRONOUS && old(self).redirect_pc_spec() != 0) ==> {
                &&& outcome.resume == ordinary_return(entry)
                &&& final(self).redirect_pc_spec() == old(self).redirect_pc_spec()
                &&& final(self).redirect_spsr_spec() == old(self).redirect_spsr_spec()
            },
    {
        let guarded = entry.esr_el2 == 0 && entry.esr_gl1 != 0;
        let (esr, elr, far) = if guarded {
            (entry.esr_gl1, entry.elr_gl1, entry.far_el2)
        } else {
            (entry.esr_el2, entry.elr_el2, entry.far_el2)
        };
        let synchronous = entry.index % 4 == 0;
        let disable_timer = entry.index % 4 == 2 || entry.index % 4 == 1;
        self.last = LastException {
            index: entry.index,
            esr,
            elr,
            far,
            count: self.last.count.wrapping_add(1),
            gxf_status: entry.gxf_status,
            spsr: entry.spsr_el2,
            guarded,
        };
        let redirect = self.redirect_pc;
        if entry.index == LOWER_EL_SYNCHRONOUS && redirect != 0 {
            let spsr = self.redirect_spsr;
            self.clear_redirect();
            return ExceptionOutcome {
                resume: ExceptionReturn { elr: redirect, spsr },
                disable_timer,
            };
        }
        ExceptionOutcome {
            resume: ExceptionReturn {
                elr: if synchronous {
                    elr.wrapping_add(4)
                } else {
                    elr
                },
                spsr: entry.spsr_el2,
            },
            disable_timer,
        }
    }
}

/// Law: an exception that is not redirected resumes where the recorded
/// return address points, at the state it was taken from. Only a
/// synchronous exception (the first vector of each group of four) resumes
/// one instruction further on, past the instruction that trapped; an IRQ,
/// FIQ or SError resumes at the interrupted instruction itself, since
/// advancing would skip an instruction of the interrupted code. The return
/// address is the one in the GL registers when the syndrome is there, and
/// `ELR_EL2` otherwise.
pub proof fn lemma_only_synchronous_exceptions_advance(entry: ExceptionEntry)
    ensures
        ({
            let taken_at = if entry.esr_el2 == 0 && entry.esr_gl1 != 0 {
                entry.elr_gl1
            } else {
                entry.elr_el2
            };
            let resume = ordinary_return(entry);
            &&& resume.spsr == entry.spsr_el2
            &&& entry.index % 4 != 0 ==> resume.elr == taken_at
            &&& entry.index % 4 == 0 ==> resume.elr as int == (taken_at + 4) % 0x1_0000_0000_0000_0000
        }),
{
}

/// Law: whatever was pending, an interrupt or SError (any vector but the
/// first of its group of four) never moves the return address: it resumes
/// at the address recorded for it, or at a pending redirection when it is
/// the lower-EL synchronous trap, which an interrupt never is.
pub proof fn lemma_interrupts_resume_in_place(entry: ExceptionEntry)
    requires
        entry.index % 4 != 0,
    ensures
        entry.index != LOWER_EL_SYNCHRONOUS,
        ordinary_return(entry).elr == recorded(entry, 0).elr,
{
}

} // verus!
