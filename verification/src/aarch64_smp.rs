//! Starting a secondary core and giving it work.
//!
//! The mailbox and register traffic is the caller's; what is here is what
//! gets written where, when the reset vector counts as accepted, what the
//! report says, and the work item whose answer is known in closed form.

use vstd::prelude::*;
use crate::aarch64_cpus::{Cpu, RVBAR_ADDRESS, RVBAR_LOCK, bit32, start_core_bit, start_enable_bit};
use crate::aarch64_el::exception_level_of;

verus! {

/// What a secondary writes first, once it is running our code.
pub const SECONDARY_MAGIC: u64 = 0x5EC0_11DA_00B0_0757;

/// What the report slots hold before a secondary writes them.
pub const REPORT_POISON: u64 = 0x5EC0_DEAD_5EC0_DEAD;

/// The doorbell affinity value for `target_mpidr`: `Aff0` stays in bits
/// [7:0] and `Aff1` moves up to bits [23:16].
pub fn doorbell_affinity(target_mpidr: u64) -> (affinity: u64)
    ensures
        affinity == (target_mpidr & 0xFF) | ((target_mpidr & 0xFF00) << 8u64),
{
    (target_mpidr & 0xFF) | ((target_mpidr & 0xFF00) << 8)
}

/// Whether the core took `entry` as its reset vector: the address field
/// reads back as written, and the lock bit is clear.
pub fn rvbar_accepted(rvbar_after: u64, entry: u64) -> (accepted: bool)
    ensures
        accepted == (rvbar_after & RVBAR_ADDRESS == entry & RVBAR_ADDRESS && rvbar_after
            & RVBAR_LOCK == 0),
{
    rvbar_after & RVBAR_ADDRESS == entry & RVBAR_ADDRESS && rvbar_after & RVBAR_LOCK == 0
}

/// The two writes that start a core: where and what.
#[derive(Debug, Clone, Copy, PartialEq, Eq)]
pub struct StartWrites {
    /// The cluster-enable word.
    pub enable_address: u64,
    /// What to write there: the core's enable bit.
    pub enable_value: u32,
    /// The cluster's start word.
    pub cluster_address: u64,
    /// What to write there: the core's start bit.
    pub core_value: u32,
}

/// `a + b`, saturating at `u64::MAX`.
pub open spec fn sat_add(a: int, b: int) -> u64 {
    if a + b > u64::MAX {
        u64::MAX
    } else {
        (a + b) as u64
    }
}

/// The start writes for `cpu` against the start block at `start_base`: the
/// enable word at `+4`, then the cluster's word at `+8 + 4 * cluster`.
pub open spec fn start_writes_for(cpu: Cpu, start_base: u64) -> StartWrites {
    StartWrites {
        enable_address: sat_add(start_base as int, 4),
        enable_value: bit32(
            if cpu.cluster * 4 + cpu.core > u32::MAX {
                u32::MAX as int
            } else {
                cpu.cluster * 4 + cpu.core
            },
        ),
        cluster_address: sat_add(sat_add(start_base as int, 8) as int, cpu.cluster * 4),
        core_value: bit32(cpu.core as int),
    }
}

/// Law: starting a core writes its enable bit, bit `4 * cluster + core`,
/// to the word four bytes into the start block, and its core bit, bit
/// `core`, to its cluster's word, eight bytes in plus four per cluster;
/// each value names that one bit and no other.
pub proof fn lemma_start_writes_name_the_core(cpu: Cpu, start_base: u64)
    requires
        start_base + 8 + 4 * cpu.cluster <= u64::MAX,
        4 * cpu.cluster + cpu.core < 32,
    ensures
        start_writes_for(cpu, start_base).enable_address == start_base + 4,
        start_writes_for(cpu, start_base).cluster_address == start_base + 8 + 4 * cpu.cluster,
        forall|bit: u32|
            bit < 32 ==> (((#[trigger] (start_writes_for(cpu, start_base).enable_value >> bit)) & 1u32)
                == 1u32) == (bit == 4 * cpu.cluster + cpu.core),
        forall|bit: u32|
            bit < 32 ==> (((#[trigger] (start_writes_for(cpu, start_base).core_value >> bit)) & 1u32)
                == 1u32) == (bit == cpu.core),
{
    crate::aarch64_cpus::lemma_start_bit_names_one_bit(4 * cpu.cluster + cpu.core);
    crate::aarch64_cpus::lemma_start_bit_names_one_bit(cpu.core as int);
}

/// The start writes for `cpu` against the start block at `start_base`.
pub fn start_writes(cpu: &Cpu, start_base: u64) -> (writes: StartWrites)
    ensures
        writes == start_writes_for(*cpu, start_base),
{
    let cluster_offset: u64 = cpu.cluster as u64 * 4;
    StartWrites {
        enable_address: start_base.saturating_add(4),
        enable_value: start_enable_bit(cpu),
        cluster_address: start_base.saturating_add(8).saturating_add(cluster_offset),
        core_value: start_core_bit(cpu),
    }
}

/// What releasing a secondary found.
#[derive(Debug, Clone, Copy, PartialEq, Eq)]
pub struct SecondaryReport {
    /// The core's `cpu-id`.
    pub cpu_id: u32,
    /// Its implementation-register base.
    pub impl_reg: u64,
    /// `RVBAR` before our write.
    pub rvbar_before: u64,
    /// `RVBAR` read back after it.
    pub rvbar_after: u64,
    /// Whether the core took our entry point.
    pub rvbar_accepted: bool,
    /// The entry point written.
    pub entry: u64,
    /// The start block used.
    pub start_base: u64,
    /// Whether the core reported in.
    pub started: bool,
    /// Ticks waited for it.
    pub waited_ticks: u64,
    /// `MPIDR_EL1` it reported.
    pub mpidr: u64,
    /// The exception level it reported.
    pub exception_level: u64,
    /// `SCTLR_EL1` it reported.
    pub sctlr: u64,
}

impl SecondaryReport {
    /// The report before the core is started: what was written and read back.
    pub fn before_start(cpu: &Cpu, rvbar_before: u64, rvbar_after: u64, entry: u64, start_base: u64) -> (report: Self)
        ensures
            report.cpu_id == cpu.cpu_id,
            report.impl_reg == cpu.impl_reg,
            report.rvbar_before == rvbar_before,
            report.rvbar_after == rvbar_after,
            report.rvbar_accepted == (rvbar_after & RVBAR_ADDRESS == entry & RVBAR_ADDRESS
                && rvbar_after & RVBAR_LOCK == 0),
            report.entry == entry,
            report.start_base == start_base,
            !report.started,
            report.waited_ticks == 0,
            report.mpidr == 0,
            report.exception_level == 0,
            report.sctlr == 0,
    {
        SecondaryReport {
            cpu_id: cpu.cpu_id,
            impl_reg: cpu.impl_reg,
            rvbar_before,
            rvbar_after,
            rvbar_accepted: rvbar_accepted(rvbar_after, entry),
            entry,
            start_base,
            started: false,
            waited_ticks: 0,
            mpidr: 0,
            exception_level: 0,
            sctlr: 0,
        }
    }

    /// The writes that start `cpu` against this report's start block, when
    /// its reset vector was accepted; none otherwise, since a core that would
    /// begin executing somewhere not chosen cannot be stopped once started.
    pub fn start_plan(&self, cpu: &Cpu) -> (plan: Option<StartWrites>)
        ensures
            plan == (if self.rvbar_accepted {
                Some(start_writes_for(*cpu, self.start_base))
            } else {
                None
            }),
    {
        if !self.rvbar_accepted {
            return None;
        }
        Some(start_writes(cpu, self.start_base))
    }

    /// One round of the bounded wait for the core to report in, with the
    /// first report slot read as `first_slot` and the counter at `now`,
    /// having started at `start`. A core that reported in is marked started;
    /// otherwise the ticks waited are recorded. The result says whether to
    /// poll again: only while the core has not reported in and the wait has
    /// not run past `timeout_ticks`.
    pub fn record_poll(&mut self, first_slot: u64, start: u64, now: u64, timeout_ticks: u64) -> (again: bool)
        ensures
            first_slot == SECONDARY_MAGIC ==> {
                &&& *final(self) == (SecondaryReport { started: true, ..*old(self) })
                &&& !again
            },
            first_slot != SECONDARY_MAGIC ==> {
                &&& *final(self) == (SecondaryReport { waited_ticks: now.wrapping_sub(start), ..*old(self) })
                &&& again == (now.wrapping_sub(start) <= timeout_ticks)
            },
    {
        if reported_in(first_slot) {
            self.started = true;
            return false;
        }
        self.waited_ticks = now.wrapping_sub(start);
        !wait_expired(start, now, timeout_ticks)
    }

    /// Take in what the secondary wrote to its report slots:
    /// `[magic, MPIDR, CurrentEL, SCTLR, ..]`.
    pub fn record_slots(&mut self, values: [u64; 6])
        ensures
            final(self).mpidr == values[1],
            final(self).exception_level == (values[2] >> 2u64) & 0b11,
            final(self).sctlr == values[3],
            final(self).cpu_id == old(self).cpu_id,
            final(self).impl_reg == old(self).impl_reg,
            final(self).rvbar_before == old(self).rvbar_before,
            final(self).rvbar_after == old(self).rvbar_after,
            final(self).rvbar_accepted == old(self).rvbar_accepted,
            final(self).entry == old(self).entry,
            final(self).start_base == old(self).start_base,
            final(self).started == old(self).started,
            final(self).waited_ticks == old(self).waited_ticks,
    {
        self.mpidr = values[1];
        self.exception_level = exception_level_of(values[2]);
        self.sctlr = values[3];
    }
}

/// Whether the first report slot says the secondary is running our code.
pub fn reported_in(first_slot: u64) -> (running: bool)
    ensures
        running == (first_slot == SECONDARY_MAGIC),
{
    first_slot == SECONDARY_MAGIC
}

/// The sequence number of the next work request.
pub fn next_request(sequence: u64) -> (request: u64)
    ensures
        request == sequence.wrapping_add(1),
{
    sequence.wrapping_add(1)
}

/// `0 + 1 + ... + (n - 1)`.
pub open spec fn triangle(n: nat) -> nat
    decreases n,
{
    if n == 0 {
        0
    } else {
        triangle((n - 1) as nat) + (n - 1) as nat
    }
}

/// Law: twice the triangle number is `n * (n - 1)`.
pub proof fn lemma_triangle_closed_form(n: nat)
    ensures
        2 * triangle(n) == n * (n - 1),
    decreases n,
{
    if n > 0 {
        let m = (n - 1) as nat;
        lemma_triangle_closed_form(m);
        assert(triangle(n) == triangle(m) + m);
        assert(2 * triangle(m) == m * (m - 1));
        assert(n * (n - 1) == m * (m - 1) + 2 * m) by (nonlinear_arith)
            requires
                m == n - 1,
        ;
    } else {
        assert(n * (n - 1) == 0) by (nonlinear_arith)
            requires
                n == 0,
        ;
    }
}

/// The sum of `start, start + 1, ..., start + count - 1`, modulo `2^64`.
pub open spec fn wrapped_sum(start: u64, count: nat) -> int {
    (count * start + triangle(count)) % 0x1_0000_0000_0000_0000
}

/// Law: the sum of no terms is zero, and one more term adds the next value
/// of the run, `start + count`, wrapping at `2^64`; in closed form it is
/// `count * start + count * (count - 1) / 2` modulo `2^64`.
pub proof fn lemma_wrapped_sum_adds_the_next_term(start: u64, count: nat)
    ensures
        wrapped_sum(start, 0) == 0,
        wrapped_sum(start, count + 1) == (wrapped_sum(start, count) + start + count)
            % 0x1_0000_0000_0000_0000,
        wrapped_sum(start, count) == (count * start + count * (count - 1) / 2)
            % 0x1_0000_0000_0000_0000,
{
    let m: int = 0x1_0000_0000_0000_0000;
    let t = count * start + triangle(count);
    assert(triangle(count + 1) == triangle(count) + count);
    assert(t + start + count == (count + 1) * start + triangle(count + 1)) by (nonlinear_arith)
        requires
            t == count * start + triangle(count),
            triangle(count + 1) == triangle(count) + count,
    ;
    vstd::arithmetic::div_mod::lemma_add_mod_noop(t, start + count, m);
    vstd::arithmetic::div_mod::lemma_add_mod_noop(t % m, start + count, m);
    vstd::arithmetic::div_mod::lemma_mod_twice(t, m);
    lemma_triangle_closed_form(count);
    assert(triangle(count) == count * (count - 1) / 2);
}

/// The work item that proves dispatch: sums `start..start + count`, wrapping
/// at `2^64`. Its answer is known in closed form, so a wrong result is told
/// apart from no result.
pub fn brainix_secondary_sum(start: u64, count: u64) -> (total: u64)
    ensures
        total == wrapped_sum(start, count as nat),
{
    let mut total: u64 = 0;
    let mut index: u64 = 0;
    while index < count
        invariant
            index <= count,
            total == wrapped_sum(start, index as nat),
        decreases count - index,
    {
        let term = start.wrapping_add(index);
        proof {
            let m: int = 0x1_0000_0000_0000_0000;
            let t = index * start + triangle(index as nat);
            assert(term == (start + index) % m);
            assert(total.wrapping_add(term) == (total + term) % m);
            vstd::arithmetic::div_mod::lemma_add_mod_noop(t, start + index, m);
            assert(t + start + index == (index + 1) * start + triangle((index + 1) as nat)) by (nonlinear_arith)
                requires
                    t == index * start + triangle(index as nat),
                    triangle((index + 1) as nat) == triangle(index as nat) + index,
            ;
        }
        total = total.wrapping_add(term);
        index = index + 1;
    }
    total
}

/// Whether a wait that began at counter value `start` has run past
/// `timeout_ticks` at counter value `now`; the counter may wrap in between.
pub fn wait_expired(start: u64, now: u64, timeout_ticks: u64) -> (expired: bool)
    ensures
        expired == (now.wrapping_sub(start) > timeout_ticks),
{
    now.wrapping_sub(start) > timeout_ticks
}

/// What one round of waiting for dispatched work found.
#[derive(Debug, Clone, Copy, PartialEq, Eq)]
pub enum DispatchPoll {
    /// The completion slot names the request: the work's result, and the
    /// ticks waited for it.
    Done { result: u64, ticks: u64 },
    /// The wait ran past its timeout without the request completing.
    TimedOut,
    /// Neither yet: read the slots again.
    Wait,
}

/// One round of waiting for the work published as `request`: `completion`
/// and `result` are the completion and result slots as read, and the
/// counter stands at `now` after starting at `start`. Only a completion
/// equal to the request counts; an older one is a previous request's.
pub fn dispatch_poll(request: u64, completion: u64, result: u64, start: u64, now: u64, timeout_ticks: u64) -> (poll:
    DispatchPoll)
    ensures
        completion == request ==> poll == (DispatchPoll::Done { result, ticks: now.wrapping_sub(start) }),
        completion != request && now.wrapping_sub(start) > timeout_ticks ==> poll == DispatchPoll::TimedOut,
        completion != request && now.wrapping_sub(start) <= timeout_ticks ==> poll == DispatchPoll::Wait,
{
    if completion == request {
        return DispatchPoll::Done { result, ticks: now.wrapping_sub(start) };
    }
    if wait_expired(start, now, timeout_ticks) {
        DispatchPoll::TimedOut
    } else {
        DispatchPoll::Wait
    }
}

/// What to do next while ringing a doorbell a number of times.
#[derive(Debug, Clone, Copy, PartialEq, Eq)]
pub enum DoorbellAction {
    /// Ring the doorbell once.
    Ring,
    /// Read the count slot and the counter again.
    Poll,
    /// Stop: the doorbells the secondary observed, and the ticks waited.
    Finish { observed: u64, ticks: u64 },
}

/// Ringing a secondary's doorbell `count` times, each ring waiting until
/// the secondary's count slot has moved before the next is sent: the
/// doorbell is level-triggered, so two rings before an acknowledgement
/// would be one wake, and would be reported as two.
pub struct DoorbellRun {
    count: u64,
    rung: u64,
    baseline: u64,
    start: u64,
    before: u64,
    waiting: bool,
    timeout_ticks: u64,
}

impl DoorbellRun {
    /// Rings asked for.
    pub closed spec fn count_spec(self) -> u64 {
        self.count
    }

    /// Rings sent so far.
    pub closed spec fn rung_spec(self) -> u64 {
        self.rung
    }

    /// The count slot when the run began.
    pub closed spec fn baseline_spec(self) -> u64 {
        self.baseline
    }

    /// The counter when the run began.
    pub closed spec fn start_spec(self) -> u64 {
        self.start
    }

    /// The count slot just before the last ring.
    pub closed spec fn before_spec(self) -> u64 {
        self.before
    }

    /// Whether the last ring is still unobserved.
    pub closed spec fn waiting_spec(self) -> bool {
        self.waiting
    }

    /// The timeout of the whole run, in ticks.
    pub closed spec fn timeout_spec(self) -> u64 {
        self.timeout_ticks
    }

    /// Never more rings than asked for, and one unobserved only after one
    /// was sent.
    pub open spec fn wf(self) -> bool {
        &&& self.rung_spec() <= self.count_spec()
        &&& self.waiting_spec() ==> self.rung_spec() > 0
    }

    /// A run of `count` rings, starting with the count slot at `baseline`
    /// and the counter at `start`.
    pub fn new(count: u64, baseline: u64, start: u64, timeout_ticks: u64) -> (run: Self)
        ensures
            run.wf(),
            run.count_spec() == count,
            run.rung_spec() == 0,
            run.baseline_spec() == baseline,
            run.start_spec() == start,
            !run.waiting_spec(),
            run.timeout_spec() == timeout_ticks,
    {
        DoorbellRun { count, rung: 0, baseline, start, before: baseline, waiting: false, timeout_ticks }
    }

    /// The next step, with the count slot read as `current` and the counter
    /// at `now`.
    ///
    /// While a ring is unobserved, a moved count slot observes it, and a
    /// wait past the timeout finishes the run. With no ring unobserved, the
    /// next ring is sent, or the run finishes once all were. A run finishes
    /// with the count slot's advance over the baseline and the ticks since
    /// the start.
    pub fn next(&mut self, current: u64, now: u64) -> (action: DoorbellAction)
        requires
            old(self).wf(),
        ensures
            final(self).wf(),
            final(self).count_spec() == old(self).count_spec(),
            final(self).baseline_spec() == old(self).baseline_spec(),
            final(self).start_spec() == old(self).start_spec(),
            final(self).timeout_spec() == old(self).timeout_spec(),
            ({
                let observed = !old(self).waiting_spec() || current != old(self).before_spec();
                let finish = DoorbellAction::Finish {
                    observed: current.wrapping_sub(old(self).baseline_spec()),
                    ticks: now.wrapping_sub(old(self).start_spec()),
                };
                &&& observed && old(self).rung_spec() == old(self).count_spec() ==> action == finish
                    && final(self).rung_spec() == old(self).rung_spec() && !final(self).waiting_spec()
                &&& observed && old(self).rung_spec() < old(self).count_spec() ==> action
                    == DoorbellAction::Ring && final(self).rung_spec() == old(self).rung_spec() + 1
                    && final(self).waiting_spec() && final(self).before_spec() == current
                &&& !observed && now.wrapping_sub(old(self).start_spec()) > old(self).timeout_spec()
                    ==> action == finish && *final(self) == *old(self)
                &&& !observed && now.wrapping_sub(old(self).start_spec()) <= old(self).timeout_spec()
                    ==> action == DoorbellAction::Poll && *final(self) == *old(self)
            }),
    {
        if self.waiting && current == self.before {
            if wait_expired(self.start, now, self.timeout_ticks) {
                return DoorbellAction::Finish {
                    observed: current.wrapping_sub(self.baseline),
                    ticks: now.wrapping_sub(self.start),
                };
            }
            return DoorbellAction::Poll;
        }
        self.waiting = false;
        if self.rung == self.count {
            return DoorbellAction::Finish {
                observed: current.wrapping_sub(self.baseline),
                ticks: now.wrapping_sub(self.start),
            };
        }
        self.before = current;
        self.rung = self.rung + 1;
        self.waiting = true;
        DoorbellAction::Ring
    }
}

} // verus!
