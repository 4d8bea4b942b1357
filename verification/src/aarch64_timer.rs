//! The generic timer: converting counter ticks, and bounded waits on it.
//!
//! Reading the counter and programming `CNTP_*` are register accesses done by
//! the caller; what is decided here is the arithmetic and when a bounded wait
//! stops.

use vstd::prelude::*;

verus! {

/// `CNTP_CTL_EL0.ENABLE`.
pub const CTL_ENABLE: u64 = 1;

/// `CNTP_CTL_EL0.IMASK`: the timer condition does not raise an interrupt.
pub const CTL_IMASK: u64 = 2;

/// `CNTP_CTL_EL0.ISTATUS`: the timer condition is met.
pub const CTL_ISTATUS: u64 = 4;

/// The system counter, at the frequency `CNTFRQ_EL0` reports.
#[derive(Debug, Clone, Copy)]
pub struct Timer {
    frequency_hz: u64,
}

/// `ticks` at `frequency_hz` in microseconds, rounded down, saturating.
pub open spec fn micros_of(ticks: u64, frequency_hz: u64) -> u64 {
    let micros = ticks * 1_000_000 / (frequency_hz as int);
    if micros > u64::MAX {
        u64::MAX
    } else {
        micros as u64
    }
}

impl Timer {
    /// The counter frequency.
    pub closed spec fn frequency_spec(self) -> u64 {
        self.frequency_hz
    }

    /// The timer for a counter running at `frequency_hz` (the value of
    /// `CNTFRQ_EL0`), or `None` if firmware left it zero: a zero frequency
    /// would turn every conversion into a division by zero.
    pub fn current(frequency_hz: u64) -> (timer: Option<Self>)
        ensures
            timer is Some <==> frequency_hz != 0,
            timer matches Some(t) ==> t.frequency_spec() == frequency_hz,
    {
        if frequency_hz == 0 {
            return None;
        }
        Some(Self { frequency_hz })
    }

    /// Counter frequency, in Hz.
    pub fn frequency_hz(&self) -> (frequency: u64)
        ensures
            frequency == self.frequency_spec(),
    {
        self.frequency_hz
    }

    /// `ticks` in microseconds, rounded down; saturates at `u64::MAX`.
    pub fn ticks_to_micros(&self, ticks: u64) -> (micros: u64)
        requires
            self.frequency_spec() != 0,
        ensures
            micros == micros_of(ticks, self.frequency_spec()),
    {
        let scaled = ticks as u128 * 1_000_000;
        let micros = scaled / (self.frequency_hz as u128);
        if micros > u64::MAX as u128 {
            u64::MAX
        } else {
            micros as u64
        }
    }
}

/// The control value that arms a countdown: enabled, interrupt masked, so
/// completion is observed by polling `ISTATUS`.
pub fn countdown_control() -> (control: u64)
    ensures
        control == CTL_ENABLE | CTL_IMASK,
{
    CTL_ENABLE | CTL_IMASK
}

/// Whether a `CNTP_CTL_EL0` value says the countdown has expired.
pub fn countdown_fired(control: u64) -> (fired: bool)
    ensures
        fired == (control & CTL_ISTATUS != 0),
{
    control & CTL_ISTATUS != 0
}

/// A wait that polls a condition at most `budget` times.
pub struct BoundedPoll {
    polls: u64,
    budget: u64,
    met: bool,
}

impl BoundedPoll {
    /// Polls made so far that did not see the condition.
    pub closed spec fn polls_spec(self) -> u64 {
        self.polls
    }

    /// The most polls allowed.
    pub closed spec fn budget_spec(self) -> u64 {
        self.budget
    }

    /// Whether a poll saw the condition.
    pub closed spec fn met_spec(self) -> bool {
        self.met
    }

    /// A wait of at most `budget` polls.
    pub fn new(budget: u64) -> (poll: Self)
        ensures
            poll.polls_spec() == 0,
            poll.budget_spec() == budget,
            !poll.met_spec(),
    {
        BoundedPoll { polls: 0, budget, met: false }
    }

    /// Whether to poll again: the condition not seen yet and budget left.
    pub fn should_poll(&self) -> (again: bool)
        ensures
            again == (!self.met_spec() && self.polls_spec() < self.budget_spec()),
    {
        !self.met && self.polls < self.budget
    }

    /// Record what one poll saw.
    pub fn observe(&mut self, condition: bool)
        requires
            !old(self).met_spec(),
            old(self).polls_spec() < old(self).budget_spec(),
        ensures
            final(self).budget_spec() == old(self).budget_spec(),
            final(self).met_spec() == condition,
            final(self).polls_spec() == if condition {
                old(self).polls_spec()
            } else {
                (old(self).polls_spec() + 1) as u64
            },
    {
        if condition {
            self.met = true;
        } else {
            self.polls = self.polls + 1;
        }
    }

    /// Polls made that did not see the condition.
    pub fn polls(&self) -> (polls: u64)
        ensures
            polls == self.polls_spec(),
    {
        self.polls
    }

    /// Whether the condition was seen.
    pub fn met(&self) -> (met: bool)
        ensures
            met == self.met_spec(),
    {
        self.met
    }
}

/// What a polled countdown observed.
#[derive(Debug, Clone, Copy, PartialEq, Eq)]
pub struct Countdown {
    /// Whether `ISTATUS` was seen set within the poll budget.
    pub fired: bool,
    /// Counter ticks between arming and giving up or seeing it fire.
    pub elapsed_ticks: u64,
    /// Ticks the countdown was armed with.
    pub requested_ticks: u64,
    /// Polls that saw it not yet fired.
    pub polls: u64,
}

impl Countdown {
    /// The record of a finished countdown, from the counter values at its
    /// start and end: the elapsed count wraps with the counter.
    pub fn finished(poll: &BoundedPoll, start: u64, end: u64, requested_ticks: u64) -> (countdown: Self)
        ensures
            countdown.fired == poll.met_spec(),
            countdown.elapsed_ticks == end.wrapping_sub(start),
            countdown.requested_ticks == requested_ticks,
            countdown.polls == poll.polls_spec(),
    {
        Countdown {
            fired: poll.met(),
            elapsed_ticks: end.wrapping_sub(start),
            requested_ticks,
            polls: poll.polls(),
        }
    }
}

/// What waiting for the timer interrupt observed.
#[derive(Debug, Clone, Copy, PartialEq, Eq)]
pub struct InterruptReport {
    /// Whether an exception was taken while waiting.
    pub taken: bool,
    /// The vector it arrived on.
    pub vector_index: u64,
    /// Counter ticks spent waiting.
    pub elapsed_ticks: u64,
    /// `DAIF` before the wait, restored after it.
    pub saved_daif: u64,
}

impl InterruptReport {
    /// The record of a finished wait: taken when a poll saw the handler's
    /// count move.
    pub fn finished(
        poll: &BoundedPoll,
        vector_index: u64,
        start: u64,
        end: u64,
        saved_daif: u64,
    ) -> (report: Self)
        ensures
            report.taken == poll.met_spec(),
            report.vector_index == vector_index,
            report.elapsed_ticks == end.wrapping_sub(start),
            report.saved_daif == saved_daif,
    {
        InterruptReport {
            taken: poll.met(),
            vector_index,
            elapsed_ticks: end.wrapping_sub(start),
            saved_daif,
        }
    }
}

/// Law: the conversion is the true quotient, computed without losing the
/// high bits of `ticks * 1_000_000`: below the cap, `micros` microseconds
/// are at most `ticks` ticks and one microsecond more is beyond them
/// (`micros * f <= ticks * 1_000_000 < (micros + 1) * f`); the cap is only
/// reached when the true value reaches it.
pub proof fn lemma_micros_are_the_rounded_down_quotient(ticks: u64, frequency_hz: u64)
    requires
        frequency_hz > 0,
    ensures
        ({
            let micros = micros_of(ticks, frequency_hz);
            let scaled = ticks * 1_000_000int;
            &&& micros < u64::MAX ==> micros * frequency_hz <= scaled && scaled < (micros + 1)
                * frequency_hz
            &&& micros == u64::MAX ==> u64::MAX * frequency_hz <= scaled
        }),
{
    let f = frequency_hz as int;
    let scaled = ticks * 1_000_000int;
    let q = scaled / f;
    vstd::arithmetic::div_mod::lemma_fundamental_div_mod(scaled, f);
    assert(q * f <= scaled && scaled < (q + 1) * f) by (nonlinear_arith)
        requires
            scaled == f * q + scaled % f,
            0 <= scaled % f < f,
    ;
    if q > u64::MAX {
        assert(u64::MAX * f <= q * f) by (nonlinear_arith)
            requires
                q > u64::MAX,
                f > 0,
        ;
    }
}

/// Law: a later counter value never converts to fewer microseconds, so a
/// clock read through the conversion never runs backwards.
pub proof fn lemma_micros_never_run_backwards(earlier: u64, later: u64, frequency_hz: u64)
    requires
        frequency_hz > 0,
        earlier <= later,
    ensures
        micros_of(earlier, frequency_hz) <= micros_of(later, frequency_hz),
{
    assert(earlier * 1_000_000int <= later * 1_000_000int) by (nonlinear_arith)
        requires
            earlier <= later,
    ;
    vstd::arithmetic::div_mod::lemma_div_is_ordered(
        earlier * 1_000_000int,
        later * 1_000_000int,
        frequency_hz as int,
    );
}

} // verus!
