//! Fixed-rate pacing: from a target tick rate, the target tick duration and
//! the end-of-tick sleep that holds the average rate. The decisions are pure
//! arithmetic over measured nanoseconds and are fully specified here; the
//! loop around them — reading the clock, running the tick, sleeping — is the
//! caller's, since only the caller can block.
use vstd::prelude::*;

verus! {

/// Pacing for a fixed-rate loop: derives and holds the target tick duration.
pub struct Scheduler {
    target_ns: u64,
}

/// What one tick spans once paced: its own work, plus the remainder of the
/// target duration when it finished early, and nothing more when it overran.
pub open spec fn tick_span(target: int, work: int) -> int {
    work + if work < target {
        target - work
    } else {
        0
    }
}

/// Total span of a sequence of paced ticks.
pub open spec fn total_span(target: int, works: Seq<int>) -> int
    decreases works.len(),
{
    if works.len() == 0 {
        0
    } else {
        total_span(target, works.drop_last()) + tick_span(target, works.last())
    }
}

/// A tick whose work fits the target spans exactly the target: the sleep
/// absorbs the slack, and an overrunning tick proceeds with no sleep.
pub proof fn lemma_tick_span(target: int, work: int)
    requires
        0 <= work,
        0 <= target,
    ensures
        work <= target ==> tick_span(target, work) == target,
        work > target ==> tick_span(target, work) == work,
{
}

/// The pacing law: over any run of ticks whose work each fits the target
/// duration, work plus computed sleep totals exactly the tick count times
/// the target duration — the average tick interval is exactly the target.
pub proof fn lemma_average_rate(target: int, works: Seq<int>)
    requires
        0 <= target,
        forall|k: int| 0 <= k < works.len() ==> 0 <= #[trigger] works[k] <= target,
    ensures
        total_span(target, works) == works.len() * target,
    decreases works.len(),
{
    if works.len() == 0 {
    } else {
        lemma_average_rate(target, works.drop_last());
        lemma_tick_span(target, works.last());
        assert(works.len() * target == (works.len() - 1) * target + target) by (nonlinear_arith);
    }
}

impl Scheduler {
    /// The target tick duration, in nanoseconds.
    pub closed spec fn spec_target_ns(self) -> u64 {
        self.target_ns
    }

    /// A scheduler aiming at `hz` ticks per second: the target tick duration
    /// is the whole number of nanoseconds that fit `1 / hz` seconds.
    pub fn new(hz: u32) -> (r: Scheduler)
        requires
            1 <= hz,
        ensures
            r.spec_target_ns() == 1_000_000_000u64 / (hz as u64),
    {
        Scheduler { target_ns: 1_000_000_000u64 / (hz as u64) }
    }

    /// The target tick duration, in nanoseconds.
    pub fn target_duration_ns(&self) -> (r: u64)
        ensures
            r == self.spec_target_ns(),
    {
        self.target_ns
    }

    /// How long to sleep after a tick whose work took `work_ns`: the rest of
    /// the target duration, or nothing when the tick overran — the loop then
    /// proceeds immediately and the rate degrades without a catch-up burst.
    pub fn sleep_nanos(&self, work_ns: u64) -> (r: u64)
        ensures
            r == if work_ns < self.spec_target_ns() {
                self.spec_target_ns() - work_ns
            } else {
                0
            },
            work_ns + r == tick_span(self.spec_target_ns() as int, work_ns as int),
    {
        if work_ns < self.target_ns {
            self.target_ns - work_ns
        } else {
            0
        }
    }
}

} // verus!
