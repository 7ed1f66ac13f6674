//! The poll scheduler's control logic: after each completed cycle, decide
//! whether to stop, to sleep out the rest of the interval, or to start
//! the next cycle at once. The budget is checked only after a cycle, so a
//! cycle in flight always completes and the budget is a floor, not a
//! preemptive cutoff.

use vstd::prelude::*;

verus! {

/// What the scheduler does after a completed cycle.
#[derive(Debug, Clone, Copy, PartialEq, Eq, Structural)]
pub enum ScheduleStep {
    /// Terminate the run: single-shot mode, or the budget is spent.
    Stop,
    /// Sleep this many milliseconds, then start the next cycle.
    RunAfter(u64),
    /// Start the next cycle at once: the cycle outlasted the interval.
    RunNow,
}

/// The decision after one cycle. Single-shot mode (reload disabled) stops
/// after its one cycle. In repeating mode the run stops once the total
/// elapsed time exceeds the budget; otherwise the next cycle starts after
/// whatever part of the interval the cycle left over, or at once when the
/// cycle took the whole interval.
pub open spec fn next_step_spec(
    reload: bool,
    interval_ms: u64,
    budget_ms: u64,
    total_elapsed_ms: u64,
    cycle_elapsed_ms: u64,
) -> ScheduleStep {
    if !reload {
        ScheduleStep::Stop
    } else if total_elapsed_ms > budget_ms {
        ScheduleStep::Stop
    } else if cycle_elapsed_ms < interval_ms {
        ScheduleStep::RunAfter((interval_ms - cycle_elapsed_ms) as u64)
    } else {
        ScheduleStep::RunNow
    }
}

/// Runtime form of `next_step_spec`.
pub fn next_step(
    reload: bool,
    interval_ms: u64,
    budget_ms: u64,
    total_elapsed_ms: u64,
    cycle_elapsed_ms: u64,
) -> (s: ScheduleStep)
    ensures
        s == next_step_spec(reload, interval_ms, budget_ms, total_elapsed_ms, cycle_elapsed_ms),
{
    if !reload {
        ScheduleStep::Stop
    } else if total_elapsed_ms > budget_ms {
        ScheduleStep::Stop
    } else if cycle_elapsed_ms < interval_ms {
        ScheduleStep::RunAfter(interval_ms - cycle_elapsed_ms)
    } else {
        ScheduleStep::RunNow
    }
}

/// Milliseconds of a configured whole number of minutes.
pub fn minutes_to_millis(minutes: u64) -> (ms: u64)
    requires
        minutes * 60000 <= u64::MAX,
    ensures
        ms == minutes * 60000,
{
    minutes * 60000
}

/// How many cycles a repeating run executes, given the total elapsed time
/// observed at each post-cycle check: the first check whose total exceeds
/// the budget ends the run with that cycle.
pub open spec fn cycles_run(budget_ms: u64, totals: Seq<u64>) -> int
    decreases totals.len(),
{
    if totals.len() == 0 {
        0
    } else if totals[0] > budget_ms {
        1
    } else {
        1 + cycles_run(budget_ms, totals.drop_first())
    }
}

/// In repeating mode the decision stops exactly when the observed total
/// exceeds the budget.
pub proof fn lemma_stop_iff_budget_spent(
    interval_ms: u64,
    budget_ms: u64,
    total_elapsed_ms: u64,
    cycle_elapsed_ms: u64,
)
    ensures
        (next_step_spec(true, interval_ms, budget_ms, total_elapsed_ms, cycle_elapsed_ms)
            == ScheduleStep::Stop) <==> total_elapsed_ms > budget_ms,
{
}

/// A zero budget in repeating mode runs exactly one cycle: any real cycle
/// takes a positive time, so the very first check stops the scheduler.
pub proof fn lemma_zero_budget_one_cycle(totals: Seq<u64>)
    requires
        totals.len() >= 1,
        totals[0] >= 1,
    ensures
        cycles_run(0, totals) == 1,
{
}

} // verus!
