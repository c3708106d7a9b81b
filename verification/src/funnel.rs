//! What holds of the tally after any number of steps: every step is one
//! attempt, reports never outnumber successes nor successes attempts, and
//! a susceptibility or report probability of zero or of the whole leaves
//! nothing to chance.

use crate::distribution::{zeros, UNIT};
use crate::outcome::{lemma_raise_total, OutcomeView};
use crate::population::PopulationView;
use crate::rounding::lemma_zeros_total;
use crate::simulation::{admits, may_follow};
use vstd::prelude::*;

verus! {

/// One step on `population` can turn the tally at position `k` of the trace
/// into the next one.
pub open spec fn follows_at(population: PopulationView, trace: Seq<OutcomeView>, k: int) -> bool {
    may_follow(population, trace[k], trace[k + 1])
}

/// The trace holds the tallies of a run on `population`: it starts with the
/// empty tally, and one step leads from each tally to the next.
pub open spec fn is_run(population: PopulationView, trace: Seq<OutcomeView>) -> bool {
    &&& trace.len() > 0
    &&& trace[0] == OutcomeView::zero(population.num_buckets)
    &&& forall|k: int| 0 <= k < trace.len() - 1 ==> #[trigger] follows_at(population, trace, k)
}

/// One step on a well-formed tally leaves it well formed, over the same
/// buckets, with one attempt more.
pub proof fn lemma_step_keeps_funnel(before: OutcomeView, bucket: int, fell: bool, reported: bool)
    requires
        before.wf(),
        0 <= bucket < before.buckets(),
    ensures
        before.after_step(bucket, fell, reported).wf(),
        before.after_step(bucket, fell, reported).buckets() == before.buckets(),
        before.after_step(bucket, fell, reported).total_attempts() == before.total_attempts() + 1,
{
    lemma_raise_total(before.attempts, bucket);
}

/// After `k` steps of a run the tally is well formed and holds `k` attempts
/// over all buckets: in every bucket the reports are among the successes and
/// the successes among the attempts, and no step is lost or counted twice.
pub proof fn law_attempts_count_steps(population: PopulationView, trace: Seq<OutcomeView>, k: int)
    requires
        is_run(population, trace),
        0 <= k < trace.len(),
    ensures
        trace[k].wf(),
        trace[k].buckets() == population.num_buckets,
        trace[k].total_attempts() == k,
    decreases k,
{
    if k == 0 {
        lemma_zeros_total(population.num_buckets);
    } else {
        law_attempts_count_steps(population, trace, k - 1);
        assert(follows_at(population, trace, k - 1));
        let (bucket, fell, reported) = choose|bucket: int, fell: bool, reported: bool| #[trigger]
            admits(population, bucket, fell, reported) && trace[k] == trace[k - 1].after_step(
                bucket,
                fell,
                reported,
            );
        lemma_step_keeps_funnel(trace[k - 1], bucket, fell, reported);
    }
}

/// Where no bucket is susceptible, no step of a run counts a success or a
/// report.
pub proof fn law_no_success_without_susceptibility(
    population: PopulationView,
    trace: Seq<OutcomeView>,
    k: int,
)
    requires
        is_run(population, trace),
        0 <= k < trace.len(),
        forall|i: int| 0 <= i < population.num_buckets ==> population.scam_susceptibility[i] == 0,
    ensures
        trace[k].successes == zeros(population.num_buckets),
        trace[k].reports == zeros(population.num_buckets),
    decreases k,
{
    if k > 0 {
        law_no_success_without_susceptibility(population, trace, k - 1);
        assert(follows_at(population, trace, k - 1));
    }
}

/// Where every bucket is certain to fall for an attempt and certain to report
/// it, every attempt of a run is a success and a report.
pub proof fn law_certain_funnel(population: PopulationView, trace: Seq<OutcomeView>, k: int)
    requires
        is_run(population, trace),
        0 <= k < trace.len(),
        forall|i: int|
            0 <= i < population.num_buckets ==> population.scam_susceptibility[i] == UNIT,
        forall|i: int| 0 <= i < population.num_buckets ==> population.report_probability[i] == UNIT,
    ensures
        trace[k].successes == trace[k].attempts,
        trace[k].reports == trace[k].attempts,
    decreases k,
{
    if k > 0 {
        law_certain_funnel(population, trace, k - 1);
        assert(follows_at(population, trace, k - 1));
    }
}

} // verus!
