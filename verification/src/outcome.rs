//! The tally of one experiment: for each bucket, how many scams were
//! attempted, how many of those succeeded, and how many of those were
//! reported.

use crate::distribution::{values, weight_sum, zeros};
use vstd::prelude::*;

verus! {

/// The counters of an experiment: for every bucket its attempts, its
/// successes and its reports.
pub struct Outcome {
    pub attempts: Vec<u64>,
    pub successes: Vec<u64>,
    pub reports: Vec<u64>,
}

/// The mathematical content of an [`Outcome`].
pub struct OutcomeView {
    pub attempts: Seq<nat>,
    pub successes: Seq<nat>,
    pub reports: Seq<nat>,
}

impl OutcomeView {
    /// The tally of `buckets` buckets before anything was counted.
    pub open spec fn zero(buckets: nat) -> OutcomeView {
        OutcomeView { attempts: zeros(buckets), successes: zeros(buckets), reports: zeros(buckets) }
    }

    /// The number of buckets that the tally covers.
    pub open spec fn buckets(self) -> nat {
        self.attempts.len()
    }

    /// Attempts, successes and reports cover the same buckets, and in every
    /// bucket the reports are among the successes, which are among the
    /// attempts.
    pub open spec fn wf(self) -> bool {
        &&& self.successes.len() == self.attempts.len()
        &&& self.reports.len() == self.attempts.len()
        &&& forall|i: int|
            #![trigger self.attempts[i]]
            #![trigger self.successes[i]]
            #![trigger self.reports[i]]
            0 <= i < self.attempts.len() ==> self.reports[i] <= self.successes[i]
                && self.successes[i] <= self.attempts[i]
    }

    /// Every attempt counter can still be raised.
    pub open spec fn has_room(self) -> bool {
        forall|i: int| 0 <= i < self.attempts.len() ==> self.attempts[i] < u64::MAX
    }

    /// The tally with one more attempt in `bucket`.
    pub open spec fn with_attempt(self, bucket: int) -> OutcomeView {
        OutcomeView { attempts: self.attempts.update(bucket, self.attempts[bucket] + 1), ..self }
    }

    /// The tally with one more success in `bucket`.
    pub open spec fn with_success(self, bucket: int) -> OutcomeView {
        OutcomeView {
            successes: self.successes.update(bucket, self.successes[bucket] + 1),
            ..self
        }
    }

    /// The tally with one more report in `bucket`.
    pub open spec fn with_report(self, bucket: int) -> OutcomeView {
        OutcomeView { reports: self.reports.update(bucket, self.reports[bucket] + 1), ..self }
    }

    /// The tally after one attempt on `bucket`: the attempt always counts, the
    /// success counts when the target fell for it, and the report counts when
    /// the target fell for it and reported it.
    pub open spec fn after_step(self, bucket: int, fell: bool, reported: bool) -> OutcomeView {
        let attempted = self.with_attempt(bucket);
        if !fell {
            attempted
        } else if !reported {
            attempted.with_success(bucket)
        } else {
            attempted.with_success(bucket).with_report(bucket)
        }
    }

    /// The number of attempts over all buckets.
    pub open spec fn total_attempts(self) -> nat {
        weight_sum(self.attempts)
    }
}

impl View for Outcome {
    type V = OutcomeView;

    open spec fn view(&self) -> OutcomeView {
        OutcomeView {
            attempts: values(self.attempts@),
            successes: values(self.successes@),
            reports: values(self.reports@),
        }
    }
}

/// Raising one weight by one raises the total by one.
pub proof fn lemma_raise_total(weights: Seq<nat>, i: int)
    requires
        0 <= i < weights.len(),
    ensures
        weight_sum(weights.update(i, weights[i] + 1)) == weight_sum(weights) + 1,
    decreases weights.len(),
{
    let raised = weights.update(i, weights[i] + 1);
    if i == weights.len() - 1 {
        assert(raised.drop_last() =~= weights.drop_last());
    } else {
        lemma_raise_total(weights.drop_last(), i);
        assert(raised.drop_last() =~= weights.drop_last().update(i, weights[i] + 1));
    }
}

impl Outcome {
    /// A tally of `num_buckets` buckets with every counter at zero.
    pub fn new(num_buckets: u8) -> (outcome: Outcome)
        ensures
            outcome@ == OutcomeView::zero(num_buckets as nat),
            outcome@.wf(),
    {
        let mut attempts: Vec<u64> = Vec::with_capacity(num_buckets as usize);
        let mut successes: Vec<u64> = Vec::with_capacity(num_buckets as usize);
        let mut reports: Vec<u64> = Vec::with_capacity(num_buckets as usize);
        let mut i: u8 = 0;
        while i < num_buckets
            invariant
                i <= num_buckets,
                attempts.len() == i,
                successes.len() == i,
                reports.len() == i,
                forall|j: int| 0 <= j < i ==> attempts@[j] == 0,
                forall|j: int| 0 <= j < i ==> successes@[j] == 0,
                forall|j: int| 0 <= j < i ==> reports@[j] == 0,
            decreases num_buckets - i,
        {
            attempts.push(0);
            successes.push(0);
            reports.push(0);
            i = i + 1;
        }
        let outcome = Outcome { attempts, successes, reports };
        proof {
            let zero = OutcomeView::zero(num_buckets as nat);
            assert(outcome@.attempts =~= zero.attempts);
            assert(outcome@.successes =~= zero.successes);
            assert(outcome@.reports =~= zero.reports);
        }
        outcome
    }

    /// Counts a scam attempted on `bucket`.
    pub fn record_attempt(&mut self, bucket: usize)
        requires
            old(self)@.wf(),
            bucket < old(self)@.buckets(),
            old(self)@.attempts[bucket as int] < u64::MAX,
        ensures
            final(self)@ == old(self)@.with_attempt(bucket as int),
            final(self)@.wf(),
            final(self)@.total_attempts() == old(self)@.total_attempts() + 1,
    {
        let raised: u64 = self.attempts[bucket] + 1;
        self.attempts.set(bucket, raised);
        proof {
            assert(self@.attempts =~= old(self)@.with_attempt(bucket as int).attempts);
            lemma_raise_total(old(self)@.attempts, bucket as int);
        }
    }

    /// Counts an attempt on `bucket` as a success. The attempt was counted
    /// before, so the bucket holds an attempt that is not yet a success.
    pub fn record_success(&mut self, bucket: usize)
        requires
            old(self)@.wf(),
            bucket < old(self)@.buckets(),
            old(self)@.successes[bucket as int] < old(self)@.attempts[bucket as int],
        ensures
            final(self)@ == old(self)@.with_success(bucket as int),
            final(self)@.wf(),
    {
        let raised: u64 = self.successes[bucket] + 1;
        self.successes.set(bucket, raised);
        proof {
            assert(self@.successes =~= old(self)@.with_success(bucket as int).successes);
        }
    }

    /// Counts a success in `bucket` as reported. The success was counted
    /// before, so the bucket holds a success that is not yet reported.
    pub fn record_report(&mut self, bucket: usize)
        requires
            old(self)@.wf(),
            bucket < old(self)@.buckets(),
            old(self)@.reports[bucket as int] < old(self)@.successes[bucket as int],
        ensures
            final(self)@ == old(self)@.with_report(bucket as int),
            final(self)@.wf(),
    {
        let raised: u64 = self.reports[bucket] + 1;
        self.reports.set(bucket, raised);
        proof {
            assert(self@.reports =~= old(self)@.with_report(bucket as int).reports);
        }
    }
}

} // verus!
