//! The simulation: a population, the tally of the running experiment, the
//! tallies of earlier experiments, and the generator that every step draws
//! from.

use crate::distribution::{
    join_and_normalize_probabilities, models, sample_from_distribution, UNIT,
};
use crate::outcome::{Outcome, OutcomeView};
use crate::population::{lemma_valid_joins, Population, PopulationView};
use crate::random::flip;
use rand::rngs::SmallRng;
use vstd::prelude::*;

verus! {

/// A simulation of scam attempts on one population.
pub struct Simulation {
    rng: SmallRng,
    population: Population,
    experiment: Outcome,
    previous_outcomes: Vec<(Population, Outcome)>,
}

/// The mathematical content of a [`Simulation`]. The state of the generator
/// is no part of it.
pub struct SimulationView {
    /// The population that the steps run on.
    pub population: PopulationView,
    /// The tally of the running experiment.
    pub experiment: OutcomeView,
    /// The populations and tallies of the experiments that were retired,
    /// oldest first.
    pub history: Seq<(PopulationView, OutcomeView)>,
}

impl SimulationView {
    /// The population is valid, and the running tally is well formed and
    /// covers the population's buckets.
    pub open spec fn wf(self) -> bool {
        &&& self.population.valid()
        &&& self.experiment.wf()
        &&& self.experiment.buckets() == self.population.num_buckets
    }
}

/// The content of a list of retired experiments.
pub open spec fn retired(entries: Seq<(Population, Outcome)>) -> Seq<(PopulationView, OutcomeView)> {
    Seq::new(entries.len(), |i: int| (entries[i].0@, entries[i].1@))
}

impl View for Simulation {
    type V = SimulationView;

    closed spec fn view(&self) -> SimulationView {
        SimulationView {
            population: self.population@,
            experiment: self.experiment@,
            history: retired(self.previous_outcomes@),
        }
    }
}

/// What one step on `population` may come to: an attempt on `bucket`, which
/// the target fell for or not, and reported or not. Only a bucket of positive
/// joint weight is hit. A susceptibility of zero never yields a success and
/// one of `UNIT` always does; the same holds of the report probability once
/// the attempt succeeded.
pub open spec fn admits(population: PopulationView, bucket: int, fell: bool, reported: bool) -> bool {
    &&& 0 <= bucket < population.num_buckets
    &&& population.joint_weights()[bucket] > 0
    &&& population.scam_susceptibility[bucket] == 0 ==> !fell
    &&& population.scam_susceptibility[bucket] == UNIT ==> fell
    &&& fell && population.report_probability[bucket] == 0 ==> !reported
    &&& fell && population.report_probability[bucket] == UNIT ==> reported
}

/// One step on `population` can turn the tally `before` into `after`.
pub open spec fn may_follow(
    population: PopulationView,
    before: OutcomeView,
    after: OutcomeView,
) -> bool {
    exists|bucket: int, fell: bool, reported: bool| #[trigger]
        admits(population, bucket, fell, reported) && after == before.after_step(
            bucket,
            fell,
            reported,
        )
}

impl Simulation {
    /// A simulation on `population` that draws from `rng`, with an empty
    /// tally and no history.
    pub fn new(population: Population, rng: SmallRng) -> (simulation: Simulation)
        requires
            population@.valid(),
        ensures
            simulation@.wf(),
            simulation@.population == population@,
            simulation@.experiment == OutcomeView::zero(population@.num_buckets),
            simulation@.history == Seq::<(PopulationView, OutcomeView)>::empty(),
    {
        let experiment = Outcome::new(population.num_buckets);
        let simulation = Simulation {
            rng,
            population,
            experiment,
            previous_outcomes: Vec::new(),
        };
        proof {
            assert(simulation@.history =~= Seq::<(PopulationView, OutcomeView)>::empty());
        }
        simulation
    }

    /// The number of buckets of the population, which is the length of each
    /// of its vectors.
    pub fn get_bucket_count(&self) -> (count: u8)
        ensures
            count == self@.population.num_buckets,
            self@.wf() ==> {
                &&& count == self@.population.age_distribution.len()
                &&& count == self@.population.targeting_probability.len()
                &&& count == self@.population.exposure_probability.len()
                &&& count == self@.population.scam_susceptibility.len()
                &&& count == self@.population.report_probability.len()
                &&& count == self@.experiment.buckets()
            },
    {
        self.population.num_buckets
    }

    /// The population that the steps run on.
    pub fn population(&self) -> (population: &Population)
        ensures
            population@ == self@.population,
    {
        &self.population
    }

    /// The tally of the running experiment.
    pub fn experiment(&self) -> (experiment: &Outcome)
        ensures
            experiment@ == self@.experiment,
    {
        &self.experiment
    }

    /// The retired experiments, oldest first.
    pub fn previous_outcomes(&self) -> (entries: &Vec<(Population, Outcome)>)
        ensures
            retired(entries@) == self@.history,
    {
        &self.previous_outcomes
    }

    /// Simulates one attempted scam. The joint weights of the population pick
    /// the bucket, and the attempt is counted. A trial with the bucket's
    /// susceptibility decides whether it succeeds; if so, the success is
    /// counted, and a trial with the bucket's report probability decides
    /// whether it is reported and counted as such.
    pub fn step(&mut self)
        requires
            old(self)@.wf(),
            old(self)@.experiment.has_room(),
        ensures
            final(self)@.wf(),
            final(self)@.population == old(self)@.population,
            final(self)@.history == old(self)@.history,
            may_follow(old(self)@.population, old(self)@.experiment, final(self)@.experiment),
            final(self)@.experiment.total_attempts() == old(self)@.experiment.total_attempts()
                + 1,
    {
        let ghost population = self@.population;
        let ghost before = self@.experiment;
        proof {
            lemma_valid_joins(population);
        }
        let sources: Vec<&Vec<u64>> = vec![
            &self.population.age_distribution,
            &self.population.targeting_probability,
            &self.population.exposure_probability,
        ];
        proof {
            assert(models(sources@) =~= population.sources());
        }
        let joint: Vec<u64> = join_and_normalize_probabilities(sources);
        let bucket: usize = sample_from_distribution(&joint, &mut self.rng);
        self.experiment.record_attempt(bucket);
        let susceptibility: u64 = self.population.scam_susceptibility[bucket];
        proof {
            assert(population.scam_susceptibility[bucket as int] == susceptibility);
            assert(population.report_probability[bucket as int] <= UNIT);
        }
        let fell: bool = flip(&mut self.rng, susceptibility as u32, UNIT as u32);
        if !fell {
            proof {
                assert(admits(population, bucket as int, false, false));
                assert(self@.experiment == before.after_step(bucket as int, false, false));
            }
            return ;
        }
        self.experiment.record_success(bucket);
        let report_probability: u64 = self.population.report_probability[bucket];
        proof {
            assert(population.report_probability[bucket as int] == report_probability);
        }
        let reported: bool = flip(&mut self.rng, report_probability as u32, UNIT as u32);
        if !reported {
            proof {
                assert(admits(population, bucket as int, true, false));
                assert(self@.experiment == before.after_step(bucket as int, true, false));
            }
            return ;
        }
        self.experiment.record_report(bucket);
        proof {
            assert(admits(population, bucket as int, true, true));
            assert(self@.experiment == before.after_step(bucket as int, true, true));
        }
    }

    /// Retires the running experiment: appends the population and the tally
    /// to the history and starts an empty tally, on `replacement` if one is
    /// given and on the same population if not.
    pub fn commit(&mut self, replacement: Option<Population>)
        requires
            old(self)@.wf(),
            replacement matches Some(population) ==> population@.valid(),
        ensures
            final(self)@.wf(),
            final(self)@.history == old(self)@.history.push(
                (old(self)@.population, old(self)@.experiment),
            ),
            final(self)@.population == match replacement {
                Some(population) => population@,
                None => old(self)@.population,
            },
            final(self)@.experiment == OutcomeView::zero(final(self)@.population.num_buckets),
    {
        let mut population: Population = match replacement {
            Some(population) => population,
            None => self.population.clone(),
        };
        let mut experiment: Outcome = Outcome::new(population.num_buckets);
        std::mem::swap(&mut self.population, &mut population);
        std::mem::swap(&mut self.experiment, &mut experiment);
        self.previous_outcomes.push((population, experiment));
        proof {
            assert(self@.history =~= old(self)@.history.push(
                (old(self)@.population, old(self)@.experiment),
            ));
        }
    }
}

} // verus!
