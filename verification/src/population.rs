//! The population that a simulation runs on: how it divides into buckets, and
//! how each bucket is targeted, exposed, deceived and moved to report.

use crate::distribution::{
    blend, is_normalizable, joinable, joined, lemma_blend_width, lemma_weight_within_sum,
    normalizable, values, UNIT,
};
use crate::rounding::{lemma_joinable, lemma_normalized_sums_to_unit};
use vstd::prelude::*;

verus! {

/// A population in `num_buckets` age groups. The first three vectors hold
/// relative weights, on any scale; the last two hold probabilities in parts
/// of `UNIT`.
pub struct Population {
    /// The number of people; the simulation does not read it.
    pub population_size: u64,
    /// The number of buckets, which is the length of every vector.
    pub num_buckets: u8,
    /// How much of the population falls into each bucket.
    pub age_distribution: Vec<u64>,
    /// How much scammers target each bucket.
    pub targeting_probability: Vec<u64>,
    /// How much each bucket is exposed to scams.
    pub exposure_probability: Vec<u64>,
    /// The probability that a member of the bucket falls for an attempt:
    /// zero never does, `UNIT` always does.
    pub scam_susceptibility: Vec<u64>,
    /// The probability that a member of the bucket reports a success: zero
    /// never does, `UNIT` always does.
    pub report_probability: Vec<u64>,
}

/// The mathematical content of a [`Population`].
pub struct PopulationView {
    pub population_size: nat,
    pub num_buckets: nat,
    pub age_distribution: Seq<nat>,
    pub targeting_probability: Seq<nat>,
    pub exposure_probability: Seq<nat>,
    pub scam_susceptibility: Seq<nat>,
    pub report_probability: Seq<nat>,
}

/// Every entry is a probability: at most the whole.
pub open spec fn within_unit(probabilities: Seq<nat>) -> bool {
    forall|i: int| 0 <= i < probabilities.len() ==> probabilities[i] <= UNIT
}

impl PopulationView {
    /// Every vector has one entry for each bucket.
    pub open spec fn consistent(self) -> bool {
        &&& self.age_distribution.len() == self.num_buckets
        &&& self.targeting_probability.len() == self.num_buckets
        &&& self.exposure_probability.len() == self.num_buckets
        &&& self.scam_susceptibility.len() == self.num_buckets
        &&& self.report_probability.len() == self.num_buckets
    }

    /// A simulation can run on the population: its vectors are consistent,
    /// its three weight vectors can be normalized, and its two probability
    /// vectors hold probabilities.
    pub open spec fn valid(self) -> bool {
        &&& self.num_buckets <= u8::MAX
        &&& self.consistent()
        &&& normalizable(self.age_distribution)
        &&& normalizable(self.targeting_probability)
        &&& normalizable(self.exposure_probability)
        &&& within_unit(self.scam_susceptibility)
        &&& within_unit(self.report_probability)
    }

    /// The population made of the given vectors, with one bucket for each
    /// entry of the first.
    pub open spec fn assembled(
        population_size: nat,
        age_distribution: Seq<nat>,
        targeting_probability: Seq<nat>,
        exposure_probability: Seq<nat>,
        scam_susceptibility: Seq<nat>,
        report_probability: Seq<nat>,
    ) -> PopulationView {
        PopulationView {
            population_size,
            num_buckets: age_distribution.len(),
            age_distribution,
            targeting_probability,
            exposure_probability,
            scam_susceptibility,
            report_probability,
        }
    }

    /// The three weight vectors that decide which bucket an attempt hits.
    pub open spec fn sources(self) -> Seq<Seq<nat>> {
        seq![self.age_distribution, self.targeting_probability, self.exposure_probability]
    }

    /// The weight with which an attempt hits each bucket.
    pub open spec fn joint_weights(self) -> Seq<nat> {
        joined(self.sources())
    }

    /// The population that `Population::default` describes: the United
    /// States in ten age groups of ten years each, with their shares of the
    /// population in parts of a hundred billion, and every other entry at a
    /// tenth of the whole.
    pub open spec fn illustrative() -> PopulationView {
        let tenth: nat = 100_000_000;
        let tenths: Seq<nat> = seq![
            tenth, tenth, tenth, tenth, tenth, tenth, tenth, tenth, tenth, tenth,
        ];
        PopulationView {
            population_size: 340_000_000,
            num_buckets: 10,
            age_distribution: seq![
                12_316_097_130nat,
                12_848_845_100nat,
                13_729_050_800nat,
                13_372_652_270nat,
                12_310_239_370nat,
                12_800_133_100nat,
                11_699_490_680nat,
                7_241_426_087nat,
                3_682_065_385nat,
                0nat,
            ],
            targeting_probability: tenths,
            exposure_probability: tenths,
            scam_susceptibility: tenths,
            report_probability: tenths,
        }
    }
}

impl View for Population {
    type V = PopulationView;

    open spec fn view(&self) -> PopulationView {
        PopulationView {
            population_size: self.population_size as nat,
            num_buckets: self.num_buckets as nat,
            age_distribution: values(self.age_distribution@),
            targeting_probability: values(self.targeting_probability@),
            exposure_probability: values(self.exposure_probability@),
            scam_susceptibility: values(self.scam_susceptibility@),
            report_probability: values(self.report_probability@),
        }
    }
}

/// The weight vectors of a valid population can be joined, and the joint
/// weights, one for each bucket, can be normalized in turn.
pub proof fn lemma_valid_joins(population: PopulationView)
    requires
        population.valid(),
    ensures
        joinable(population.sources()),
        population.num_buckets > 0,
        population.joint_weights().len() == population.num_buckets,
        normalizable(population.joint_weights()),
{
    let sources = population.sources();
    let width = population.num_buckets;
    lemma_joinable(sources, width);
    lemma_blend_width(sources, width);
    lemma_normalized_sums_to_unit(blend(sources, width));
    assert(sources[0] == population.age_distribution);
    if width == 0 {
        assert(population.age_distribution =~= Seq::<nat>::empty());
    }
}

/// Whether every entry is at most `UNIT`.
fn all_within_unit(probabilities: &Vec<u64>) -> (ok: bool)
    ensures
        ok == within_unit(values(probabilities@)),
{
    let mut i: usize = 0;
    while i < probabilities.len()
        invariant
            i <= probabilities.len(),
            forall|j: int| 0 <= j < i ==> values(probabilities@)[j] <= UNIT,
        decreases probabilities.len() - i,
    {
        if probabilities[i] > UNIT {
            assert(values(probabilities@)[i as int] > UNIT);
            return false;
        }
        i = i + 1;
    }
    true
}

impl Population {
    /// The population made of the given vectors, if it is valid: if the
    /// vectors have one length of at most 255, the three weight vectors have
    /// positive totals, and no probability exceeds `UNIT`.
    pub fn new(
        population_size: u64,
        age_distribution: Vec<u64>,
        targeting_probability: Vec<u64>,
        exposure_probability: Vec<u64>,
        scam_susceptibility: Vec<u64>,
        report_probability: Vec<u64>,
    ) -> (made: Option<Population>)
        ensures
            made is Some <==> PopulationView::assembled(
                population_size as nat,
                values(age_distribution@),
                values(targeting_probability@),
                values(exposure_probability@),
                values(scam_susceptibility@),
                values(report_probability@),
            ).valid(),
            made matches Some(population) ==> population@ == PopulationView::assembled(
                population_size as nat,
                values(age_distribution@),
                values(targeting_probability@),
                values(exposure_probability@),
                values(scam_susceptibility@),
                values(report_probability@),
            ),
    {
        if age_distribution.len() > 255 {
            return None;
        }
        let population = Population {
            population_size,
            num_buckets: age_distribution.len() as u8,
            age_distribution,
            targeting_probability,
            exposure_probability,
            scam_susceptibility,
            report_probability,
        };
        if population.is_valid() {
            Some(population)
        } else {
            None
        }
    }

    /// Whether a simulation can run on this population.
    pub fn is_valid(&self) -> (ok: bool)
        ensures
            ok == self@.valid(),
    {
        let buckets: usize = self.num_buckets as usize;
        self.age_distribution.len() == buckets && self.targeting_probability.len() == buckets
            && self.exposure_probability.len() == buckets && self.scam_susceptibility.len()
            == buckets && self.report_probability.len() == buckets && is_normalizable(
            &self.age_distribution,
        ) && is_normalizable(&self.targeting_probability) && is_normalizable(
            &self.exposure_probability,
        ) && all_within_unit(&self.scam_susceptibility) && all_within_unit(
            &self.report_probability,
        )
    }
}

impl Clone for Population {
    /// A population with the same content.
    fn clone(&self) -> (copy: Population)
        ensures
            copy@ == self@,
    {
        let copy = Population {
            population_size: self.population_size,
            num_buckets: self.num_buckets,
            age_distribution: self.age_distribution.clone(),
            targeting_probability: self.targeting_probability.clone(),
            exposure_probability: self.exposure_probability.clone(),
            scam_susceptibility: self.scam_susceptibility.clone(),
            report_probability: self.report_probability.clone(),
        };
        proof {
            assert(copy@.age_distribution =~= self@.age_distribution);
            assert(copy@.targeting_probability =~= self@.targeting_probability);
            assert(copy@.exposure_probability =~= self@.exposure_probability);
            assert(copy@.scam_susceptibility =~= self@.scam_susceptibility);
            assert(copy@.report_probability =~= self@.report_probability);
        }
        copy
    }
}

impl Default for Population {
    /// An illustrative population of ten age groups.
    fn default() -> (population: Population)
        ensures
            population@ == PopulationView::illustrative(),
            population@.valid(),
    {
        let population = Population {
            population_size: 340_000_000,
            num_buckets: 10,
            age_distribution: vec![
                12_316_097_130,
                12_848_845_100,
                13_729_050_800,
                13_372_652_270,
                12_310_239_370,
                12_800_133_100,
                11_699_490_680,
                7_241_426_087,
                3_682_065_385,
                0,
            ],
            targeting_probability: vec![
                100_000_000, 100_000_000, 100_000_000, 100_000_000, 100_000_000,
                100_000_000, 100_000_000, 100_000_000, 100_000_000, 100_000_000,
            ],
            exposure_probability: vec![
                100_000_000, 100_000_000, 100_000_000, 100_000_000, 100_000_000,
                100_000_000, 100_000_000, 100_000_000, 100_000_000, 100_000_000,
            ],
            scam_susceptibility: vec![
                100_000_000, 100_000_000, 100_000_000, 100_000_000, 100_000_000,
                100_000_000, 100_000_000, 100_000_000, 100_000_000, 100_000_000,
            ],
            report_probability: vec![
                100_000_000, 100_000_000, 100_000_000, 100_000_000, 100_000_000,
                100_000_000, 100_000_000, 100_000_000, 100_000_000, 100_000_000,
            ],
        };
        proof {
            let model = PopulationView::illustrative();
            assert(population@.age_distribution =~= model.age_distribution);
            assert(population@.targeting_probability =~= model.targeting_probability);
            assert(population@.exposure_probability =~= model.exposure_probability);
            assert(population@.scam_susceptibility =~= model.scam_susceptibility);
            assert(population@.report_probability =~= model.report_probability);
            lemma_illustrative_valid();
        }
        population
    }
}

/// The illustrative population is valid.
pub proof fn lemma_illustrative_valid()
    ensures
        PopulationView::illustrative().valid(),
{
    let model = PopulationView::illustrative();
    lemma_weight_within_sum(model.age_distribution, 0);
    lemma_weight_within_sum(model.targeting_probability, 0);
}

} // verus!
