use rand::rngs::SmallRng;
use rand::SeedableRng;
use scam_simulation::distribution::UNIT;
use scam_simulation::population::Population;
use scam_simulation::simulation::Simulation;

fn uniform_population(buckets: u8, susceptibility: u64, report: u64) -> Population {
    let n = buckets as usize;
    Population {
        population_size: 1000,
        num_buckets: buckets,
        age_distribution: vec![1; n],
        targeting_probability: vec![1; n],
        exposure_probability: vec![1; n],
        scam_susceptibility: vec![susceptibility; n],
        report_probability: vec![report; n],
    }
}

fn assert_funnel(simulation: &Simulation) {
    let outcome = simulation.experiment();
    let buckets = simulation.get_bucket_count() as usize;
    assert_eq!(outcome.attempts.len(), buckets);
    assert_eq!(outcome.successes.len(), buckets);
    assert_eq!(outcome.reports.len(), buckets);
    for i in 0..buckets {
        assert!(outcome.reports[i] <= outcome.successes[i]);
        assert!(outcome.successes[i] <= outcome.attempts[i]);
    }
}

#[test]
fn test_sanity_e2e() {
    let mut sim = Simulation::new(Population::default(), SmallRng::from_entropy());
    sim.step();
}

#[test]
fn new_simulation_starts_empty() {
    let sim = Simulation::new(Population::default(), SmallRng::seed_from_u64(1));
    assert_eq!(sim.experiment().attempts, vec![0; 10]);
    assert_eq!(sim.experiment().successes, vec![0; 10]);
    assert_eq!(sim.experiment().reports, vec![0; 10]);
    assert!(sim.previous_outcomes().is_empty());
    assert_eq!(sim.population().population_size, 340_000_000);
}

#[test]
fn bucket_count_is_the_length_of_every_vector() {
    let sim = Simulation::new(Population::default(), SmallRng::seed_from_u64(1));
    assert_eq!(sim.get_bucket_count(), 10);
    let count = sim.get_bucket_count() as usize;
    assert_eq!(sim.population().age_distribution.len(), count);
    assert_eq!(sim.population().targeting_probability.len(), count);
    assert_eq!(sim.population().exposure_probability.len(), count);
    assert_eq!(sim.population().scam_susceptibility.len(), count);
    assert_eq!(sim.population().report_probability.len(), count);
    let small = Simulation::new(uniform_population(3, 0, 0), SmallRng::seed_from_u64(1));
    assert_eq!(small.get_bucket_count(), 3);
    let large = Simulation::new(uniform_population(255, 0, 0), SmallRng::seed_from_u64(1));
    assert_eq!(large.get_bucket_count(), 255);
}

#[test]
fn one_step_is_one_attempt() {
    let mut sim = Simulation::new(Population::default(), SmallRng::seed_from_u64(5));
    sim.step();
    let total: u64 = sim.experiment().attempts.iter().sum();
    assert_eq!(total, 1);
    assert_funnel(&sim);
}

#[test]
fn a_million_steps_are_a_million_attempts() {
    let mut sim = Simulation::new(Population::default(), SmallRng::seed_from_u64(42));
    for _ in 0..1_000_000 {
        sim.step();
    }
    let total: u64 = sim.experiment().attempts.iter().sum();
    assert_eq!(total, 1_000_000);
    assert_funnel(&sim);
}

#[test]
fn default_population_funnels_a_tenth_at_each_stage() {
    let mut sim = Simulation::new(Population::default(), SmallRng::seed_from_u64(9));
    for _ in 0..200_000 {
        sim.step();
    }
    let successes: u64 = sim.experiment().successes.iter().sum();
    let reports: u64 = sim.experiment().reports.iter().sum();
    assert!(successes > 18_000 && successes < 22_000);
    assert!(reports > 1_600 && reports < 2_400);
    let oldest = sim.experiment().attempts[9];
    assert!(oldest > 11_000 && oldest < 15_500);
}

#[test]
fn no_susceptibility_no_success() {
    let mut sim = Simulation::new(uniform_population(4, 0, UNIT), SmallRng::seed_from_u64(3));
    for _ in 0..20_000 {
        sim.step();
    }
    let total: u64 = sim.experiment().attempts.iter().sum();
    assert_eq!(total, 20_000);
    assert_eq!(sim.experiment().successes, vec![0; 4]);
    assert_eq!(sim.experiment().reports, vec![0; 4]);
}

#[test]
fn certain_susceptibility_and_report_fill_the_funnel() {
    let mut sim = Simulation::new(uniform_population(4, UNIT, UNIT), SmallRng::seed_from_u64(3));
    for _ in 0..20_000 {
        sim.step();
    }
    let total: u64 = sim.experiment().attempts.iter().sum();
    assert_eq!(total, 20_000);
    assert_eq!(sim.experiment().successes, sim.experiment().attempts);
    assert_eq!(sim.experiment().reports, sim.experiment().attempts);
}

#[test]
fn certain_susceptibility_without_report() {
    let mut sim = Simulation::new(uniform_population(2, UNIT, 0), SmallRng::seed_from_u64(8));
    for _ in 0..5_000 {
        sim.step();
    }
    assert_eq!(sim.experiment().successes, sim.experiment().attempts);
    assert_eq!(sim.experiment().reports, vec![0; 2]);
}

#[test]
fn a_bucket_without_joint_weight_is_never_hit() {
    let population = Population {
        population_size: 10,
        num_buckets: 3,
        age_distribution: vec![1, 0, 2],
        targeting_probability: vec![5, 0, 5],
        exposure_probability: vec![0, 0, 9],
        scam_susceptibility: vec![UNIT / 2; 3],
        report_probability: vec![UNIT / 2; 3],
    };
    let mut sim = Simulation::new(population, SmallRng::seed_from_u64(77));
    for _ in 0..30_000 {
        sim.step();
    }
    let attempts = &sim.experiment().attempts;
    assert_eq!(attempts[1], 0);
    assert!(attempts[0] > 0);
    assert!(attempts[2] > attempts[0]);
    assert_eq!(attempts[0] + attempts[2], 30_000);
    assert_funnel(&sim);
}

#[test]
fn the_same_seed_gives_the_same_run() {
    let mut first = Simulation::new(Population::default(), SmallRng::seed_from_u64(123));
    let mut second = Simulation::new(Population::default(), SmallRng::seed_from_u64(123));
    for _ in 0..1_000 {
        first.step();
        second.step();
    }
    assert_eq!(first.experiment().attempts, second.experiment().attempts);
    assert_eq!(first.experiment().successes, second.experiment().successes);
    assert_eq!(first.experiment().reports, second.experiment().reports);
}

#[test]
fn commit_retires_the_experiment_and_keeps_the_population() {
    let mut sim = Simulation::new(uniform_population(2, UNIT, 0), SmallRng::seed_from_u64(4));
    for _ in 0..100 {
        sim.step();
    }
    let attempts = sim.experiment().attempts.clone();
    sim.commit(None);
    assert_eq!(sim.get_bucket_count(), 2);
    assert_eq!(sim.experiment().attempts, vec![0, 0]);
    assert_eq!(sim.experiment().successes, vec![0, 0]);
    assert_eq!(sim.experiment().reports, vec![0, 0]);
    assert_eq!(sim.previous_outcomes().len(), 1);
    let (population, outcome) = &sim.previous_outcomes()[0];
    assert_eq!(population.num_buckets, 2);
    assert_eq!(population.scam_susceptibility, vec![UNIT, UNIT]);
    assert_eq!(outcome.attempts, attempts);
    assert_eq!(outcome.successes, attempts);
    assert_eq!(outcome.reports, vec![0, 0]);
    assert_eq!(sim.population().scam_susceptibility, vec![UNIT, UNIT]);
}

#[test]
fn commit_with_a_replacement_starts_on_the_new_population() {
    let mut sim = Simulation::new(uniform_population(2, 0, 0), SmallRng::seed_from_u64(4));
    for _ in 0..50 {
        sim.step();
    }
    sim.commit(Some(uniform_population(5, UNIT, UNIT)));
    assert_eq!(sim.get_bucket_count(), 5);
    assert_eq!(sim.experiment().attempts, vec![0; 5]);
    for _ in 0..70 {
        sim.step();
    }
    sim.commit(None);
    assert_eq!(sim.previous_outcomes().len(), 2);
    let (first_population, first_outcome) = &sim.previous_outcomes()[0];
    let (second_population, second_outcome) = &sim.previous_outcomes()[1];
    assert_eq!(first_population.num_buckets, 2);
    assert_eq!(first_outcome.attempts.iter().sum::<u64>(), 50);
    assert_eq!(first_outcome.successes, vec![0, 0]);
    assert_eq!(second_population.num_buckets, 5);
    assert_eq!(second_outcome.attempts.iter().sum::<u64>(), 70);
    assert_eq!(second_outcome.reports, second_outcome.attempts);
    assert_eq!(sim.get_bucket_count(), 5);
    assert_eq!(sim.experiment().attempts, vec![0; 5]);
}
