use scam_simulation::distribution::UNIT;
use scam_simulation::population::Population;

fn small_population() -> Population {
    Population {
        population_size: 1000,
        num_buckets: 2,
        age_distribution: vec![1, 3],
        targeting_probability: vec![1, 1],
        exposure_probability: vec![2, 2],
        scam_susceptibility: vec![0, UNIT],
        report_probability: vec![UNIT / 2, UNIT],
    }
}

#[test]
fn default_population_has_ten_buckets() {
    let population = Population::default();
    assert_eq!(population.population_size, 340_000_000);
    assert_eq!(population.num_buckets, 10);
    assert_eq!(
        population.age_distribution,
        vec![
            12_316_097_130,
            12_848_845_100,
            13_729_050_800,
            13_372_652_270,
            12_310_239_370,
            12_800_133_100,
            11_699_490_680,
            7_241_426_087,
            3_682_065_385,
            0
        ]
    );
    assert_eq!(population.targeting_probability, vec![UNIT / 10; 10]);
    assert_eq!(population.exposure_probability, vec![UNIT / 10; 10]);
    assert_eq!(population.scam_susceptibility, vec![UNIT / 10; 10]);
    assert_eq!(population.report_probability, vec![UNIT / 10; 10]);
}

#[test]
fn default_population_is_valid() {
    assert!(Population::default().is_valid());
}

#[test]
fn small_population_is_valid() {
    assert!(small_population().is_valid());
}

#[test]
fn population_with_a_short_vector_is_invalid() {
    let mut population = small_population();
    population.age_distribution = vec![4];
    assert!(!population.is_valid());
    let mut population = small_population();
    population.targeting_probability = vec![1, 1, 1];
    assert!(!population.is_valid());
    let mut population = small_population();
    population.exposure_probability = vec![];
    assert!(!population.is_valid());
    let mut population = small_population();
    population.scam_susceptibility = vec![0];
    assert!(!population.is_valid());
    let mut population = small_population();
    population.report_probability = vec![0, 0, 0];
    assert!(!population.is_valid());
    let mut population = small_population();
    population.num_buckets = 3;
    assert!(!population.is_valid());
}

#[test]
fn population_without_weight_is_invalid() {
    let mut population = small_population();
    population.age_distribution = vec![0, 0];
    assert!(!population.is_valid());
    let mut population = small_population();
    population.targeting_probability = vec![0, 0];
    assert!(!population.is_valid());
    let mut population = small_population();
    population.exposure_probability = vec![0, 0];
    assert!(!population.is_valid());
}

#[test]
fn population_with_the_largest_weights_is_valid() {
    let mut population = small_population();
    population.exposure_probability = vec![u64::MAX, u64::MAX];
    assert!(population.is_valid());
}

#[test]
fn new_population_counts_its_buckets() {
    let made = Population::new(
        77,
        vec![1, 2, 3],
        vec![4, 5, 6],
        vec![7, 8, 9],
        vec![0, UNIT / 4, UNIT],
        vec![UNIT, 0, 1],
    );
    let population = made.expect("the vectors make a valid population");
    assert_eq!(population.population_size, 77);
    assert_eq!(population.num_buckets, 3);
    assert_eq!(population.age_distribution, vec![1, 2, 3]);
    assert_eq!(population.targeting_probability, vec![4, 5, 6]);
    assert_eq!(population.exposure_probability, vec![7, 8, 9]);
    assert_eq!(population.scam_susceptibility, vec![0, UNIT / 4, UNIT]);
    assert_eq!(population.report_probability, vec![UNIT, 0, 1]);
    assert!(population.is_valid());
}

#[test]
fn new_population_refuses_vectors_of_different_lengths() {
    assert!(Population::new(1, vec![1, 1], vec![1], vec![1, 1], vec![0, 0], vec![0, 0]).is_none());
    assert!(Population::new(1, vec![1], vec![1, 1], vec![1], vec![0], vec![0]).is_none());
    assert!(Population::new(1, vec![1], vec![1], vec![1], vec![0, 0], vec![0]).is_none());
    assert!(Population::new(1, vec![1], vec![1], vec![1], vec![0], vec![]).is_none());
    assert!(Population::new(1, vec![], vec![], vec![], vec![], vec![]).is_none());
}

#[test]
fn new_population_refuses_weights_without_total_and_large_probabilities() {
    assert!(Population::new(1, vec![0, 0], vec![1, 1], vec![1, 1], vec![0, 0], vec![0, 0]).is_none());
    assert!(Population::new(1, vec![1, 1], vec![1, 1], vec![0, 0], vec![0, 0], vec![0, 0]).is_none());
    assert!(Population::new(1, vec![1], vec![1], vec![1], vec![UNIT + 1], vec![0]).is_none());
    assert!(Population::new(1, vec![1], vec![1], vec![1], vec![UNIT], vec![UNIT + 1]).is_none());
    assert!(Population::new(1, vec![1], vec![1], vec![1], vec![UNIT], vec![UNIT]).is_some());
}

#[test]
fn new_population_takes_at_most_255_buckets() {
    let most = Population::new(
        1,
        vec![1; 255],
        vec![1; 255],
        vec![1; 255],
        vec![0; 255],
        vec![0; 255],
    );
    assert_eq!(most.expect("255 buckets are valid").num_buckets, 255);
    let beyond = Population::new(
        1,
        vec![1; 256],
        vec![1; 256],
        vec![1; 256],
        vec![0; 256],
        vec![0; 256],
    );
    assert!(beyond.is_none());
}

#[test]
fn population_without_buckets_is_invalid() {
    let population = Population {
        population_size: 0,
        num_buckets: 0,
        age_distribution: vec![],
        targeting_probability: vec![],
        exposure_probability: vec![],
        scam_susceptibility: vec![],
        report_probability: vec![],
    };
    assert!(!population.is_valid());
}

#[test]
fn population_with_a_probability_above_the_unit_is_invalid() {
    let mut population = small_population();
    population.scam_susceptibility = vec![0, UNIT + 1];
    assert!(!population.is_valid());
    let mut population = small_population();
    population.report_probability = vec![u64::MAX, 0];
    assert!(!population.is_valid());
}

#[test]
fn clone_copies_every_field() {
    let population = small_population();
    let copy = population.clone();
    assert_eq!(copy.population_size, 1000);
    assert_eq!(copy.num_buckets, 2);
    assert_eq!(copy.age_distribution, vec![1, 3]);
    assert_eq!(copy.targeting_probability, vec![1, 1]);
    assert_eq!(copy.exposure_probability, vec![2, 2]);
    assert_eq!(copy.scam_susceptibility, vec![0, UNIT]);
    assert_eq!(copy.report_probability, vec![UNIT / 2, UNIT]);
}
