//! A population-level simulation of how scam attempts spread over age groups.
//!
//! Every quantity is an integer. A weight is any `u64`; a share or a
//! probability is a count of parts out of [`UNIT`], so that `UNIT` stands for
//! the whole.

pub mod distribution;
pub mod funnel;
pub mod outcome;
pub mod population;
pub mod random;
pub mod rounding;
pub mod simulation;

pub use distribution::{
    join_and_normalize_probabilities, normalize_distribution, sample_from_distribution,
};
pub use outcome::Outcome;
pub use population::Population;
pub use simulation::Simulation;
