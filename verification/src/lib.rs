//! A minimal hyperparameter-optimization engine: trial records, their
//! storage, a seeded sampler and the study that drives an objective.
//!
//! Every number that the engine records (a parameter, a bound, a score) is
//! held as the 64 bits of its IEEE 754 binary64 encoding. The engine orders
//! and stores such numbers; it performs no arithmetic on them.

pub mod number;
pub mod error;
pub mod params;
pub mod trial;
pub mod storage;
pub mod sampler;
pub mod study;

pub use crate::error::{ErrorKind, TrialError};
pub use crate::params::Params;
pub use crate::sampler::Sampler;
pub use crate::storage::Storage;
pub use crate::study::{Objective, Study, Trial, TrialFailure};
pub use crate::trial::{FrozenTrial, TrialState};
