//! The data model: targets, mutants, outcomes and what describes them.

pub mod config;
pub mod error;
pub mod hash;
pub mod mutant;
pub mod mutation;
pub mod outcome;
pub mod stats;
pub mod target;

pub use error::StoreError;
pub use hash::HashError;
pub use mutant::{Mutant, MutantView, PartialMutant, PartialMutantView};
pub use mutation::{Mutation, MutationSeverity};
pub use outcome::{Outcome, OutcomeView, Status, Timestamp};
pub use stats::{CampaignSeverityStats, SlugTally, TargetStats};
pub use target::{GenerateError, MutateError, Target, TargetView};
