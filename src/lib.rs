//! Pairwise-comparison survey engine: which sample pairs a participant still has
//! to judge, how those pairs are presented, and how a complete set of judgments
//! is turned into a ranking of the samples.
pub mod cfg;
pub mod judgment;
pub mod matrix;
pub mod pairs;
pub mod present;
pub mod priority;
pub mod ranking;
pub mod serde_enum;
pub mod submit;
pub mod model;
