//! Normalised visual odometry: the parts of the pipeline that work on
//! identifiers, indices and flags.
pub mod types;
pub mod features;
pub mod motion;
pub mod mapping;
pub mod optimization;
