//! Verified model of the Quorum governance token and governor contracts.

pub mod checkpoints;
pub mod deployment;
pub mod env;
pub mod governance;
pub mod token;
