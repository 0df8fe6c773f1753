//! The contract benchmark: corpus model, selection, scoring and its command line.

pub mod aggregate;
pub mod baseline;
pub mod cli;
pub mod corpus;
pub mod model;
pub mod runner;
pub mod score;
pub mod selector;
pub mod source;
