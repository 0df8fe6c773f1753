//! Deterministic contract-evidence analysis and benchmark scoring.

pub mod text;
pub mod order;
pub mod benchmark;
pub mod model;
pub mod analysis;
pub mod acquisition;
pub mod adapters;
pub mod cli;
pub mod json;
pub mod registry;
pub mod render;
