//! Deterministic production analysis between source acquisition and contract graphs.

pub mod alignment;
pub mod analyze;
pub mod assembly;
pub mod candidate;
pub mod context;
pub mod discovery;
pub mod error;
pub mod json_schema;
pub mod rust_facts;
pub mod rust_projection;
pub mod serde_names;
pub mod stability;
