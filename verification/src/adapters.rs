//! Source adapters that read syntax trees of other languages into facts.

pub mod java;
pub mod python;
pub mod syntax;
