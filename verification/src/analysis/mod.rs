//! Type and effect vocabulary of the analysis passes.
pub mod effects;
pub mod patterns;
pub mod types;
pub mod value_types;
pub mod xrefs;
