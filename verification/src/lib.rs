//! Verified core of a Neo N3 smart-contract decompiler: bytecode decoding,
//! lifting to an intermediate representation, control-flow graphs and
//! contract pattern identification.
pub mod analysis;
pub mod cfg;
pub mod common;
pub mod contract;
pub mod engine;
pub mod text;
