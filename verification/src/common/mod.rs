//! Vocabulary shared by the decoder, the lifter and the analyses.
pub mod config;
pub mod errors;
pub mod opcode;
pub mod types;
