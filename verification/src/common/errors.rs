//! Error types of the decoder, the lifter and the analyses.
use vstd::prelude::*;

verus! {

/// Errors of bytecode decoding.
#[derive(Debug, Clone, PartialEq, Eq)]
pub enum DisassemblyError {
    /// The bytes end inside an instruction.
    TruncatedInstruction { offset: u32 },
    /// The byte names no opcode.
    UnknownOpcode { opcode: u8, offset: u32 },
    /// The operand holds a value that the opcode does not accept.
    InvalidOperand { opcode: String, offset: u32 },
}

/// Errors of lifting instructions to the intermediate representation.
#[derive(Debug, Clone, PartialEq, Eq)]
pub enum LiftError {
    /// An instruction needs more stack items than the simulated stack holds.
    StackUnderflow { offset: u32 },
    /// An instruction lacks the operand its opcode needs.
    InvalidOperand { offset: u32 },
    /// A jump or block mapping does not resolve.
    InvalidControlFlow { offset: u32 },
}

/// Errors of the analysis passes.
#[derive(Debug, Clone, PartialEq, Eq)]
pub enum AnalysisError {
    /// A contract hash literal has the wrong size or is not hexadecimal.
    InvalidContractHash { expected_length: usize, actual_length: usize },
    /// Control-flow graph construction or validation failed.
    CFGError(String),
    /// An analysis gave up.
    AnalysisFailure(String),
}

/// Errors of configuration loading.
#[derive(Debug, Clone, PartialEq, Eq)]
pub enum ConfigError {
    /// A definition could not be used.
    InvalidDefinition(String),
}

} // verus!
