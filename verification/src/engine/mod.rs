//! Core decompilation engine: decoding, lifting and analysis of Neo N3 bytecode.
pub mod decompiler;
pub mod disassembler;
pub mod ir;
pub mod lifter;
pub mod syscalls;
