//! The NEF container of a compiled contract.
use vstd::prelude::*;

verus! {

/// NEF header: magic, compiler identifier and source reference.
#[derive(Debug)]
pub struct NefHeader {
    pub magic: [u8; 4],
    pub compiler: String,
    pub source: String,
}

/// A static call to another contract's method.
#[derive(Debug)]
pub struct MethodToken {
    /// Script hash of the called contract, little-endian.
    pub hash: [u8; 20],
    pub method: String,
    pub parameters_count: u16,
    pub has_return_value: bool,
    pub call_flags: u8,
}

/// A NEF file.
#[derive(Debug)]
pub struct NefFile {
    pub header: NefHeader,
    pub method_tokens: Vec<MethodToken>,
    pub script: Vec<u8>,
    pub checksum: u32,
}

} // verus!
