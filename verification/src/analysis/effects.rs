//! Effects of operations and storage key patterns.
use vstd::prelude::*;

use crate::common::types::ContractId;

verus! {

/// The shape of a storage key.
#[derive(Debug)]
pub enum KeyPattern {
    /// A fixed key.
    Exact(Vec<u8>),
    /// A fixed prefix followed by a computed part.
    Prefix(Vec<u8>),
    /// Any key.
    Wildcard,
    /// A key given by the named parameter.
    Parameterized(String),
    /// A key computed at run time.
    Dynamic,
}

/// An observable effect of code.
#[derive(Debug)]
pub enum Effect {
    Pure,
    StorageRead { key_pattern: KeyPattern },
    StorageWrite { key_pattern: KeyPattern },
    ContractCall { contract: ContractId, method: String, effects: Vec<Effect> },
    EventEmit { event_name: String },
    GasConsumption { amount: u64 },
    SystemStateRead,
    StateChange,
}

} // verus!
