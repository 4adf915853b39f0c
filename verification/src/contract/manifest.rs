//! The parts of a contract manifest that the analyses read.
use vstd::prelude::*;

verus! {

/// A named, typed parameter.
#[derive(Debug)]
pub struct ManifestParameter {
    pub name: String,
    pub kind: String,
}

/// An ABI method.
#[derive(Debug)]
pub struct ManifestMethod {
    pub name: String,
    pub parameters: Vec<ManifestParameter>,
    pub return_type: String,
    pub offset: i32,
    pub safe: bool,
}

/// An ABI event.
#[derive(Debug)]
pub struct ManifestEvent {
    pub name: String,
    pub parameters: Vec<ManifestParameter>,
}

/// The ABI: methods and events.
#[derive(Debug)]
pub struct ContractAbi {
    pub methods: Vec<ManifestMethod>,
    pub events: Vec<ManifestEvent>,
}

/// Which contracts a permission covers.
#[derive(Debug)]
pub enum ManifestPermissionContract {
    /// Every contract (`*`).
    Wildcard(String),
    /// One contract by script hash.
    Hash(String),
    /// Contracts of a group, by public key.
    Group(String),
}

/// Which methods a permission covers.
#[derive(Debug)]
pub enum ManifestPermissionMethods {
    /// Every method (`*`).
    Wildcard(String),
    /// The listed methods.
    Methods(Vec<String>),
}

/// A call permission.
#[derive(Debug)]
pub struct ManifestPermission {
    pub contract: ManifestPermissionContract,
    pub methods: ManifestPermissionMethods,
}

/// A contract manifest.
#[derive(Debug)]
pub struct ContractManifest {
    pub name: String,
    pub supported_standards: Vec<String>,
    pub abi: ContractAbi,
    pub permissions: Vec<ManifestPermission>,
}

} // verus!
