//! Contract containers and the tables that name what scripts call: NEF files,
//! manifests, interop services and native contracts.
pub mod interop;
pub mod manifest;
pub mod native;
pub mod nef;
