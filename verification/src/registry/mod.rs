//! The central registry: contract addresses by name and version, with deprecation and
//! lookup of the latest version.

pub mod bulk;
pub mod bulk_laws;
pub mod constraint;
pub mod constraint_laws;
pub mod contract;
pub mod laws;
pub mod types;
