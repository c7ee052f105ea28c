//! The central dispatcher: routes by name, with aliases, pausing, expiry,
//! metadata, dependencies and score-based selection.

pub mod batch;
pub mod batch_laws;
pub mod contract;
pub mod dependencies;
pub mod dependency_order;
pub mod laws;
pub mod metadata;
pub mod registration_laws;
pub mod removal;
pub mod routing;
pub mod scoring;
pub mod selection_laws;
pub mod types;
