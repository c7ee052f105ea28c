//! The timelock: a queue of operations that can be executed only after a delay, and only
//! within a grace period.

pub mod chains;
pub mod contract;
pub mod laws;
pub mod op_id;
pub mod queries;
pub mod types;
