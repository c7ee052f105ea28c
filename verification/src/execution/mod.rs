//! The execution pipeline: simulation before execution, retries with backoff, fee
//! estimates and a history of what was executed.

pub mod contract;
pub mod laws;
pub mod run;
pub mod types;
