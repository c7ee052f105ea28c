//! Per-route call policies: rate limits, circuit breakers and call logs.

pub mod call_log;
pub mod circuit_breaker;
pub mod laws;
pub mod rate_limit;
pub mod types;
