pub mod api;
pub mod common;
pub mod common_laws;
pub mod data_laws;
pub mod execution;
pub mod json;
pub mod metrics;
pub mod middleware;
pub mod multicall;
pub mod multicall_laws;
pub mod quote;
pub mod quote_laws;
pub mod registry;
pub mod router_core;
pub mod store;
pub mod text;
pub mod text_laws;
pub mod timelock;
