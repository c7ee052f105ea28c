//! The metrics exporter: what is scraped from the router contracts, and what the
//! replies do to the metrics.

pub mod auth;
pub mod cli;
pub mod collector;
pub mod gauges;
pub mod laws;
pub mod rpc;
