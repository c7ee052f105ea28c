//! The exporter's configuration.

use vstd::prelude::*;

verus! {

/// What the exporter scrapes, and how. A contract whose ID is empty is not scraped.
#[derive(Debug, PartialEq)]
pub struct Args {
    /// Soroban RPC endpoint URL
    pub rpc_url: String,
    /// Stellar network passphrase
    pub network_passphrase: String,
    /// Contract ID of the deployed `router-core` contract
    pub core_contract_id: String,
    /// Contract ID of the deployed `router-middleware` contract
    pub middleware_contract_id: String,
    /// Contract ID of the deployed `router-registry` contract
    pub registry_contract_id: String,
    /// Contract ID of the deployed `router-quote` contract
    pub quote_contract_id: String,
    /// Contract ID of the deployed `router-execution` contract
    pub execution_contract_id: String,
    /// Seconds between two scrapes
    pub scrape_interval_secs: u64,
    /// Address and port to listen on for the `/metrics` endpoint
    pub listen: String,
    /// RPC request timeout in seconds
    pub rpc_timeout_secs: u64,
}

} // verus!
