//! The metrics as plain numbers, by contract and route.

use crate::store::KeyedStore;
use vstd::prelude::*;

verus! {

/// The metrics of the exporter. Flags are shown as 1 or 0.
pub struct RouterMetrics {
    /// Whether the last scrape of all contracts succeeded
    pub up: bool,
    pub core_total_routed: KeyedStore<String, u64>,
    pub core_paused: KeyedStore<String, bool>,
    pub core_route_paused: KeyedStore<(String, String), bool>,
    pub middleware_total_calls: KeyedStore<String, u64>,
    pub middleware_circuit_open: KeyedStore<(String, String), bool>,
    pub middleware_failure_count: KeyedStore<(String, String), u32>,
    pub registry_total_names: KeyedStore<String, u64>,
    pub quote_total_generated: KeyedStore<String, u64>,
    pub quote_total_fee_estimated: KeyedStore<String, u64>,
    pub execution_total_executions: KeyedStore<String, u64>,
    pub execution_total_errors: KeyedStore<String, u64>,
    pub execution_max_retries: KeyedStore<String, u64>,
    pub scrape_errors_total: KeyedStore<String, u64>,
}

/// What the metrics show.
#[verifier::ext_equal]
pub struct MetricsView {
    pub up: bool,
    pub core_total_routed: Map<Seq<char>, u64>,
    pub core_paused: Map<Seq<char>, bool>,
    pub core_route_paused: Map<(Seq<char>, Seq<char>), bool>,
    pub middleware_total_calls: Map<Seq<char>, u64>,
    pub middleware_circuit_open: Map<(Seq<char>, Seq<char>), bool>,
    pub middleware_failure_count: Map<(Seq<char>, Seq<char>), u32>,
    pub registry_total_names: Map<Seq<char>, u64>,
    pub quote_total_generated: Map<Seq<char>, u64>,
    pub quote_total_fee_estimated: Map<Seq<char>, u64>,
    pub execution_total_executions: Map<Seq<char>, u64>,
    pub execution_total_errors: Map<Seq<char>, u64>,
    pub execution_max_retries: Map<Seq<char>, u64>,
    pub scrape_errors_total: Map<Seq<char>, u64>,
}

impl View for RouterMetrics {
    type V = MetricsView;

    open spec fn view(&self) -> MetricsView {
        MetricsView {
            up: self.up,
            core_total_routed: self.core_total_routed@,
            core_paused: self.core_paused@,
            core_route_paused: self.core_route_paused@,
            middleware_total_calls: self.middleware_total_calls@,
            middleware_circuit_open: self.middleware_circuit_open@,
            middleware_failure_count: self.middleware_failure_count@,
            registry_total_names: self.registry_total_names@,
            quote_total_generated: self.quote_total_generated@,
            quote_total_fee_estimated: self.quote_total_fee_estimated@,
            execution_total_executions: self.execution_total_executions@,
            execution_total_errors: self.execution_total_errors@,
            execution_max_retries: self.execution_max_retries@,
            scrape_errors_total: self.scrape_errors_total@,
        }
    }
}

impl RouterMetrics {
    pub fn new() -> (r: Self)
        ensures
            r@ == (MetricsView {
                up: false,
                core_total_routed: Map::empty(),
                core_paused: Map::empty(),
                core_route_paused: Map::empty(),
                middleware_total_calls: Map::empty(),
                middleware_circuit_open: Map::empty(),
                middleware_failure_count: Map::empty(),
                registry_total_names: Map::empty(),
                quote_total_generated: Map::empty(),
                quote_total_fee_estimated: Map::empty(),
                execution_total_executions: Map::empty(),
                execution_total_errors: Map::empty(),
                execution_max_retries: Map::empty(),
                scrape_errors_total: Map::empty(),
            }),
    {
        RouterMetrics {
            up: false,
            core_total_routed: KeyedStore::new(),
            core_paused: KeyedStore::new(),
            core_route_paused: KeyedStore::new(),
            middleware_total_calls: KeyedStore::new(),
            middleware_circuit_open: KeyedStore::new(),
            middleware_failure_count: KeyedStore::new(),
            registry_total_names: KeyedStore::new(),
            quote_total_generated: KeyedStore::new(),
            quote_total_fee_estimated: KeyedStore::new(),
            execution_total_executions: KeyedStore::new(),
            execution_total_errors: KeyedStore::new(),
            execution_max_retries: KeyedStore::new(),
            scrape_errors_total: KeyedStore::new(),
        }
    }
}

} // verus!
