# stellar_router

A verified library for a routing suite on the Stellar ledger: a dispatcher that resolves
contract names to addresses, a registry of contract versions, a timelock for sensitive
changes, a quote contract, an execution pipeline with retries, batches of calls, call
policies, and the services around them (an HTTP and WebSocket API, a metrics exporter).

Every function of the library carries a contract that Verus proves. What is taken on trust is
a few wrappers around other crates; the comment above each says what it claims.

- `src/router_core`, `src/registry`, `src/timelock`, `src/quote.rs`, `src/execution`,
  `src/multicall.rs`, `src/middleware`: the contracts as state machines over plain data.
  What comes from the ledger (the time, the outcome of a call, how it encodes a value) is an
  argument; what is published is appended to `events`.
- `src/api`, `src/metrics`: what requests are answered and how replies are read.
- `src/store.rs`, `src/text.rs`, `src/json.rs`, `src/common.rs`: what they share.
- `app`: the services themselves, and the entry points through which the ledger's host
  calls the contracts, ordinary Rust.
- `tests`: the library as its callers see it.
