//! The HTTP and WebSocket API: what requests are answered, apart from the
//! transport itself.

pub mod connection_laws;
pub mod cors;
pub mod handlers;
pub mod laws;
pub mod rate_limit;
pub mod rpc;
pub mod service_laws;
pub mod state;
pub mod types;
pub mod websocket;
pub mod wire_laws;
pub mod xdr;
