//! A minimal HTTP gateway core over a remote key-value backend.
//!
//! The crate verifies the gateway's request-handling path: the store-client
//! interface and its in-memory implementation, the shared-state access
//! discipline, the JSON request/response bodies, and the mapping from
//! failures to HTTP replies. Network transport (the HTTP listener and the
//! backend protocol) lives outside this crate and hands plain byte values in
//! and out.

pub mod gateway;
pub mod json;
pub mod store;
