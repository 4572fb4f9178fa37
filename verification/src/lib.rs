//! A caching HTTP relay library: a seen-before admission filter, a byte-range
//! parser, request metrics, a concurrent-ready cache store with a streaming
//! fan-out buffer, and the decision logic of an ordered mirror-fallback client
//! and of the request handler.

pub mod bloom;
pub mod cache;
pub mod decimal;
pub mod handler;
pub mod hclient;
pub mod metrics;
pub mod ranges;
