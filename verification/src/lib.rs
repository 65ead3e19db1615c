//! Networking proxy for browser WASM: the policy engine, wire codecs, rate
//! limiter, connection pool, session decisions and server configuration,
//! verified.
pub mod text;
pub mod ip;
pub mod wire;
pub mod policy;
pub mod protocol;
pub mod binary;
pub mod proxy;
pub mod rate_limit;
pub mod pool;
pub mod server;
pub mod webtransport;

pub use server::{Server, ServerBuilder};
