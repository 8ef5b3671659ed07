//! Verified core of an NFT-gated reverse proxy: challenge nonces with single-use
//! consumption, per-address fixed-window rate limiting, the access-proof wire format,
//! the proxy's header rules and the decisions taken on Sui RPC replies.
//!
//! Network round-trips (Redis, the upstream HTTP exchange, Sui JSON-RPC) and serde
//! stand outside this crate; they hand the library plain values and act on what it returns.
mod clock;

pub mod access_proof;
pub mod challenge;
pub mod encoding;
pub mod proxy;
pub mod ratelimit;
pub mod sui_rpc;
pub mod table;
pub mod text;

pub use access_proof::AccessProof;
pub use challenge::InMemoryNonceStore;
pub use ratelimit::RateLimiter;
pub use sui_rpc::SuiRpc;
pub use table::KeyedTable;
