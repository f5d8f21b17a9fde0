//! Sampling, caching and wire-protocol core of a remote system monitor.
//!
//! The agent side keeps per-resource TTL caches, derives per-process CPU
//! shares from cumulative tick counters, remembers whether a GPU is present,
//! and frames replies for the wire; the client side drives a bounded request
//! loop that tolerates stray replies.
pub mod args;
pub mod cache;
pub mod cli;
pub mod client;
pub mod cpu;
pub mod gpu;
pub mod history;
pub mod icons;
pub mod scroll;
pub mod procfs;
pub mod profiles;
pub mod proto;
pub mod session;
pub mod types;
pub mod wire;

pub use cache::CacheEntry;
