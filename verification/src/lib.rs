//! Percas: the decision core of a distributed, content-addressed cache.
//!
//! The crate holds the consistent-hash ring, the cluster membership with its
//! merge rules, the gossip state machine, the request router and the plain
//! values that the data plane answers with. Its functions carry contracts
//! that are proved. Three calls leave the crate, and their contracts are
//! taken on trust: the MurmurHash3 sum in `ring`, the random draw in `gossip`
//! and the percent-decoding in `server`. Timers, sockets and the disk live
//! outside this crate and hand it plain values.

pub mod order;
pub mod slots;
pub mod ring;
pub mod node;
pub mod member;
pub mod gossip;
pub mod proxy;
pub mod metrics;
pub mod server;
pub mod ratelimit;
pub mod engine;
pub mod config;
pub mod addr;
pub mod client;

