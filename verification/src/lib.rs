//! Offline evaluation of load-balancing policies.
//!
//! A fixed pool of servers receives a stream of synthetic requests; a
//! discrete-event simulation decides, deterministically and reproducibly,
//! which server each request is routed to under a chosen selection
//! strategy, and aggregates per-server load statistics.

pub mod algorithms;
pub mod engine;
pub mod error;
pub mod events;
pub mod laws;
pub mod models;
pub mod output;
pub mod tie;
