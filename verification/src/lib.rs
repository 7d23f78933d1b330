//! A user-space Homa transport: message-oriented, receiver-driven datagram
//! delivery for low-latency RPC traffic.
//!
//! The crate holds the protocol's decisions as verified functions over plain
//! values: the wire codec and its checksum, message splitting and reassembly,
//! the per-message sender and receiver state machines, the scheduled and
//! unscheduled priority rules, and the workload quantiles. Sockets, timers and
//! task plumbing live with the caller, which performs the actions these
//! functions return and feeds the resulting events back in.
pub mod config;

pub mod crc;
pub mod models;
pub mod utils;
pub mod components;
pub mod homa;
