//! Event ingestion and accounting engine of a per-thread Linux metric collector.
//!
//! The library turns the textual output of kernel tracing scripts into typed events,
//! reduces framed map dumps into per-interval deltas, attributes epoll waits to the
//! files registered on each epoll instance, and keeps per-thread cumulative counters
//! together with the names of the CSV files that hold them.
use vstd::prelude::*;

pub mod clock;
pub mod clone;
pub mod closure;
pub mod epoll;
pub mod frame;
pub mod futex;
pub mod futex_stats;
pub mod iowait;
pub mod iowait_stats;
pub mod ipc;
pub mod ipc_stats;
pub mod lits;
pub mod pieces;
pub mod procfs;
pub mod render;
pub mod roundtrip;
pub mod schedstat;
pub mod sink;
pub mod target;
pub mod text;
pub mod wire;

verus! {

} // verus!
