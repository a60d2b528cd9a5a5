//! The host-side logic of a GPU compute bridge: which commands are valid, how
//! queued jobs are drained and coalesced, how kernels are laid out over a grid
//! of threads, what the kernels compute, and how results find their way back
//! to the jobs that asked for them.
//!
//! Device access, threads and message passing live in the application around
//! this library; what they report comes in as plain values.

pub mod backend;
pub mod coalesce;
pub mod cuda;
pub mod device;
pub mod exact;
pub mod grid;
pub mod job;
pub mod kernels;
pub mod laws;
pub mod nif;
pub mod order;
pub mod promises;
pub mod queue;
pub mod scalar;
pub mod simulate;
pub mod text;
pub mod worker;
