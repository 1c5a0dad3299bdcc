//! An in-process transport layer: independently addressable channels grouped
//! under heartbeat-tracked sessions, with bounded FIFO queues and an explicit
//! backpressure model for the case where a consumer cannot keep up.
//!
//! Every operation on the registries is specified by a contract and verified;
//! the surrounding process glue (clocks, sockets, persistence) stays outside
//! and hands plain values in.

pub mod backpressure;
pub mod config;
pub mod errors;
pub mod memory;
pub mod text;
pub mod transport;
