//! Verified core of an RDMA-backed key-value exchange.
//!
//! The library covers the logic of the system: the queue-pair state machine
//! with its forward-only transition chain, the fixed-layout connection
//! descriptor exchanged during bootstrap, the zero-free wire encoding of
//! key-value operations into a fixed-capacity buffer, the key-value store
//! itself, and the send/receive/completion decisions of the data plane.
//! Adapter calls, sockets and front ends are left to an unverified shell
//! that feeds their raw results into the functions here.
use vstd::prelude::*;

pub mod cli;
pub mod codec;
pub mod context;
pub mod descriptor;
pub mod errors;
pub mod gid;
pub mod kv;
