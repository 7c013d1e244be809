//! # Bifrost
//!
//! The decision core of a transaction-forwarding gateway between
//! WebTransport clients and the Solana validator network.
//!
//! The gateway accepts serialized transaction blobs from clients and relays
//! each blob, unmodified, to the TPU of the validators that lead the next
//! few slots. This crate holds what the gateway decides:
//!
//! - the slot tracker, which estimates the current slot from slot events,
//! - the schedule tracker, which holds the leader schedule of the current
//!   and the next epoch and rotates it at the epoch's end,
//! - the leader tracker, which names the leaders of the slots to come with
//!   their sockets,
//! - the pool of connections to those sockets, with at most one dial per
//!   socket under way,
//! - the rules for one client stream: which payload is taken and what the
//!   client is told.
//!
//! Sockets, timers and the cluster's RPC are the caller's business: the
//! caller hands in what it read and carries out what it is told.
//!
//! Each function is verified against its contract. The calls into `dashmap`,
//! `quinn` and `rustls_pemfile` stand in small wrappers (in
//! `tpu_client::manager` and `server::cert`) whose contracts are stated and
//! not proved.
use vstd::prelude::*;

pub mod constants;
pub mod error;
pub mod server;
pub mod tpu_client;

pub use tpu_client::LeaderTracker;
pub use tpu_client::TpuConnectionManager;

verus! {

/// The cluster's unit of time.
pub type Slot = u64;

} // verus!
