//! The gateway's settings.
use vstd::prelude::*;

verus! {

/// The longest payload that a client may send on one stream, in bytes: what
/// fits into one packet to a TPU.
pub const MAX_TRANSACTION_SIZE: usize = 1232;

/// How many slots ahead the gateway opens connections to leaders: ten runs
/// of four slots.
pub const PREWARM_SLOTS: u64 = 40;

/// Seconds between two rounds of opening connections ahead.
pub const PREWARM_INTERVAL_SECS: u64 = 2;

/// Seconds between two refreshes of the leaders' sockets.
pub const SOCKET_REFRESH_INTERVAL_SECS: u64 = 60;

} // verus!
