//! The gateway's errors.
use vstd::prelude::*;
use vstd::string::StringExecFns;

verus! {

/// What can go wrong while a client's transaction is handled.
#[derive(Debug)]
pub enum GatewayError {
    /// The payload is no transaction.
    InvalidTransaction(String),
    /// A connection could not be made or used.
    ConnectionFailed(String),
    /// The delivery took too long.
    DeliveryTimeout,
    /// The payload is longer than a transaction may be.
    PayloadTooLarge,
    /// No leader is known for the slots to come.
    NoLeaders,
    /// A connection was asked for while a dial to the same socket is under
    /// way.
    AlreadyConnecting,
    /// The dial to a leader's socket failed.
    PeerDialFailed,
    /// No leader took the payload; the text tells of the last failure.
    AllPeersFailed(String),
}

impl GatewayError {
    /// The error in words.
    pub open spec fn message_text(self) -> Seq<char> {
        match self {
            GatewayError::InvalidTransaction(text) => "Invalid transaction: "@ + text@,
            GatewayError::ConnectionFailed(text) => "Connection failed: "@ + text@,
            GatewayError::DeliveryTimeout => "Delivery timeout"@,
            GatewayError::PayloadTooLarge => "payload too large"@,
            GatewayError::NoLeaders => "no leaders"@,
            GatewayError::AlreadyConnecting => "Already connecting"@,
            GatewayError::PeerDialFailed => "peer dial failed"@,
            GatewayError::AllPeersFailed(text) => text@,
        }
    }

    /// The error in words.
    pub fn message(&self) -> (text: String)
        ensures
            text@ == self.message_text(),
    {
        match self {
            GatewayError::InvalidTransaction(text) => String::from_str(
                "Invalid transaction: ",
            ).concat(text.as_str()),
            GatewayError::ConnectionFailed(text) => String::from_str("Connection failed: ").concat(
                text.as_str(),
            ),
            GatewayError::DeliveryTimeout => String::from_str("Delivery timeout"),
            GatewayError::PayloadTooLarge => String::from_str("payload too large"),
            GatewayError::NoLeaders => String::from_str("no leaders"),
            GatewayError::AlreadyConnecting => String::from_str("Already connecting"),
            GatewayError::PeerDialFailed => String::from_str("peer dial failed"),
            GatewayError::AllPeersFailed(text) => text.clone(),
        }
    }
}

/// Why a leader schedule could not be had.
#[derive(Debug, Clone, Copy, PartialEq, Eq, Structural)]
pub enum FetchError {
    /// The request to the cluster failed.
    RpcFailed,
    /// The cluster holds no schedule for the epoch.
    NoSchedule,
    /// The schedule names no leader.
    EmptySchedule,
    /// The epoch to fetch would begin past the last slot.
    SlotOutOfRange,
}

/// Why the schedule tracker could not be set up.
#[derive(Debug, Clone, Copy, PartialEq, Eq, Structural)]
pub enum InitError {
    /// The cluster did not report its epoch.
    EpochInfoUnavailable,
    /// The epoch is reported without slots.
    InvalidSlotsInEpoch,
    /// The reported slot index lies outside the epoch.
    SlotIndexOutOfRange,
    /// The epoch's boundaries do not fit the range of slots.
    EpochOutOfRange,
    /// The current epoch's schedule could not be had.
    CurrentSchedule(FetchError),
    /// The next epoch's schedule could not be had.
    NextSchedule(FetchError),
}

/// A failure of one of the tasks that keep the trackers up to date. The
/// trackers keep serving what they last knew.
#[derive(Debug, Clone, Copy, PartialEq, Eq, Structural)]
pub enum BackgroundFault {
    /// The cluster did not report its nodes.
    SocketRefreshFailed,
    /// The schedule of the epoch after the next could not be had.
    RotationFailed(FetchError),
}

} // verus!
