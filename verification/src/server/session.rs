//! The rules for one client stream: which payload is taken, and what the
//! client is told.
//!
//! A stream carries one transaction. The payload is forwarded as it came, to
//! each leader to which a live connection stands; the client gets one line,
//! `OK` if a leader took the payload and `ERROR: ` with a reason if none did.
//!
//! The payload is not looked into. Whether its bytes make up a transaction
//! is for the leader to say: a payload within the size limit is forwarded
//! whatever it holds.
use crate::constants::PREWARM_SLOTS;
use crate::error::GatewayError;
use crate::tpu_client::manager::{
    any_delivered,
    last_failure,
    DeliveryConfirmation,
    TpuConnectionManager,
};
use crate::tpu_client::tracker::leader_tracker::{future_leaders, leader_model, LeaderTracker};
use std::time::Duration;
use vstd::prelude::*;
use vstd::string::StringExecFns;

verus! {

/// What the client is told of a delivery.
pub open spec fn response_text(result: Result<DeliveryConfirmation, GatewayError>) -> Seq<char> {
    match result {
        Ok(_) => "OK"@,
        Err(error) => "ERROR: "@ + error.message_text(),
    }
}

/// What the client is told once the writes to the leaders have ended.
pub open spec fn reply_text(outcomes: Seq<Result<(), String>>) -> Seq<char> {
    if any_delivered(outcomes) {
        "OK"@
    } else {
        "ERROR: "@ + last_failure(outcomes)
    }
}

/// The client is told `OK` if one of the writes went through, and a line
/// that begins with `ERROR:` if none did.
pub proof fn lemma_reply_tells_delivery(outcomes: Seq<Result<(), String>>)
    ensures
        any_delivered(outcomes) ==> "OK"@.is_prefix_of(reply_text(outcomes)),
        !any_delivered(outcomes) ==> "ERROR:"@.is_prefix_of(reply_text(outcomes)) && !"OK"@.is_prefix_of(
            reply_text(outcomes),
        ),
{
    reveal_strlit("OK");
    reveal_strlit("ERROR:");
    reveal_strlit("ERROR: ");
    if !any_delivered(outcomes) {
        let reply = reply_text(outcomes);
        assert(reply.len() >= 7);
        assert(reply[0] == 'E');
        assert("OK"@[0] == 'O');
        assert("ERROR:"@ =~= reply.subrange(0, 6));
        if "OK"@.is_prefix_of(reply) {
            assert(reply.subrange(0, 2)[0] == 'O');
        }
    }
}

/// How many bytes are read from a client's stream at the most: one more
/// than a transaction may have, so that a payload that is too long is told
/// from one that just fits.
pub fn read_limit(max_transaction_size: usize) -> (limit: usize)
    ensures
        limit == if max_transaction_size == usize::MAX {
            max_transaction_size
        } else {
            (max_transaction_size + 1) as usize
        },
{
    if max_transaction_size == usize::MAX {
        max_transaction_size
    } else {
        max_transaction_size + 1
    }
}

/// Checks a client's payload and the leaders found for it, and hands the
/// payload on as it came.
///
/// A payload longer than `max_transaction_size` is refused; one of exactly
/// that length is taken. A payload for which no leader is known is refused.
pub fn begin_stream(
    payload: Vec<u8>,
    max_transaction_size: usize,
    leaders: &Vec<(String, String, u64)>,
) -> (result: Result<Vec<u8>, GatewayError>)
    ensures
        result == if payload@.len() > max_transaction_size {
            Err::<Vec<u8>, _>(GatewayError::PayloadTooLarge)
        } else if leaders@.len() == 0 {
            Err::<Vec<u8>, _>(GatewayError::NoLeaders)
        } else {
            Ok::<_, GatewayError>(payload)
        },
{
    if payload.len() > max_transaction_size {
        return Err(GatewayError::PayloadTooLarge);
    }
    if leaders.len() == 0 {
        return Err(GatewayError::NoLeaders);
    }
    Ok(payload)
}

/// The line that tells the client of a delivery: `OK`, or `ERROR: ` and the
/// error in words.
pub fn response(result: &Result<DeliveryConfirmation, GatewayError>) -> (reply: String)
    ensures
        reply@ == response_text(*result),
{
    match result {
        Ok(_) => String::from_str("OK"),
        Err(error) => {
            let message = error.message();
            String::from_str("ERROR: ").concat(message.as_str())
        },
    }
}

/// The line for the client once the writes to the leaders have ended, each
/// with its outcome in `outcomes`.
pub fn finish_stream(outcomes: &Vec<Result<(), String>>, latency: Duration) -> (reply: String)
    ensures
        reply@ == reply_text(outcomes@),
{
    let result = TpuConnectionManager::send_transaction(outcomes, latency);
    response(&result)
}

/// The leaders to which connections are opened ahead of time.
pub fn prewarm_targets(tracker: &LeaderTracker) -> (leaders: Vec<(String, String, u64)>)
    ensures
        leader_model(leaders@) == future_leaders(
            tracker.schedule(),
            tracker.sockets(),
            tracker.slot(),
            0,
            PREWARM_SLOTS,
        ),
{
    tracker.get_future_leaders(0, PREWARM_SLOTS)
}

} // verus!
