use bifrost::constants::{MAX_TRANSACTION_SIZE, PREWARM_SLOTS};
use bifrost::error::GatewayError;
use bifrost::server::session::{
    begin_stream, finish_stream, prewarm_targets, read_limit, response,
};
use bifrost::tpu_client::manager::{DeliveryConfirmation, TpuConnectionManager};
use bifrost::tpu_client::tracker::leader_tracker::{ClusterNode, LeaderTracker, NodeEndpoint};
use bifrost::tpu_client::tracker::schedule_tracking::{EpochInfo, ScheduleReply};
use bifrost::tpu_client::tracker::slots_tracker::SlotUpdate;
use std::time::Duration;

fn one_leader() -> Vec<(String, String, u64)> {
    vec![("ID_A".to_string(), "10.0.0.1:8001".to_string(), 10_000)]
}

#[test]
fn payload_of_exactly_the_limit_is_taken() {
    let payload = vec![7u8; MAX_TRANSACTION_SIZE];
    let taken = begin_stream(payload.clone(), MAX_TRANSACTION_SIZE, &one_leader()).unwrap();
    assert_eq!(taken, payload);
}

#[test]
fn payload_one_byte_over_the_limit_is_refused() {
    let payload = vec![7u8; MAX_TRANSACTION_SIZE + 1];
    let result = begin_stream(payload, MAX_TRANSACTION_SIZE, &one_leader());
    assert!(matches!(result, Err(GatewayError::PayloadTooLarge)));
    // Too large is told before the lack of leaders.
    let result = begin_stream(vec![0u8; 11], 10, &Vec::new());
    assert!(matches!(result, Err(GatewayError::PayloadTooLarge)));
}

#[test]
fn payload_is_handed_on_byte_for_byte() {
    let payload: Vec<u8> = (0..500u32).map(|i| (i * 7 % 251) as u8).collect();
    let taken = begin_stream(payload.clone(), MAX_TRANSACTION_SIZE, &one_leader()).unwrap();
    assert_eq!(taken.len(), 500);
    assert_eq!(taken, payload);
    let empty = begin_stream(Vec::new(), 0, &one_leader()).unwrap();
    assert_eq!(empty, Vec::<u8>::new());
}

#[test]
fn payload_without_leaders_is_refused() {
    let result = begin_stream(vec![1, 2, 3], MAX_TRANSACTION_SIZE, &Vec::new());
    assert!(matches!(result, Err(GatewayError::NoLeaders)));
    assert_eq!(response(&result.map(|_| confirmation())), "ERROR: no leaders");
}

fn confirmation() -> DeliveryConfirmation {
    DeliveryConfirmation {
        delivered: true,
        latency: Duration::from_millis(3),
    }
}

#[test]
fn response_is_ok_or_error_line() {
    assert_eq!(response(&Ok(confirmation())), "OK");
    assert_eq!(
        response(&Err(GatewayError::PayloadTooLarge)),
        "ERROR: payload too large"
    );
    assert_eq!(
        response(&Err(GatewayError::AllPeersFailed("stream reset".to_string()))),
        "ERROR: stream reset"
    );
    assert_eq!(
        response(&Err(GatewayError::InvalidTransaction("short".to_string()))),
        "ERROR: Invalid transaction: short"
    );
}

#[test]
fn one_delivered_write_means_ok() {
    let latency = Duration::from_millis(1);
    assert_eq!(finish_stream(&vec![Ok(())], latency), "OK");
    // Partial failure: A failed, B took the payload.
    assert_eq!(
        finish_stream(&vec![Err("A closed".to_string()), Ok(())], latency),
        "OK"
    );
    assert_eq!(
        finish_stream(&vec![Ok(()), Err("B closed".to_string())], latency),
        "OK"
    );
}

#[test]
fn no_delivered_write_means_error_with_the_last_failure() {
    let latency = Duration::from_millis(1);
    assert_eq!(finish_stream(&Vec::new(), latency), "ERROR: Failed sending TX");
    assert_eq!(
        finish_stream(&vec![Err("A closed".to_string())], latency),
        "ERROR: A closed"
    );
    let reply = finish_stream(
        &vec![Err("A closed".to_string()), Err("B reset".to_string())],
        latency,
    );
    assert_eq!(reply, "ERROR: B reset");
    assert!(reply.starts_with("ERROR:"));
}

#[test]
fn send_transaction_confirms_with_the_latency() {
    let latency = Duration::from_micros(1234);
    let confirmation =
        TpuConnectionManager::send_transaction(&vec![Err("x".to_string()), Ok(())], latency)
            .unwrap();
    assert!(confirmation.delivered);
    assert_eq!(confirmation.latency, latency);
    let error = TpuConnectionManager::send_transaction(&vec![Err("x".to_string())], latency)
        .unwrap_err();
    assert!(matches!(error, GatewayError::AllPeersFailed(text) if text == "x"));
    let error = TpuConnectionManager::send_transaction(&Vec::new(), latency).unwrap_err();
    assert!(matches!(error, GatewayError::AllPeersFailed(text) if text == "Failed sending TX"));
}

#[test]
fn prewarm_looks_forty_slots_ahead() {
    assert_eq!(PREWARM_SLOTS, 40);
    let entries: Vec<(String, Vec<usize>)> = (0..12usize)
        .map(|run| (format!("ID_{}", run), (4 * run..4 * run + 4).collect()))
        .collect();
    let nodes: Vec<ClusterNode> = (0..12u16)
        .map(|run| ClusterNode {
            pubkey: format!("ID_{}", run),
            gossip: Some(NodeEndpoint {
                ip: format!("10.0.0.{}", run),
                port: 8000,
            }),
            tpu_quic: Some(NodeEndpoint {
                ip: format!("10.1.0.{}", run),
                port: 8000 + run,
            }),
        })
        .collect();
    let mut tracker = LeaderTracker::new(
        Some(EpochInfo {
            absolute_slot: 10_000,
            slot_index: 0,
            slots_in_epoch: 432_000,
        }),
        ScheduleReply::Schedule(entries),
        ScheduleReply::Schedule(vec![("ID_NEXT".to_string(), vec![0])]),
    )
    .unwrap();
    tracker.update_leader_sockets(Some(nodes)).unwrap();
    tracker.handle_slot_event(SlotUpdate::FirstShredReceived {
        slot: 10_000,
        timestamp: 0,
    });
    let leaders = prewarm_targets(&tracker);
    assert_eq!(leaders, tracker.get_future_leaders(0, 40));
    assert_eq!(leaders.len(), 10);
    assert_eq!(
        leaders[9],
        ("ID_9".to_string(), "10.0.0.9:8009".to_string(), 10_000)
    );
}

fn tracker_with(schedule: Vec<(String, Vec<usize>)>, nodes: Vec<ClusterNode>) -> LeaderTracker {
    let mut tracker = LeaderTracker::new(
        Some(EpochInfo {
            absolute_slot: 10_000,
            slot_index: 0,
            slots_in_epoch: 432_000,
        }),
        ScheduleReply::Schedule(schedule),
        ScheduleReply::Schedule(vec![("ID_NEXT".to_string(), vec![0])]),
    )
    .unwrap();
    tracker.update_leader_sockets(Some(nodes)).unwrap();
    tracker.handle_slot_event(SlotUpdate::FirstShredReceived {
        slot: 10_000,
        timestamp: 0,
    });
    tracker
}

#[test]
fn clean_forward_with_one_leader() {
    let tracker = tracker_with(
        vec![("ID_A".to_string(), vec![0, 1, 2, 3])],
        vec![ClusterNode {
            pubkey: "ID_A".to_string(),
            gossip: Some(NodeEndpoint {
                ip: "10.0.0.1".to_string(),
                port: 8000,
            }),
            tpu_quic: Some(NodeEndpoint {
                ip: "10.0.0.1".to_string(),
                port: 8001,
            }),
        }],
    );
    let leaders = tracker.get_leaders();
    assert_eq!(
        leaders,
        vec![("ID_A".to_string(), "10.0.0.1:8001".to_string(), 10_000)]
    );
    let blob: Vec<u8> = (0..500u32).map(|i| (i % 256) as u8).collect();
    let payload = begin_stream(blob.clone(), MAX_TRANSACTION_SIZE, &leaders).unwrap();
    assert_eq!(payload.len(), 500);
    assert_eq!(payload, blob);
    // One stream to the one leader took the payload.
    let reply = finish_stream(&vec![Ok(())], Duration::from_millis(2));
    assert!(reply.starts_with("OK"));
}

#[test]
fn unknown_socket_means_no_leaders() {
    let tracker = tracker_with(
        vec![("ID_B".to_string(), vec![0, 1, 2, 3])],
        vec![ClusterNode {
            pubkey: "ID_A".to_string(),
            gossip: Some(NodeEndpoint {
                ip: "10.0.0.1".to_string(),
                port: 8000,
            }),
            tpu_quic: Some(NodeEndpoint {
                ip: "10.0.0.1".to_string(),
                port: 8001,
            }),
        }],
    );
    let leaders = tracker.get_leaders();
    assert!(leaders.is_empty());
    let refused = begin_stream(vec![1u8; 500], MAX_TRANSACTION_SIZE, &leaders);
    assert!(matches!(refused, Err(GatewayError::NoLeaders)));
    let reply = response(&refused.map(|_| confirmation()));
    assert!(reply.starts_with("ERROR: no leaders"));
}

#[test]
fn partial_peer_failure_is_still_ok() {
    // Two leaders A and B: the connection to A is closed, so that A is no
    // target; the write to B goes through.
    let mut pool = TpuConnectionManager::new();
    let leaders = vec![
        ("ID_A".to_string(), "10.0.0.1:8001".to_string(), 10_000),
        ("ID_B".to_string(), "10.0.0.2:8002".to_string(), 10_000),
    ];
    assert!(pool.fanout_targets(&leaders).is_empty());
    let reply = finish_stream(&vec![Ok(())], Duration::from_millis(2));
    assert_eq!(reply, "OK");
    // The write to A was tried and failed, the write to B went through.
    let reply = finish_stream(
        &vec![Err("connection lost".to_string()), Ok(())],
        Duration::from_millis(2),
    );
    assert_eq!(reply, "OK");
}

#[test]
fn read_limit_is_one_byte_past_the_size_limit() {
    assert_eq!(read_limit(MAX_TRANSACTION_SIZE), MAX_TRANSACTION_SIZE + 1);
    assert_eq!(read_limit(0), 1);
    assert_eq!(read_limit(usize::MAX - 1), usize::MAX);
    assert_eq!(read_limit(usize::MAX), usize::MAX);
}
