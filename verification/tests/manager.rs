use bifrost::error::GatewayError;
use bifrost::tpu_client::manager::{
    ConnectDecision, DialOutcome, PoolEntry, TpuConnectionManager, ALPN_TPU_PROTOCOL_ID,
    QUIC_KEEP_ALIVE_SECS, QUIC_MAX_TIMEOUT_SECS, SHUTDOWN_ERROR_CODE,
};

#[test]
fn test_manager_creation() {
    let manager = TpuConnectionManager::new();
    assert_eq!(manager.connection_count(), 0);
}

#[test]
fn test_connection_count() {
    let mut manager = TpuConnectionManager::new();
    assert_eq!(manager.connection_count(), 0);
    assert!(matches!(
        manager.get_or_create_connection("10.0.0.1:8001"),
        ConnectDecision::Dial
    ));
    assert_eq!(manager.connection_count(), 1);
    assert!(matches!(
        manager.get_or_create_connection("10.0.0.2:8002"),
        ConnectDecision::Dial
    ));
    assert_eq!(manager.connection_count(), 2);
}

#[test]
fn pool_settings() {
    assert_eq!(ALPN_TPU_PROTOCOL_ID, "solana-tpu");
    assert_eq!(QUIC_MAX_TIMEOUT_SECS, 5);
    assert_eq!(QUIC_KEEP_ALIVE_SECS, 4);
    assert_eq!(SHUTDOWN_ERROR_CODE, 0);
    assert!(PoolEntry::default().conn.is_none());
}

#[test]
fn lookup_of_an_unknown_socket_gives_nothing() {
    let mut manager = TpuConnectionManager::new();
    assert!(matches!(manager.get_connection("10.0.0.1:8001"), Ok(None)));
    assert_eq!(manager.connection_count(), 0);
}

#[test]
fn second_caller_is_told_that_a_dial_is_under_way() {
    let mut manager = TpuConnectionManager::new();
    assert!(matches!(
        manager.get_or_create_connection("10.0.0.1:8001"),
        ConnectDecision::Dial
    ));
    assert!(matches!(
        manager.get_or_create_connection("10.0.0.1:8001"),
        ConnectDecision::AlreadyConnecting
    ));
    // A lookup gives nothing while the dial is under way, and leaves the
    // mark where it is.
    assert!(matches!(manager.get_connection("10.0.0.1:8001"), Ok(None)));
    assert_eq!(manager.connection_count(), 1);
    assert!(matches!(
        manager.get_or_create_connection("10.0.0.1:8001"),
        ConnectDecision::AlreadyConnecting
    ));
    // Another socket is not held up.
    assert!(matches!(
        manager.get_or_create_connection("10.0.0.2:8001"),
        ConnectDecision::Dial
    ));
}

#[test]
fn failed_dial_takes_the_entry_out() {
    let mut manager = TpuConnectionManager::new();
    manager.get_or_create_connection("10.0.0.1:8001");
    manager.get_or_create_connection("10.0.0.2:8002");
    let result = manager.complete_connection("10.0.0.1:8001", DialOutcome::Failed);
    assert!(matches!(result, Err(GatewayError::PeerDialFailed)));
    assert_eq!(manager.connection_count(), 1);
    assert!(matches!(manager.get_connection("10.0.0.1:8001"), Ok(None)));
    // The other socket is still being dialled.
    assert!(matches!(manager.get_connection("10.0.0.2:8002"), Ok(None)));
    assert!(matches!(
        manager.get_or_create_connection("10.0.0.2:8002"),
        ConnectDecision::AlreadyConnecting
    ));
    // The next caller dials again.
    assert!(matches!(
        manager.get_or_create_connection("10.0.0.1:8001"),
        ConnectDecision::Dial
    ));
}

#[test]
fn close_all_empties_the_pool() {
    let mut manager = TpuConnectionManager::new();
    manager.get_or_create_connection("10.0.0.1:8001");
    manager.get_or_create_connection("10.0.0.2:8002");
    manager.close_all();
    assert_eq!(manager.connection_count(), 0);
    assert!(matches!(manager.get_connection("10.0.0.1:8001"), Ok(None)));
}

#[test]
fn fanout_passes_over_leaders_without_a_live_connection() {
    let mut manager = TpuConnectionManager::new();
    manager.get_or_create_connection("10.0.0.2:8002");
    let leaders = vec![
        ("ID_A".to_string(), "10.0.0.1:8001".to_string(), 10_000),
        ("ID_B".to_string(), "10.0.0.2:8002".to_string(), 10_000),
    ];
    assert!(manager.fanout_targets(&leaders).is_empty());
    assert!(manager.fanout_targets(&Vec::new()).is_empty());
}

#[test]
fn lookup_of_a_socket_that_is_being_dialled_changes_nothing() {
    let mut manager = TpuConnectionManager::new();
    manager.get_or_create_connection("10.0.0.1:8001");
    for _ in 0..3 {
        assert!(matches!(manager.get_connection("10.0.0.1:8001"), Ok(None)));
        assert_eq!(manager.connection_count(), 1);
        assert!(matches!(
            manager.get_or_create_connection("10.0.0.1:8001"),
            ConnectDecision::AlreadyConnecting
        ));
    }
}

#[test]
fn lookup_result_goes_by_the_entry() {
    let mut manager = TpuConnectionManager::new();
    manager.get_or_create_connection("10.0.0.1:8001");
    assert!(matches!(
        manager.lookup_result("10.0.0.1:8001", None, true),
        Ok(None)
    ));
    assert!(matches!(
        manager.lookup_result("10.0.0.1:8001", Some(PoolEntry::default()), false),
        Ok(None)
    ));
    assert!(matches!(
        manager.lookup_result("10.0.0.1:8001", Some(PoolEntry::default()), true),
        Ok(None)
    ));
    // Neither a missing entry nor a mark is taken out.
    assert_eq!(manager.connection_count(), 1);
    assert!(matches!(
        manager.get_or_create_connection("10.0.0.1:8001"),
        ConnectDecision::AlreadyConnecting
    ));
}

#[test]
fn connect_decision_goes_by_the_entry() {
    let mut manager = TpuConnectionManager::new();
    // An entry without a connection: a dial is under way.
    for open in [false, true] {
        assert!(matches!(
            manager.connect_decision("10.0.0.1:8001", Some(PoolEntry::default()), open),
            ConnectDecision::AlreadyConnecting
        ));
        assert_eq!(manager.connection_count(), 0);
    }
    // No entry: the caller dials, and the socket is marked.
    assert!(matches!(
        manager.connect_decision("10.0.0.1:8001", None, false),
        ConnectDecision::Dial
    ));
    assert_eq!(manager.connection_count(), 1);
    assert!(matches!(manager.get_connection("10.0.0.1:8001"), Ok(None)));
    assert!(matches!(
        manager.get_or_create_connection("10.0.0.1:8001"),
        ConnectDecision::AlreadyConnecting
    ));
}
