use bifrost::error::GatewayError;

#[test]
fn gateway_errors_in_words() {
    assert_eq!(
        GatewayError::InvalidTransaction("bad".to_string()).message(),
        "Invalid transaction: bad"
    );
    assert_eq!(
        GatewayError::ConnectionFailed("refused".to_string()).message(),
        "Connection failed: refused"
    );
    assert_eq!(GatewayError::DeliveryTimeout.message(), "Delivery timeout");
    assert_eq!(GatewayError::PayloadTooLarge.message(), "payload too large");
    assert_eq!(GatewayError::NoLeaders.message(), "no leaders");
    assert_eq!(GatewayError::AlreadyConnecting.message(), "Already connecting");
    assert_eq!(GatewayError::PeerDialFailed.message(), "peer dial failed");
    assert_eq!(
        GatewayError::AllPeersFailed("last".to_string()).message(),
        "last"
    );
}
