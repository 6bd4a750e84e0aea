//! Tests of the validated client options.

use rumqtt::error::OptionsError;
use rumqtt::mqttoptions::{ConnectionMethod, MqttOptions, Proxy, ReconnectOptions};

#[test]
fn defaults() {
    let opts = MqttOptions::new();
    assert_eq!(opts.host(), &b"127.0.0.1".to_vec());
    assert_eq!(opts.port(), 1883);
    assert_eq!(opts.keep_alive(), 30);
    assert!(opts.clean_session());
    assert_eq!(opts.client_id(), &b"test-client".to_vec());
    assert_eq!(opts.max_packet_size(), 256 * 1024);
    assert_eq!(opts.reconnect_opts(), ReconnectOptions::AfterFirstSuccess(10));
    assert_eq!(opts.request_channel_capacity(), 10);
    assert_eq!(opts.notification_channel_capacity(), 10);
    assert_eq!(opts.outgoing_ratelimit(), None);
    assert_eq!(opts.outgoing_queuelimit(), (100, 3000));
    assert!(opts.last_will().is_none());
    assert!(matches!(opts.connection_method(), ConnectionMethod::Tcp));
    assert!(matches!(opts.proxy(), Proxy::NoProxy));
}

#[test]
fn client_id_startswith_space() {
    let built = MqttOptions::builder()
        .client_id(b" client_a".to_vec())
        .host(b"127.0.0.1".to_vec())
        .port(1883)
        .reconnect_opts(ReconnectOptions::Always(10))
        .clean_session(true)
        .build();
    assert_eq!(built.unwrap_err(), OptionsError::InvalidClientId);
}

#[test]
fn no_client_id() {
    let built = MqttOptions::builder()
        .client_id(b"".to_vec())
        .host(b"127.0.0.1".to_vec())
        .port(1883)
        .reconnect_opts(ReconnectOptions::Always(10))
        .clean_session(true)
        .build();
    assert_eq!(built.unwrap_err(), OptionsError::InvalidClientId);
}

#[test]
fn builder_accepts_valid_values() {
    let opts = MqttOptions::builder()
        .client_id(b"client_a".to_vec())
        .host(b"localhost".to_vec())
        .port(8883)
        .keep_alive(60)
        .max_packet_size(512)
        .clean_session(false)
        .outgoing_ratelimit(100)
        .outgoing_queuelimit(50, 1000)
        .build()
        .expect("valid options");
    assert_eq!(opts.client_id(), &b"client_a".to_vec());
    assert_eq!(opts.host(), &b"localhost".to_vec());
    assert_eq!(opts.port(), 8883);
    assert_eq!(opts.keep_alive(), 60);
    assert_eq!(opts.max_packet_size(), 512 * 1024);
    assert!(!opts.clean_session());
    assert_eq!(opts.outgoing_ratelimit(), Some(100));
    assert_eq!(opts.outgoing_queuelimit(), (50, 1000));
}

#[test]
fn short_keep_alive_refused() {
    let built = MqttOptions::builder().keep_alive(9).build();
    assert_eq!(built.unwrap_err(), OptionsError::InvalidKeepAlive);
    let mut opts = MqttOptions::new();
    assert_eq!(opts.set_keep_alive(9), Err(OptionsError::InvalidKeepAlive));
    assert_eq!(opts.set_keep_alive(10), Ok(()));
    assert_eq!(opts.keep_alive(), 10);
}

#[test]
fn zero_rate_limit_refused() {
    let built = MqttOptions::builder().outgoing_ratelimit(0).build();
    assert_eq!(built.unwrap_err(), OptionsError::InvalidRateLimit);
    let mut opts = MqttOptions::new();
    assert_eq!(opts.set_outgoing_ratelimit(0), Err(OptionsError::InvalidRateLimit));
}

#[test]
fn zero_queue_threshold_refused() {
    let built = MqttOptions::builder().outgoing_queuelimit(0, 500).build();
    assert_eq!(built.unwrap_err(), OptionsError::InvalidQueueLimit);
    let mut opts = MqttOptions::new();
    assert_eq!(opts.set_outgoing_queuelimit(0, 500), Err(OptionsError::InvalidQueueLimit));
}

#[test]
fn zero_max_packet_size_refused() {
    let built = MqttOptions::builder().max_packet_size(0).build();
    assert_eq!(built.unwrap_err(), OptionsError::InvalidMaxPacketSize);
    let mut opts = MqttOptions::new();
    assert_eq!(opts.set_max_packet_size(0), Err(OptionsError::InvalidMaxPacketSize));
    assert_eq!(opts.set_max_packet_size(1), Ok(()));
    assert_eq!(opts.max_packet_size(), 1024);
}

#[test]
fn setters_validate_client_id() {
    let mut opts = MqttOptions::new();
    assert_eq!(opts.set_client_id(b" x".to_vec()), Err(OptionsError::InvalidClientId));
    assert_eq!(opts.set_client_id(b"".to_vec()), Err(OptionsError::InvalidClientId));
    assert_eq!(opts.set_client_id(b"ok".to_vec()), Ok(()));
    assert_eq!(opts.client_id(), &b"ok".to_vec());
}
