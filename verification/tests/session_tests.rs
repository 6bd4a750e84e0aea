//! Tests of the session state machine and the event-loop decisions.

use rumqtt::connection::{
    check_and_validate_connack, handle_notification, keep_alive_tick, network_error_of_state,
    outgoing_throttle_delay, reconnect_decision, request_to_packet, should_forward_packet,
    validate_userrequest, Notification, PingDecision, ReconnectDecision, Request, TokenBucket,
};
use rumqtt::error::{ConnectError, NetworkError, StateError};
use rumqtt::mqttoptions::{MqttOptions, ReconnectOptions, SecurityOptions};
use rumqtt::mqttstate::{MqttConnectionStatus, MqttState};
use rumqtt::packet::{Connack, Packet, Publish, QoS};

fn publish(qos: QoS, payload: &[u8]) -> Publish {
    Publish {
        dup: false,
        qos,
        retain: false,
        topic_name: b"a".to_vec(),
        pkid: None,
        payload: payload.to_vec(),
    }
}

fn connected_state() -> MqttState {
    let mut state = MqttState::new(MqttOptions::new());
    state.connection_status = MqttConnectionStatus::Connected;
    state
}

#[test]
fn qos1_round_trip() {
    let mut state = connected_state();
    let out = state
        .handle_outgoing_mqtt_packet(Packet::Publish(publish(QoS::AtLeastOnce, b"x")), 0)
        .expect("publish accepted");
    match out {
        Packet::Publish(p) => {
            assert_eq!(p.pkid, Some(1));
            assert!(!p.dup);
            assert_eq!(p.topic_name, b"a".to_vec());
            assert_eq!(p.payload, b"x".to_vec());
        }
        other => panic!("expected a publish, got {:?}", other),
    }
    assert_eq!(state.outgoing_pub.len(), 1);
    let (notification, reply) = state
        .handle_incoming_mqtt_packet(Packet::Puback(1), 1)
        .expect("acknowledgement accepted");
    assert_eq!(notification, Notification::PubAck(1));
    assert!(matches!(reply, Request::Noop));
    assert!(state.outgoing_pub.is_empty());
}

#[test]
fn qos2_round_trip() {
    let mut state = connected_state();
    let out = state
        .handle_outgoing_mqtt_packet(Packet::Publish(publish(QoS::ExactlyOnce, b"x")), 0)
        .expect("publish accepted");
    match out {
        Packet::Publish(p) => assert_eq!(p.pkid, Some(1)),
        other => panic!("expected a publish, got {:?}", other),
    }
    let (_, reply) = state
        .handle_incoming_mqtt_packet(Packet::Pubrec(1), 1)
        .expect("record accepted");
    assert!(matches!(reply, Request::PubRel(1)));
    assert!(state.outgoing_pub.is_empty());
    assert_eq!(state.outgoing_rel, vec![1]);
    let (notification, _) = state
        .handle_incoming_mqtt_packet(Packet::Pubcomp(1), 2)
        .expect("completion accepted");
    assert_eq!(notification, Notification::PubComp(1));
    assert!(state.outgoing_rel.is_empty());
}

#[test]
fn replay_after_non_clean_resume() {
    let mut opts = MqttOptions::new();
    opts.set_clean_session(false);
    let mut state = MqttState::new(opts);
    state.connection_status = MqttConnectionStatus::Connected;
    for _ in 0..3 {
        state
            .handle_outgoing_mqtt_packet(Packet::Publish(publish(QoS::AtLeastOnce, b"x")), 0)
            .expect("publish accepted");
    }
    let replay = state.handle_reconnection();
    assert_eq!(replay.len(), 3);
    for (i, packet) in replay.iter().enumerate() {
        match packet {
            Packet::Publish(p) => {
                assert!(p.dup, "replayed publish carries the duplicate flag");
                assert_eq!(p.pkid, Some((i + 1) as u16), "identifiers and order preserved");
            }
            other => panic!("expected a publish, got {:?}", other),
        }
    }
    assert_eq!(state.outgoing_pub.len(), 3);
}

#[test]
fn replay_includes_owed_releases() {
    let mut opts = MqttOptions::new();
    opts.set_clean_session(false);
    let mut state = MqttState::new(opts);
    state.connection_status = MqttConnectionStatus::Connected;
    state
        .handle_outgoing_mqtt_packet(Packet::Publish(publish(QoS::ExactlyOnce, b"x")), 0)
        .expect("publish accepted");
    state
        .handle_incoming_mqtt_packet(Packet::Pubrec(1), 1)
        .expect("record accepted");
    state
        .handle_outgoing_mqtt_packet(Packet::Publish(publish(QoS::AtLeastOnce, b"y")), 2)
        .expect("publish accepted");
    let replay = state.handle_reconnection();
    assert_eq!(replay.len(), 2);
    assert!(matches!(replay[0], Packet::Publish(_)));
    assert!(matches!(replay[1], Packet::Pubrel(1)));
}

#[test]
fn clean_session_replays_nothing() {
    let mut state = connected_state();
    state
        .handle_outgoing_mqtt_packet(Packet::Publish(publish(QoS::AtLeastOnce, b"x")), 0)
        .expect("publish accepted");
    let replay = state.handle_reconnection();
    assert!(replay.is_empty());
    assert!(state.outgoing_pub.is_empty());
}

#[test]
fn keep_alive_timeout_sequence() {
    let mut opts = MqttOptions::new();
    opts.set_keep_alive(10).expect("keep alive");
    let mut state = MqttState::new(opts);
    state.connection_status = MqttConnectionStatus::Connected;
    // No traffic for the whole keep-alive span: a ping is due.
    assert_eq!(keep_alive_tick(&state, 10_000), PingDecision::SendPing);
    state
        .handle_outgoing_mqtt_packet(Packet::Pingreq, 10_000)
        .expect("ping accepted");
    assert!(state.await_pingresp);
    // No answer for another half span: the session is over.
    assert_eq!(keep_alive_tick(&state, 15_000), PingDecision::Timeout);
}

#[test]
fn ping_not_required_before_boundary() {
    let mut opts = MqttOptions::new();
    opts.set_keep_alive(10).expect("keep alive");
    let mut state = MqttState::new(opts);
    state.connection_status = MqttConnectionStatus::Connected;
    state.last_incoming = 5_000;
    assert!(!state.is_ping_required(14_999));
    assert!(state.is_ping_required(15_000));
}

#[test]
fn ping_boundary_triggers_on_the_tick_after() {
    let mut opts = MqttOptions::new();
    opts.set_keep_alive(10).expect("keep alive");
    let mut state = MqttState::new(opts);
    state.connection_status = MqttConnectionStatus::Connected;
    // Last activity just after a tick: the tick at the boundary itself sees
    // an idle span one millisecond short, the next one triggers.
    state.last_outgoing = 1;
    assert_eq!(keep_alive_tick(&state, 10_000), PingDecision::Wait);
    assert_eq!(keep_alive_tick(&state, 20_000), PingDecision::SendPing);
}

#[test]
fn ping_not_required_while_awaiting_answer() {
    let mut state = connected_state();
    state.await_pingresp = true;
    assert!(!state.is_ping_required(1_000_000));
}

#[test]
fn pingresp_clears_await() {
    let mut state = connected_state();
    state.await_pingresp = true;
    let (notification, reply) = state
        .handle_incoming_mqtt_packet(Packet::Pingresp, 7)
        .expect("answer accepted");
    assert_eq!(notification, Notification::Noop);
    assert!(matches!(reply, Request::Noop));
    assert!(!state.await_pingresp);
    assert_eq!(state.last_incoming, 7);
}

#[test]
fn duplicate_qos2_publish_is_silent() {
    let mut state = connected_state();
    let mut incoming = publish(QoS::ExactlyOnce, b"x");
    incoming.pkid = Some(5);
    let (first, reply1) = state
        .handle_incoming_mqtt_packet(Packet::Publish(incoming.clone()), 0)
        .expect("first accepted");
    assert!(matches!(first, Notification::Publish(_)));
    assert!(matches!(reply1, Request::PubRec(5)));
    let (second, reply2) = state
        .handle_incoming_mqtt_packet(Packet::Publish(incoming), 1)
        .expect("duplicate accepted");
    assert_eq!(second, Notification::Noop);
    assert!(matches!(reply2, Request::PubRec(5)));
    assert_eq!(state.incoming_pub, vec![5]);
}

#[test]
fn incoming_pubrel_releases_and_completes() {
    let mut state = connected_state();
    let mut incoming = publish(QoS::ExactlyOnce, b"x");
    incoming.pkid = Some(5);
    state
        .handle_incoming_mqtt_packet(Packet::Publish(incoming), 0)
        .expect("publish accepted");
    let (notification, reply) = state
        .handle_incoming_mqtt_packet(Packet::Pubrel(5), 1)
        .expect("release accepted");
    assert_eq!(notification, Notification::PubRel(5));
    assert!(matches!(reply, Request::PubComp(5)));
    assert!(state.incoming_pub.is_empty());
}

#[test]
fn unsolicited_acks_fail() {
    let mut state = connected_state();
    assert_eq!(
        state.handle_incoming_mqtt_packet(Packet::Puback(9), 0),
        Err(StateError::UnsolicitedAck(9))
    );
    assert_eq!(
        state.handle_incoming_mqtt_packet(Packet::Pubrec(9), 0),
        Err(StateError::UnsolicitedAck(9))
    );
    assert_eq!(
        state.handle_incoming_mqtt_packet(Packet::Pubcomp(9), 0),
        Err(StateError::UnsolicitedAck(9))
    );
    assert_eq!(
        state.handle_incoming_mqtt_packet(Packet::Pubrel(9), 0),
        Err(StateError::UnsolicitedPubRel(9))
    );
    assert_eq!(
        state.handle_outgoing_mqtt_packet(Packet::Pubrel(9), 0),
        Err(StateError::UnsolicitedPubRel(9))
    );
}

#[test]
fn flight_balance_counts_submissions_minus_acks() {
    let mut state = connected_state();
    for _ in 0..4 {
        state
            .handle_outgoing_mqtt_packet(Packet::Publish(publish(QoS::AtLeastOnce, b"x")), 0)
            .expect("publish accepted");
    }
    assert_eq!(state.outgoing_pub.len(), 4);
    state.handle_incoming_mqtt_packet(Packet::Puback(2), 1).expect("ack");
    state.handle_incoming_mqtt_packet(Packet::Puback(4), 2).expect("ack");
    assert_eq!(state.outgoing_pub.len(), 2);
    let live: Vec<Option<u16>> = state.outgoing_pub.iter().map(|p| p.pkid).collect();
    assert_eq!(live, vec![Some(1), Some(3)]);
}

#[test]
fn packet_ids_wrap_and_skip_live_ones() {
    let mut state = connected_state();
    state.last_pkid = 65534;
    let out1 = state
        .handle_outgoing_mqtt_packet(Packet::Publish(publish(QoS::AtLeastOnce, b"x")), 0)
        .expect("publish accepted");
    let out2 = state
        .handle_outgoing_mqtt_packet(Packet::Publish(publish(QoS::AtLeastOnce, b"y")), 0)
        .expect("publish accepted");
    let ids: Vec<Option<u16>> = [out1, out2]
        .into_iter()
        .map(|p| match p {
            Packet::Publish(p) => p.pkid,
            _ => None,
        })
        .collect();
    assert_eq!(ids, vec![Some(65535), Some(1)]);
}

#[test]
fn packet_ids_exhausted_when_all_live() {
    let mut state = connected_state();
    state.outgoing_rel = (1..=65535u16).collect();
    assert_eq!(
        state.handle_outgoing_mqtt_packet(Packet::Publish(publish(QoS::AtLeastOnce, b"x")), 0),
        Err(StateError::PacketIdsExhausted)
    );
}

#[test]
fn qos0_publish_stores_nothing() {
    let mut state = connected_state();
    let out = state
        .handle_outgoing_mqtt_packet(Packet::Publish(publish(QoS::AtMostOnce, b"x")), 0)
        .expect("publish accepted");
    match out {
        Packet::Publish(p) => assert_eq!(p.pkid, None),
        other => panic!("expected a publish, got {:?}", other),
    }
    assert!(state.outgoing_pub.is_empty());
}

#[test]
fn no_outgoing_while_disconnecting() {
    let mut state = connected_state();
    state
        .handle_outgoing_mqtt_packet(Packet::Disconnect, 0)
        .expect("disconnect accepted");
    assert_eq!(state.connection_status, MqttConnectionStatus::Disconnecting);
    assert_eq!(
        state.handle_outgoing_mqtt_packet(Packet::Publish(publish(QoS::AtMostOnce, b"x")), 1),
        Err(StateError::InvalidState)
    );
}

#[test]
fn connect_packet_built_from_options() {
    let mut opts = MqttOptions::new();
    opts.set_client_id(b"c1".to_vec()).expect("client id");
    opts.set_keep_alive(17).expect("keep alive");
    opts.set_clean_session(false);
    opts.set_security_opts(SecurityOptions::UsernamePassword(b"u".to_vec(), b"p".to_vec()));
    let mut state = MqttState::new(opts);
    let connect = state.handle_outgoing_connect(None).expect("connect built");
    assert_eq!(connect.keep_alive, 17);
    assert_eq!(connect.client_id, b"c1".to_vec());
    assert!(!connect.clean_session);
    assert_eq!(connect.username, Some(b"u".to_vec()));
    assert_eq!(connect.password, Some(b"p".to_vec()));
    assert_eq!(state.connection_status, MqttConnectionStatus::Handshake);
    // A second connect while handshaking is refused.
    assert_eq!(state.handle_outgoing_connect(None), Err(StateError::InvalidState));
}

#[test]
fn gcloud_connect_uses_supplied_token() {
    let mut opts = MqttOptions::new();
    opts.set_security_opts(SecurityOptions::GcloudIot(b"project".to_vec(), b"key".to_vec(), 3600));
    let mut state = MqttState::new(opts);
    let connect = state
        .handle_outgoing_connect(Some(b"signed-token".to_vec()))
        .expect("connect built");
    assert_eq!(connect.username, Some(b"unused".to_vec()));
    assert_eq!(connect.password, Some(b"signed-token".to_vec()));
}

#[test]
fn connack_paths() {
    let mut state = MqttState::new(MqttOptions::new());
    state.connection_status = MqttConnectionStatus::Handshake;
    // Refused by the broker.
    assert_eq!(
        state.handle_incoming_connack(Connack { session_present: false, code: 4 }, 0),
        Err(StateError::ConnAckFailed(4))
    );
    assert_eq!(state.connection_status, MqttConnectionStatus::Disconnected);
    // A held session under a clean-session request is a protocol error.
    state.connection_status = MqttConnectionStatus::Handshake;
    assert_eq!(
        state.handle_incoming_connack(Connack { session_present: true, code: 0 }, 0),
        Err(StateError::InvalidState)
    );
    // Accepted.
    state.connection_status = MqttConnectionStatus::Handshake;
    state.await_pingresp = true;
    assert_eq!(state.handle_incoming_connack(Connack { session_present: false, code: 0 }, 5), Ok(()));
    assert_eq!(state.connection_status, MqttConnectionStatus::Connected);
    assert!(!state.await_pingresp);
    // A CONNACK out of the handshake is illegal.
    assert_eq!(
        state.handle_incoming_connack(Connack { session_present: false, code: 0 }, 6),
        Err(StateError::InvalidState)
    );
}

#[test]
fn check_connack_maps_errors() {
    let mut state = MqttState::new(MqttOptions::new());
    assert_eq!(check_and_validate_connack(None, &mut state, 0), Err(ConnectError::NoResponse));
    assert_eq!(
        check_and_validate_connack(Some(Packet::Pingresp), &mut state, 0),
        Err(ConnectError::NotConnackPacket(Packet::Pingresp))
    );
    state.connection_status = MqttConnectionStatus::Handshake;
    assert_eq!(
        check_and_validate_connack(
            Some(Packet::Connack(Connack { session_present: false, code: 2 })),
            &mut state,
            0
        ),
        Err(ConnectError::ConnAckFailed(2))
    );
    state.connection_status = MqttConnectionStatus::Handshake;
    assert_eq!(
        check_and_validate_connack(
            Some(Packet::Connack(Connack { session_present: false, code: 0 })),
            &mut state,
            0
        ),
        Ok(())
    );
    assert_eq!(state.connection_status, MqttConnectionStatus::Connected);
}

#[test]
fn reconnect_request_installs_new_options() {
    let mut state = MqttState::new(MqttOptions::new());
    let mut new_opts = MqttOptions::new();
    new_opts.set_port(8883);
    let r = validate_userrequest(Request::Reconnect(new_opts), &mut state);
    assert_eq!(r, Err(NetworkError::UserReconnect));
    assert_eq!(state.opts.port(), 8883);
}

#[test]
fn plain_requests_become_packets() {
    let mut state = MqttState::new(MqttOptions::new());
    let r = validate_userrequest(Request::PubAck(3), &mut state).expect("packet");
    assert_eq!(r, Packet::Puback(3));
    assert_eq!(request_to_packet(Request::Ping), Packet::Pingreq);
    assert_eq!(request_to_packet(Request::Disconnect), Packet::Disconnect);
    assert_eq!(request_to_packet(Request::PubRel(4)), Packet::Pubrel(4));
}

#[test]
fn sentinel_replies_are_filtered() {
    assert!(!should_forward_packet(&Request::Noop));
    assert!(should_forward_packet(&Request::PubAck(1)));
}

#[test]
fn full_notification_channel_drops_newest() {
    assert_eq!(handle_notification(Notification::PubAck(1), true), None);
    assert_eq!(
        handle_notification(Notification::PubAck(1), false),
        Some(Notification::PubAck(1))
    );
    assert_eq!(handle_notification(Notification::Noop, false), None);
}

#[test]
fn notification_overflow_never_blocks_the_session() {
    // Five QoS-0 publishes arrive while the user drains nothing from a
    // one-slot channel: all are handled at the protocol level, one
    // notification is observable, the rest are dropped.
    let mut state = connected_state();
    let mut delivered: Vec<Notification> = Vec::new();
    let capacity = 1;
    for i in 0..5u64 {
        let (notification, reply) = state
            .handle_incoming_mqtt_packet(Packet::Publish(publish(QoS::AtMostOnce, b"m")), i)
            .expect("publish accepted");
        assert!(matches!(reply, Request::Noop), "at most once needs no reply");
        let full = delivered.len() == capacity;
        if let Some(n) = handle_notification(notification, full) {
            delivered.push(n);
        }
    }
    assert_eq!(delivered.len(), 1);
}

#[test]
fn reconnect_policy_decisions() {
    assert_eq!(reconnect_decision(ReconnectOptions::Never, 0), ReconnectDecision::Halt);
    assert_eq!(reconnect_decision(ReconnectOptions::Never, 3), ReconnectDecision::Halt);
    assert_eq!(
        reconnect_decision(ReconnectOptions::AfterFirstSuccess(7), 0),
        ReconnectDecision::Halt
    );
    assert_eq!(
        reconnect_decision(ReconnectOptions::AfterFirstSuccess(7), 1),
        ReconnectDecision::Retry(7)
    );
    assert_eq!(reconnect_decision(ReconnectOptions::Always(5), 0), ReconnectDecision::Retry(5));
}

#[test]
fn state_errors_map_to_network_errors() {
    assert_eq!(network_error_of_state(StateError::InvalidState), NetworkError::InvalidState);
    assert_eq!(
        network_error_of_state(StateError::UnsolicitedAck(4)),
        NetworkError::UnsolicitedAck(4)
    );
    assert_eq!(
        network_error_of_state(StateError::UnsolicitedPubRel(4)),
        NetworkError::UnsolicitedAck(4)
    );
    assert_eq!(
        network_error_of_state(StateError::PacketIdsExhausted),
        NetworkError::PacketIdsExhausted
    );
}

#[test]
fn throttle_delay_after_threshold() {
    let mut opts = MqttOptions::new();
    opts.set_outgoing_queuelimit(2, 250).expect("queue limit");
    let mut state = MqttState::new(opts);
    state.connection_status = MqttConnectionStatus::Connected;
    assert_eq!(outgoing_throttle_delay(&state), None);
    for _ in 0..2 {
        state
            .handle_outgoing_mqtt_packet(Packet::Publish(publish(QoS::AtLeastOnce, b"x")), 0)
            .expect("publish accepted");
    }
    assert_eq!(outgoing_throttle_delay(&state), Some(250));
}

#[test]
fn token_bucket_caps_each_second() {
    let mut bucket = TokenBucket::new(3);
    // First second: exactly three tokens.
    assert!(bucket.take(1_500));
    assert!(bucket.take(1_600));
    assert!(bucket.take(1_700));
    assert!(!bucket.take(1_800));
    // The next second renews the allowance.
    assert!(bucket.take(2_000));
}
