//! Round-trip and boundary tests for the wire codec.

use rumqtt::codec::{decode, encode};
use rumqtt::error::CodecError;
use rumqtt::packet::{
    Connack, Connect, LastWill, Packet, Publish, QoS, Suback, Subscribe, SubscribeReturnCode,
    SubscribeTopic, Unsubscribe,
};

const BIG: usize = 268435455;

fn roundtrip(p: Packet) {
    let mut buf: Vec<u8> = Vec::new();
    encode(&p, BIG, &mut buf).expect("encode");
    let got = decode(&buf, BIG).expect("decode");
    let (q, n) = got.expect("whole packet");
    assert_eq!(n, buf.len());
    assert_eq!(q, p);
}

fn sample_publish(qos: QoS, pkid: Option<u16>, payload_len: usize) -> Packet {
    Packet::Publish(Publish {
        dup: false,
        qos,
        retain: false,
        topic_name: b"a".to_vec(),
        pkid,
        payload: vec![7u8; payload_len],
    })
}

#[test]
fn roundtrip_publish_qos0() {
    roundtrip(sample_publish(QoS::AtMostOnce, None, 1));
}

#[test]
fn roundtrip_publish_qos1_flags() {
    roundtrip(Packet::Publish(Publish {
        dup: true,
        qos: QoS::AtLeastOnce,
        retain: true,
        topic_name: b"x/y".to_vec(),
        pkid: Some(12),
        payload: b"hello".to_vec(),
    }));
}

#[test]
fn roundtrip_publish_qos2() {
    roundtrip(sample_publish(QoS::ExactlyOnce, Some(65535), 3));
}

#[test]
fn roundtrip_connect_plain() {
    roundtrip(Packet::Connect(Connect {
        keep_alive: 30,
        client_id: b"test-client".to_vec(),
        clean_session: true,
        last_will: None,
        username: None,
        password: None,
    }));
}

#[test]
fn roundtrip_connect_full() {
    roundtrip(Packet::Connect(Connect {
        keep_alive: 10,
        client_id: b"c1".to_vec(),
        clean_session: false,
        last_will: Some(LastWill {
            topic: b"will".to_vec(),
            message: b"gone".to_vec(),
            qos: QoS::AtLeastOnce,
            retain: true,
        }),
        username: Some(b"user".to_vec()),
        password: Some(b"pass".to_vec()),
    }));
}

#[test]
fn roundtrip_connack() {
    roundtrip(Packet::Connack(Connack { session_present: true, code: 0 }));
    roundtrip(Packet::Connack(Connack { session_present: false, code: 5 }));
}

#[test]
fn roundtrip_acks() {
    roundtrip(Packet::Puback(1));
    roundtrip(Packet::Pubrec(2));
    roundtrip(Packet::Pubrel(3));
    roundtrip(Packet::Pubcomp(4));
    roundtrip(Packet::Unsuback(5));
}

#[test]
fn roundtrip_subscribe() {
    roundtrip(Packet::Subscribe(Subscribe {
        pkid: 9,
        topics: vec![
            SubscribeTopic { topic_path: b"a/b".to_vec(), qos: QoS::AtMostOnce },
            SubscribeTopic { topic_path: b"c/#".to_vec(), qos: QoS::ExactlyOnce },
        ],
    }));
}

#[test]
fn roundtrip_suback() {
    roundtrip(Packet::Suback(Suback {
        pkid: 9,
        return_codes: vec![
            SubscribeReturnCode::Success(QoS::AtLeastOnce),
            SubscribeReturnCode::Failure,
        ],
    }));
}

#[test]
fn roundtrip_unsubscribe() {
    roundtrip(Packet::Unsubscribe(Unsubscribe {
        pkid: 10,
        topics: vec![b"a/b".to_vec(), b"c".to_vec()],
    }));
}

#[test]
fn roundtrip_signals() {
    roundtrip(Packet::Pingreq);
    roundtrip(Packet::Pingresp);
    roundtrip(Packet::Disconnect);
}

#[test]
fn exact_bytes_publish() {
    let p = Packet::Publish(Publish {
        dup: false,
        qos: QoS::AtLeastOnce,
        retain: false,
        topic_name: b"a".to_vec(),
        pkid: Some(1),
        payload: b"x".to_vec(),
    });
    let mut buf: Vec<u8> = Vec::new();
    encode(&p, BIG, &mut buf).expect("encode");
    assert_eq!(buf, vec![0x32, 6, 0, 1, b'a', 0, 1, b'x']);
}

#[test]
fn exact_bytes_pingreq() {
    let mut buf: Vec<u8> = Vec::new();
    encode(&Packet::Pingreq, BIG, &mut buf).expect("encode");
    assert_eq!(buf, vec![0xC0, 0x00]);
}

// One case per remaining-length width boundary; the expected width follows
// the seven-bits-per-byte rule.
fn remlen_case(body_len: usize, width: usize) {
    // A QoS-0 publish with a 1-byte topic has a body of 3 + payload bytes.
    let p = sample_publish(QoS::AtMostOnce, None, body_len - 3);
    let mut buf: Vec<u8> = Vec::new();
    encode(&p, BIG, &mut buf).expect("encode");
    assert_eq!(buf.len(), 1 + width + body_len);
    let (q, n) = decode(&buf, BIG).expect("decode").expect("whole packet");
    assert_eq!(n, buf.len());
    assert_eq!(q, p);
}

#[test]
fn remaining_length_boundaries() {
    remlen_case(127, 1);
    remlen_case(128, 2);
    remlen_case(16383, 2);
    remlen_case(16384, 3);
    remlen_case(2097151, 3);
    remlen_case(2097152, 4);
}

#[test]
fn remaining_length_zero() {
    // A remaining length of zero: the two-byte ping request.
    let mut buf: Vec<u8> = Vec::new();
    encode(&Packet::Pingreq, BIG, &mut buf).expect("encode");
    assert_eq!(buf.len(), 2);
    let (q, n) = decode(&buf, BIG).expect("decode").expect("whole packet");
    assert_eq!(n, 2);
    assert_eq!(q, Packet::Pingreq);
}

#[test]
fn remaining_length_maximum_is_read_before_the_body() {
    // Header advertising the largest remaining length, with no body bytes
    // buffered yet: within the limit the decoder just asks for more.
    let buf = vec![0x30u8, 0xFF, 0xFF, 0xFF, 0x7F];
    assert_eq!(decode(&buf, BIG), Ok(None));
}

#[test]
fn oversized_packet_rejected_before_body() {
    // The same header, against a small limit: refused without any body.
    let buf = vec![0x30u8, 0xFF, 0xFF, 0xFF, 0x7F];
    assert_eq!(decode(&buf, 1024), Err(CodecError::PacketSizeLimitExceeded));
}

#[test]
fn oversized_packet_rejected_on_encode() {
    let p = sample_publish(QoS::AtMostOnce, None, 2000);
    let mut buf: Vec<u8> = Vec::new();
    assert_eq!(encode(&p, 1024, &mut buf), Err(CodecError::PacketSizeLimitExceeded));
    assert!(buf.is_empty());
}

#[test]
fn partial_packet_needs_more() {
    let p = sample_publish(QoS::AtLeastOnce, Some(3), 10);
    let mut buf: Vec<u8> = Vec::new();
    encode(&p, BIG, &mut buf).expect("encode");
    for cut in 0..buf.len() {
        let prefix = buf[..cut].to_vec();
        assert_eq!(decode(&prefix, BIG), Ok(None), "prefix of {} bytes", cut);
    }
}

#[test]
fn trailing_bytes_left_for_next_packet() {
    let mut buf: Vec<u8> = Vec::new();
    encode(&Packet::Puback(7), BIG, &mut buf).expect("encode");
    let first_len = buf.len();
    encode(&Packet::Pingresp, BIG, &mut buf).expect("encode");
    let (q, n) = decode(&buf, BIG).expect("decode").expect("whole packet");
    assert_eq!(q, Packet::Puback(7));
    assert_eq!(n, first_len);
    let rest = buf[n..].to_vec();
    let (q2, n2) = decode(&rest, BIG).expect("decode").expect("whole packet");
    assert_eq!(q2, Packet::Pingresp);
    assert_eq!(n2, rest.len());
}

#[test]
fn malformed_header_rejected() {
    // Packet kind 0 does not exist.
    let buf = vec![0x00u8, 0x00];
    assert_eq!(decode(&buf, BIG), Err(CodecError::InvalidPacket));
}

#[test]
fn publish_with_zero_packet_id_rejected() {
    let buf = vec![0x32u8, 6, 0, 1, b'a', 0, 0, b'x'];
    assert_eq!(decode(&buf, BIG), Err(CodecError::InvalidPacket));
}

#[test]
fn unencodable_topic_rejected() {
    let p = Packet::Publish(Publish {
        dup: false,
        qos: QoS::AtMostOnce,
        retain: false,
        topic_name: vec![b'a'; 65536],
        pkid: None,
        payload: Vec::new(),
    });
    let mut buf: Vec<u8> = Vec::new();
    assert_eq!(encode(&p, BIG, &mut buf), Err(CodecError::InvalidPacket));
}

#[test]
fn http_connect_request_bytes() {
    let request = rumqtt::transport::http_connect_request(
        &b"broker.example".to_vec(),
        8883,
        &b"tok".to_vec(),
    );
    let expected = b"CONNECT broker.example:8883 HTTP/1.1\r\nHost: broker.example:8883\r\nProxy-Authorization: Bearer tok\r\n\r\n".to_vec();
    assert_eq!(request, expected);
}

#[test]
fn proxy_status_line_check() {
    assert!(rumqtt::transport::proxy_status_accepted(&b"HTTP/1.1 200 OK".to_vec()));
    assert!(rumqtt::transport::proxy_status_accepted(&b"HTTP/1.1 204 No Content".to_vec()));
    assert!(!rumqtt::transport::proxy_status_accepted(&b"HTTP/1.1 403 Forbidden".to_vec()));
    assert!(!rumqtt::transport::proxy_status_accepted(&b"HTTP/1.0 200 OK".to_vec()));
    assert!(!rumqtt::transport::proxy_status_accepted(&b"HTTP/1.1 20".to_vec()));
}
