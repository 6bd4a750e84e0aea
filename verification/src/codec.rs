//! The MQTT 3.1.1 wire codec.
//!
//! `spec_encode` states, byte for byte, how a control packet is laid out on
//! the wire; `spec_decode` states what any byte sequence decodes to — a
//! packet and its length, a request for more bytes, a size refusal, or a
//! malformed-input refusal.  The executable encoder and decoder are proved
//! against these two functions, and `lemma_codec_round_trip` proves that
//! decoding an encoding yields the packet back.
//!
//! The remaining-length field is the protocol's variable-length counter:
//! one to four bytes, seven value bits each, with a continuation bit; its
//! largest value is 268435455.

use vstd::prelude::*;
use vstd::arithmetic::div_mod::lemma_fundamental_div_mod_converse;
use crate::error::CodecError;
use crate::packet::{
    Connack,
    ConnectView,
    Packet,
    LastWillView,
    PacketView,
    PublishView,
    QoS,
    SubackView,
    SubscribeReturnCode,
    SubscribeTopicView,
    SubscribeView,
    UnsubscribeView,
};

verus! {

/// The largest value a remaining-length field can carry.
pub open spec fn max_remaining_length() -> int {
    268435455
}

/// A 16-bit value, most significant byte first.
pub open spec fn enc_u16(v: u16) -> Seq<u8> {
    seq![(v / 256) as u8, (v % 256) as u8]
}

/// The 16-bit value at position `i`, most significant byte first.
pub open spec fn dec_u16_at(s: Seq<u8>, i: int) -> u16 {
    ((s[i] as int) * 256 + (s[i + 1] as int)) as u16
}

/// A length-prefixed field: the byte count as a 16-bit value, then the bytes.
pub open spec fn enc_bytes(b: Seq<u8>) -> Seq<u8> {
    enc_u16(b.len() as u16) + b
}

/// The remaining-length encoding of `n`: seven value bits per byte, least
/// significant group first, continuation bit on every byte but the last.
pub open spec fn enc_remlen(n: int) -> Seq<u8>
    decreases n,
{
    if n < 128 {
        seq![n as u8]
    } else {
        seq![(128 + (n % 128)) as u8] + enc_remlen(n / 128)
    }
}

/// What reading a remaining-length field from `s` yields.
pub enum RemlenOutcome {
    /// The field is cut short; more bytes are needed.
    NeedMore,
    /// More than four continuation bytes: not a legal field.
    Malformed,
    /// The value read, and how many bytes it occupied.
    Val(int, int),
}

/// Read a remaining-length field from the front of `s`, allowing `depth`
/// more bytes.
pub open spec fn dec_remlen(s: Seq<u8>, depth: int) -> RemlenOutcome
    decreases depth,
{
    if depth <= 0 {
        RemlenOutcome::Malformed
    } else if s.len() == 0 {
        RemlenOutcome::NeedMore
    } else if s[0] < 128 {
        RemlenOutcome::Val(s[0] as int, 1)
    } else {
        match dec_remlen(s.drop_first(), depth - 1) {
            RemlenOutcome::Val(v, used) => RemlenOutcome::Val((s[0] - 128) + 128 * v, used + 1),
            o => o,
        }
    }
}

/// The connect-flags byte: username, password, will retain, will quality of
/// service, will present, clean session, and a reserved zero bit.
pub open spec fn connect_flag_bits(c: ConnectView) -> int {
    (if c.username is Some {
        128int
    } else {
        0int
    }) + (if c.password is Some {
        64int
    } else {
        0int
    }) + (match c.last_will {
        Some(w) => (if w.retain {
            32int
        } else {
            0int
        }) + (w.qos.spec_as_u8() as int) * 8 + 4,
        None => 0int,
    }) + (if c.clean_session {
        2int
    } else {
        0int
    })
}

/// The body of a CONNECT packet: protocol name `MQTT`, level 4, flags,
/// keep-alive, client identifier, then will, username and password as their
/// flags announce.
pub open spec fn connect_body(c: ConnectView) -> Seq<u8> {
    enc_bytes(seq![77u8, 81, 84, 84]) + seq![4u8, connect_flag_bits(c) as u8] + enc_u16(
        c.keep_alive,
    ) + enc_bytes(c.client_id) + (match c.last_will {
        Some(w) => enc_bytes(w.topic) + enc_bytes(w.message),
        None => Seq::empty(),
    }) + (match c.username {
        Some(u) => enc_bytes(u),
        None => Seq::empty(),
    }) + (match c.password {
        Some(p) => enc_bytes(p),
        None => Seq::empty(),
    })
}

/// The body of a PUBLISH packet: topic, the identifier when the quality of
/// service asks for acknowledgement, then the payload.
pub open spec fn publish_body(p: PublishView) -> Seq<u8> {
    enc_bytes(p.topic_name) + (if p.qos != QoS::AtMostOnce {
        enc_u16(p.pkid.unwrap())
    } else {
        Seq::empty()
    }) + p.payload
}

/// The topic-filter list of a SUBSCRIBE, from position `i` on: each filter
/// length-prefixed and followed by its requested quality of service.
pub open spec fn sub_topics_from(ts: Seq<SubscribeTopicView>, i: int) -> Seq<u8>
    decreases ts.len() - i,
{
    if i < 0 || i >= ts.len() {
        Seq::empty()
    } else {
        enc_bytes(ts[i].topic_path) + seq![ts[i].qos.spec_as_u8()] + sub_topics_from(ts, i + 1)
    }
}

/// The body of a SUBSCRIBE packet.
pub open spec fn subscribe_body(s: SubscribeView) -> Seq<u8> {
    enc_u16(s.pkid) + sub_topics_from(s.topics, 0)
}

/// The wire value of one subscription return code.
pub open spec fn src_as_u8(c: SubscribeReturnCode) -> u8 {
    match c {
        SubscribeReturnCode::Success(q) => q.spec_as_u8(),
        SubscribeReturnCode::Failure => 128,
    }
}

/// The subscription return code a wire value stands for, if any.
pub open spec fn src_from_u8(b: u8) -> Option<SubscribeReturnCode> {
    if b == 128 {
        Some(SubscribeReturnCode::Failure)
    } else {
        match QoS::spec_from_u8(b) {
            Some(q) => Some(SubscribeReturnCode::Success(q)),
            None => None,
        }
    }
}

/// The return-code list of a SUBACK, from position `i` on.
pub open spec fn suback_codes_from(cs: Seq<SubscribeReturnCode>, i: int) -> Seq<u8>
    decreases cs.len() - i,
{
    if i < 0 || i >= cs.len() {
        Seq::empty()
    } else {
        seq![src_as_u8(cs[i])] + suback_codes_from(cs, i + 1)
    }
}

/// The body of a SUBACK packet.
pub open spec fn suback_body(s: SubackView) -> Seq<u8> {
    enc_u16(s.pkid) + suback_codes_from(s.return_codes, 0)
}

/// The topic-filter list of an UNSUBSCRIBE, from position `i` on.
pub open spec fn unsub_topics_from(ts: Seq<Seq<u8>>, i: int) -> Seq<u8>
    decreases ts.len() - i,
{
    if i < 0 || i >= ts.len() {
        Seq::empty()
    } else {
        enc_bytes(ts[i]) + unsub_topics_from(ts, i + 1)
    }
}

/// The body of an UNSUBSCRIBE packet.
pub open spec fn unsubscribe_body(u: UnsubscribeView) -> Seq<u8> {
    enc_u16(u.pkid) + unsub_topics_from(u.topics, 0)
}

/// The fixed-header byte: packet kind in the high four bits, flags in the
/// low four — for PUBLISH the duplicate, quality-of-service and retain
/// flags, for the packets that require them the fixed flags `0010`.
pub open spec fn header_byte(p: PacketView) -> u8 {
    match p {
        PacketView::Connect(_) => 16,
        PacketView::Connack(_) => 32,
        PacketView::Publish(pv) => (48 + (if pv.dup {
            8int
        } else {
            0int
        }) + (pv.qos.spec_as_u8() as int) * 2 + (if pv.retain {
            1int
        } else {
            0int
        })) as u8,
        PacketView::Puback(_) => 64,
        PacketView::Pubrec(_) => 80,
        PacketView::Pubrel(_) => 98,
        PacketView::Pubcomp(_) => 112,
        PacketView::Subscribe(_) => 130,
        PacketView::Suback(_) => 144,
        PacketView::Unsubscribe(_) => 162,
        PacketView::Unsuback(_) => 176,
        PacketView::Pingreq => 192,
        PacketView::Pingresp => 208,
        PacketView::Disconnect => 224,
    }
}

/// The variable header and payload of a packet.
pub open spec fn packet_body(p: PacketView) -> Seq<u8> {
    match p {
        PacketView::Connect(c) => connect_body(c),
        PacketView::Connack(c) => seq![
            if c.session_present {
                1u8
            } else {
                0u8
            },
            c.code,
        ],
        PacketView::Publish(pv) => publish_body(pv),
        PacketView::Puback(id) => enc_u16(id),
        PacketView::Pubrec(id) => enc_u16(id),
        PacketView::Pubrel(id) => enc_u16(id),
        PacketView::Pubcomp(id) => enc_u16(id),
        PacketView::Subscribe(s) => subscribe_body(s),
        PacketView::Suback(s) => suback_body(s),
        PacketView::Unsubscribe(u) => unsubscribe_body(u),
        PacketView::Unsuback(id) => enc_u16(id),
        PacketView::Pingreq => Seq::empty(),
        PacketView::Pingresp => Seq::empty(),
        PacketView::Disconnect => Seq::empty(),
    }
}

/// The full encoding: header byte, remaining length, body.
pub open spec fn spec_encode(p: PacketView) -> Seq<u8> {
    seq![header_byte(p)] + enc_remlen(packet_body(p).len() as int) + packet_body(p)
}

/// The field-level constraints the wire can carry: every length-prefixed
/// field fits sixteen bits, a publish carries its identifier exactly when
/// its quality of service asks for acknowledgement, and identifiers are
/// non-zero.
pub open spec fn structural_ok(p: PacketView) -> bool {
    match p {
        PacketView::Connect(c) => {
            &&& c.client_id.len() <= 65535
            &&& (c.last_will matches Some(w) ==> w.topic.len() <= 65535 && w.message.len()
                <= 65535)
            &&& (c.username matches Some(u) ==> u.len() <= 65535)
            &&& (c.password matches Some(q) ==> q.len() <= 65535)
        },
        PacketView::Publish(pv) => {
            &&& pv.topic_name.len() <= 65535
            &&& (pv.pkid is Some <==> pv.qos != QoS::AtMostOnce)
            &&& (pv.pkid matches Some(id) ==> id >= 1)
        },
        PacketView::Subscribe(s) => sub_topics_fit(s.topics),
        PacketView::Unsubscribe(u) => topics_fit(u.topics),
        _ => true,
    }
}

/// Every topic filter in the list fits its length prefix.
pub open spec fn sub_topics_fit(ts: Seq<SubscribeTopicView>) -> bool {
    forall|i: int| 0 <= i < ts.len() ==> (#[trigger] ts[i]).topic_path.len() <= 65535
}

/// Every byte field in the list fits its length prefix.
pub open spec fn topics_fit(ts: Seq<Seq<u8>>) -> bool {
    forall|i: int| 0 <= i < ts.len() ==> (#[trigger] ts[i]).len() <= 65535
}

/// A packet the wire can carry at all: its fields fit their encodings and
/// its body fits the remaining-length field.
pub open spec fn valid_packet(p: PacketView) -> bool {
    structural_ok(p) && packet_body(p).len() <= max_remaining_length()
}

/// A length-prefixed field read at position `i`: the bytes and the position
/// after them.
pub open spec fn dec_bytes_at(s: Seq<u8>, i: int) -> Option<(Seq<u8>, int)> {
    if i < 0 || i + 2 > s.len() {
        None
    } else {
        let n = dec_u16_at(s, i) as int;
        if i + 2 + n > s.len() {
            None
        } else {
            Some((s.subrange(i + 2, i + 2 + n), i + 2 + n))
        }
    }
}

/// Decode a CONNECT body.
pub open spec fn dec_connect(b: Seq<u8>) -> Option<PacketView> {
    if b.len() < 10 {
        None
    } else if !(dec_u16_at(b, 0) == 4 && b[2] == 77 && b[3] == 81 && b[4] == 84 && b[5] == 84
        && b[6] == 4) {
        None
    } else {
        let f = b[7] as int;
        let has_user = f / 128 == 1;
        let has_pass = (f / 64) % 2 == 1;
        let will_retain = (f / 32) % 2 == 1;
        let will_qos = (f / 8) % 4;
        let has_will = (f / 4) % 2 == 1;
        let clean = (f / 2) % 2 == 1;
        if f % 2 != 0 || QoS::spec_from_u8(will_qos as u8) is None || (!has_will && (will_retain
            || will_qos != 0)) {
            None
        } else {
            match dec_bytes_at(b, 10) {
                None => None,
                Some((client_id, pos1)) => {
                    let will_step: Option<(Option<LastWillView>, int)> = if has_will {
                        match dec_bytes_at(b, pos1) {
                            None => None,
                            Some((wt, pos2)) => match dec_bytes_at(b, pos2) {
                                None => None,
                                Some((wm, pos3)) => Some(
                                    (
                                        Some(
                                            LastWillView {
                                                topic: wt,
                                                message: wm,
                                                qos: QoS::spec_from_u8(will_qos as u8).unwrap(),
                                                retain: will_retain,
                                            },
                                        ),
                                        pos3,
                                    ),
                                ),
                            },
                        }
                    } else {
                        Some((None, pos1))
                    };
                    match will_step {
                        None => None,
                        Some((lw, posw)) => {
                            let user_step: Option<(Option<Seq<u8>>, int)> = if has_user {
                                match dec_bytes_at(b, posw) {
                                    None => None,
                                    Some((u, posu)) => Some((Some(u), posu)),
                                }
                            } else {
                                Some((None, posw))
                            };
                            match user_step {
                                None => None,
                                Some((usr, posu)) => {
                                    let pass_step: Option<(Option<Seq<u8>>, int)> = if has_pass {
                                        match dec_bytes_at(b, posu) {
                                            None => None,
                                            Some((q, posq)) => Some((Some(q), posq)),
                                        }
                                    } else {
                                        Some((None, posu))
                                    };
                                    match pass_step {
                                        None => None,
                                        Some((pw, posp)) => {
                                            if posp != b.len() {
                                                None
                                            } else {
                                                Some(
                                                    PacketView::Connect(
                                                        ConnectView {
                                                            keep_alive: dec_u16_at(b, 8),
                                                            client_id,
                                                            clean_session: clean,
                                                            last_will: lw,
                                                            username: usr,
                                                            password: pw,
                                                        },
                                                    ),
                                                )
                                            }
                                        },
                                    }
                                },
                            }
                        },
                    }
                },
            }
        }
    }
}

/// Decode a PUBLISH body under the given fixed-header flags.
pub open spec fn dec_publish(flags: int, b: Seq<u8>) -> Option<PacketView> {
    match QoS::spec_from_u8(((flags / 2) % 4) as u8) {
        None => None,
        Some(q) => match dec_bytes_at(b, 0) {
            None => None,
            Some((topic, pos)) => {
                let dup = flags / 8 == 1;
                let retain = flags % 2 == 1;
                if q == QoS::AtMostOnce {
                    Some(
                        PacketView::Publish(
                            PublishView {
                                dup,
                                qos: q,
                                retain,
                                topic_name: topic,
                                pkid: None,
                                payload: b.skip(pos),
                            },
                        ),
                    )
                } else if pos + 2 > b.len() {
                    None
                } else {
                    let id = dec_u16_at(b, pos);
                    if id == 0 {
                        None
                    } else {
                        Some(
                            PacketView::Publish(
                                PublishView {
                                    dup,
                                    qos: q,
                                    retain,
                                    topic_name: topic,
                                    pkid: Some(id),
                                    payload: b.skip(pos + 2),
                                },
                            ),
                        )
                    }
                }
            },
        },
    }
}

/// Decode the topic-filter list of a SUBSCRIBE from position `i` to the end.
pub open spec fn dec_sub_topics(b: Seq<u8>, i: int) -> Option<Seq<SubscribeTopicView>>
    decreases b.len() - i,
{
    if i < 0 || i > b.len() {
        None
    } else if i == b.len() {
        Some(Seq::empty())
    } else {
        match dec_bytes_at(b, i) {
            None => None,
            Some((t, pos)) => {
                if pos + 1 > b.len() {
                    None
                } else {
                    match QoS::spec_from_u8(b[pos]) {
                        None => None,
                        Some(q) => match dec_sub_topics(b, pos + 1) {
                            None => None,
                            Some(rest) => Some(
                                seq![SubscribeTopicView { topic_path: t, qos: q }] + rest,
                            ),
                        },
                    }
                }
            },
        }
    }
}

/// Decode the return-code list of a SUBACK from position `i` to the end.
pub open spec fn dec_suback_codes(b: Seq<u8>, i: int) -> Option<Seq<SubscribeReturnCode>>
    decreases b.len() - i,
{
    if i < 0 || i > b.len() {
        None
    } else if i == b.len() {
        Some(Seq::empty())
    } else {
        match src_from_u8(b[i]) {
            None => None,
            Some(c) => match dec_suback_codes(b, i + 1) {
                None => None,
                Some(rest) => Some(seq![c] + rest),
            },
        }
    }
}

/// Decode the topic-filter list of an UNSUBSCRIBE from position `i` to the
/// end.
pub open spec fn dec_unsub_topics(b: Seq<u8>, i: int) -> Option<Seq<Seq<u8>>>
    decreases b.len() - i,
{
    if i < 0 || i > b.len() {
        None
    } else if i == b.len() {
        Some(Seq::empty())
    } else {
        match dec_bytes_at(b, i) {
            None => None,
            Some((t, pos)) => match dec_unsub_topics(b, pos) {
                None => None,
                Some(rest) => Some(seq![t] + rest),
            },
        }
    }
}

/// Decode a body under its header byte: the packet kind picks the shape,
/// and the flags must be what that kind fixes.
pub open spec fn dec_body(h: u8, b: Seq<u8>) -> Option<PacketView> {
    let kind = h / 16;
    let flags = (h % 16) as int;
    if kind == 1 {
        if flags != 0 {
            None
        } else {
            dec_connect(b)
        }
    } else if kind == 2 {
        if flags != 0 || b.len() != 2 || b[0] > 1 {
            None
        } else {
            Some(PacketView::Connack(Connack { session_present: b[0] == 1, code: b[1] }))
        }
    } else if kind == 3 {
        dec_publish(flags, b)
    } else if kind == 4 {
        if flags != 0 || b.len() != 2 {
            None
        } else {
            Some(PacketView::Puback(dec_u16_at(b, 0)))
        }
    } else if kind == 5 {
        if flags != 0 || b.len() != 2 {
            None
        } else {
            Some(PacketView::Pubrec(dec_u16_at(b, 0)))
        }
    } else if kind == 6 {
        if flags != 2 || b.len() != 2 {
            None
        } else {
            Some(PacketView::Pubrel(dec_u16_at(b, 0)))
        }
    } else if kind == 7 {
        if flags != 0 || b.len() != 2 {
            None
        } else {
            Some(PacketView::Pubcomp(dec_u16_at(b, 0)))
        }
    } else if kind == 8 {
        if flags != 2 || b.len() < 2 {
            None
        } else {
            match dec_sub_topics(b, 2) {
                None => None,
                Some(ts) => Some(
                    PacketView::Subscribe(SubscribeView { pkid: dec_u16_at(b, 0), topics: ts }),
                ),
            }
        }
    } else if kind == 9 {
        if flags != 0 || b.len() < 2 {
            None
        } else {
            match dec_suback_codes(b, 2) {
                None => None,
                Some(cs) => Some(
                    PacketView::Suback(SubackView { pkid: dec_u16_at(b, 0), return_codes: cs }),
                ),
            }
        }
    } else if kind == 10 {
        if flags != 2 || b.len() < 2 {
            None
        } else {
            match dec_unsub_topics(b, 2) {
                None => None,
                Some(ts) => Some(
                    PacketView::Unsubscribe(UnsubscribeView { pkid: dec_u16_at(b, 0), topics: ts }),
                ),
            }
        }
    } else if kind == 11 {
        if flags != 0 || b.len() != 2 {
            None
        } else {
            Some(PacketView::Unsuback(dec_u16_at(b, 0)))
        }
    } else if kind == 12 {
        if flags != 0 || b.len() != 0 {
            None
        } else {
            Some(PacketView::Pingreq)
        }
    } else if kind == 13 {
        if flags != 0 || b.len() != 0 {
            None
        } else {
            Some(PacketView::Pingresp)
        }
    } else if kind == 14 {
        if flags != 0 || b.len() != 0 {
            None
        } else {
            Some(PacketView::Disconnect)
        }
    } else {
        None
    }
}

/// What decoding the front of a byte stream yields.
pub enum DecodeOutcome {
    /// No whole packet is buffered yet.
    NeedMore,
    /// The bytes cannot be a legal packet.
    Malformed,
    /// The advertised remaining length exceeds the configured limit.
    TooLarge,
    /// A whole packet, and how many bytes of the stream it occupied.
    Packet(PacketView, int),
}

/// Decode the front of a byte stream under a size limit: read the header
/// byte and the remaining length, refuse a body larger than `max` before
/// looking at it, wait for a whole body, then decode it.
pub open spec fn spec_decode(s: Seq<u8>, max: int) -> DecodeOutcome {
    if s.len() < 1 {
        DecodeOutcome::NeedMore
    } else {
        match dec_remlen(s.skip(1), 4) {
            RemlenOutcome::NeedMore => DecodeOutcome::NeedMore,
            RemlenOutcome::Malformed => DecodeOutcome::Malformed,
            RemlenOutcome::Val(n, used) => {
                if n > max {
                    DecodeOutcome::TooLarge
                } else if s.len() < 1 + used + n {
                    DecodeOutcome::NeedMore
                } else {
                    match dec_body(s[0], s.subrange(1 + used, 1 + used + n)) {
                        None => DecodeOutcome::Malformed,
                        Some(p) => DecodeOutcome::Packet(p, 1 + used + n),
                    }
                }
            },
        }
    }
}

/// The two bytes of `enc_u16` carry their value back.
proof fn lemma_u16_round(v: u16)
    ensures
        ((v / 256) as u8 as int) * 256 + ((v % 256) as u8 as int) == v,
        (v / 256) < 256,
        (v % 256) < 256,
{
    vstd::arithmetic::div_mod::lemma_fundamental_div_mod(v as int, 256);
}

/// Reading a 16-bit value where its encoding was written yields the value.
proof fn lemma_dec_u16_at(s: Seq<u8>, i: int, v: u16)
    requires
        0 <= i,
        i + 2 <= s.len(),
        s[i] == enc_u16(v)[0],
        s[i + 1] == enc_u16(v)[1],
    ensures
        dec_u16_at(s, i) == v,
{
    lemma_u16_round(v);
}

/// The bound under which a remaining-length field of `d` bytes can hold a
/// value.
pub open spec fn remlen_bound(d: int) -> int
    decreases d,
{
    if d <= 1 {
        128
    } else {
        128 * remlen_bound(d - 1)
    }
}

/// Reading a remaining-length field where one was written yields the value
/// and its width, whatever follows it.
proof fn lemma_remlen_round(n: int, rest: Seq<u8>, depth: int)
    requires
        0 <= n,
        1 <= depth <= 4,
        n < remlen_bound(depth),
    ensures
        dec_remlen(enc_remlen(n) + rest, depth) == RemlenOutcome::Val(
            n,
            enc_remlen(n).len() as int,
        ),
    decreases depth,
{
    let s = enc_remlen(n) + rest;
    if n < 128 {
        assert(s[0] == n as u8);
    } else {
        assert(depth >= 2);
        vstd::arithmetic::div_mod::lemma_fundamental_div_mod(n, 128);
        vstd::arithmetic::div_mod::lemma_mod_division_less_than_divisor(n, 128);
        let first = (128 + (n % 128)) as u8;
        assert(s[0] == first && first >= 128);
        assert(s.drop_first() =~= enc_remlen(n / 128) + rest);
        assert(n / 128 < remlen_bound(depth - 1)) by {
            vstd::arithmetic::div_mod::lemma_multiply_divide_lt(n, 128, remlen_bound(depth - 1));
        }
        lemma_remlen_round(n / 128, rest, depth - 1);
        assert((s[0] - 128) + 128 * (n / 128) == n);
    }
}

/// Splitting a suffix that is known to be a concatenation.
proof fn lemma_suffix_split(b: Seq<u8>, i: int, x: Seq<u8>, y: Seq<u8>)
    requires
        0 <= i <= b.len(),
        b.subrange(i, b.len() as int) == x + y,
    ensures
        x.len() + y.len() == b.len() - i,
        b.subrange(i, i + x.len()) == x,
        b.subrange(i + x.len(), b.len() as int) == y,
        forall|m: int| 0 <= m < x.len() ==> b[i + m] == x[m],
{
    let tail = b.subrange(i, b.len() as int);
    assert(tail.len() == b.len() - i);
    assert((x + y).len() == x.len() + y.len());
    assert(tail.len() == (x + y).len());
    assert forall|m: int| 0 <= m < x.len() implies b[i + m] == x[m] by {
        assert(tail[m] == b[i + m]);
        assert((x + y)[m] == x[m]);
    }
    assert(b.subrange(i, i + x.len()) =~= x);
    assert(b.subrange(i + x.len(), b.len() as int) =~= y) by {
        assert forall|m: int| 0 <= m < y.len() implies b[i + x.len() + m] == y[m] by {
            assert(tail[x.len() + m] == b[i + x.len() + m]);
            assert((x + y)[x.len() + m] == y[m]);
        }
    }
}

/// Reading a length-prefixed field where one was written yields the field
/// and the position after it.
proof fn lemma_dec_bytes_at(b: Seq<u8>, i: int, f: Seq<u8>, rest: Seq<u8>)
    requires
        0 <= i <= b.len(),
        f.len() <= 65535,
        b.subrange(i, b.len() as int) == enc_bytes(f) + rest,
    ensures
        dec_bytes_at(b, i) == Some((f, i + 2 + f.len())),
        b.subrange(i + 2 + f.len(), b.len() as int) == rest,
{
    let n = f.len() as u16;
    lemma_suffix_split(b, i, enc_bytes(f), rest);
    assert(enc_bytes(f)[0] == enc_u16(n)[0] && enc_bytes(f)[1] == enc_u16(n)[1]);
    assert(b[i] == enc_u16(n)[0] && b[i + 1] == enc_u16(n)[1]);
    lemma_dec_u16_at(b, i, n);
    assert(b.subrange(i, i + enc_bytes(f).len()) == enc_bytes(f));
    assert(b.subrange(i + 2, i + 2 + f.len()) =~= f) by {
        assert forall|m: int| 0 <= m < f.len() implies b[i + 2 + m] == f[m] by {
            assert(b[i + (2 + m)] == enc_bytes(f)[2 + m]);
            assert(enc_bytes(f)[2 + m] == f[m]);
        }
    }
}

/// The wire value of a quality of service reads back as itself.
proof fn lemma_qos_round(q: QoS)
    ensures
        QoS::spec_from_u8(q.spec_as_u8()) == Some(q),
{
}

/// The wire value of a subscription return code reads back as itself.
proof fn lemma_src_round(c: SubscribeReturnCode)
    ensures
        src_from_u8(src_as_u8(c)) == Some(c),
{
}

/// Reading a subscribe topic list where one was written yields the topics
/// from position `k` on.
proof fn lemma_dec_sub_topics(b: Seq<u8>, ts: Seq<SubscribeTopicView>, k: int, i: int)
    requires
        0 <= k <= ts.len(),
        0 <= i <= b.len(),
        b.subrange(i, b.len() as int) == sub_topics_from(ts, k),
        forall|j: int| k <= j < ts.len() ==> (#[trigger] ts[j]).topic_path.len() <= 65535,
    ensures
        dec_sub_topics(b, i) == Some(ts.skip(k)),
    decreases ts.len() - k,
{
    if k == ts.len() {
        assert(sub_topics_from(ts, k) == Seq::<u8>::empty());
        assert(i == b.len());
        assert(ts.skip(k) =~= Seq::<SubscribeTopicView>::empty());
    } else {
        let t = ts[k];
        let tail = seq![t.qos.spec_as_u8()] + sub_topics_from(ts, k + 1);
        assert(sub_topics_from(ts, k) == enc_bytes(t.topic_path) + tail);
        lemma_dec_bytes_at(b, i, t.topic_path, tail);
        let pos = i + 2 + t.topic_path.len();
        lemma_suffix_split(b, pos, seq![t.qos.spec_as_u8()], sub_topics_from(ts, k + 1));
        assert(b[pos + 0] == seq![t.qos.spec_as_u8()][0]);
        assert(b[pos] == t.qos.spec_as_u8());
        lemma_qos_round(t.qos);
        lemma_dec_sub_topics(b, ts, k + 1, pos + 1);
        assert(ts.skip(k) =~= seq![SubscribeTopicView { topic_path: t.topic_path, qos: t.qos }]
            + ts.skip(k + 1));
        assert(SubscribeTopicView { topic_path: t.topic_path, qos: t.qos } == t);
    }
}

/// Reading a return-code list where one was written yields the codes from
/// position `k` on.
proof fn lemma_dec_suback_codes(b: Seq<u8>, cs: Seq<SubscribeReturnCode>, k: int, i: int)
    requires
        0 <= k <= cs.len(),
        0 <= i <= b.len(),
        b.subrange(i, b.len() as int) == suback_codes_from(cs, k),
    ensures
        dec_suback_codes(b, i) == Some(cs.skip(k)),
    decreases cs.len() - k,
{
    if k == cs.len() {
        assert(suback_codes_from(cs, k) == Seq::<u8>::empty());
        assert(i == b.len());
        assert(cs.skip(k) =~= Seq::<SubscribeReturnCode>::empty());
    } else {
        let c = cs[k];
        assert(suback_codes_from(cs, k) == seq![src_as_u8(c)] + suback_codes_from(cs, k + 1));
        lemma_suffix_split(b, i, seq![src_as_u8(c)], suback_codes_from(cs, k + 1));
        assert(b[i + 0] == seq![src_as_u8(c)][0]);
        assert(b[i] == src_as_u8(c));
        lemma_src_round(c);
        lemma_dec_suback_codes(b, cs, k + 1, i + 1);
        assert(cs.skip(k) =~= seq![c] + cs.skip(k + 1));
    }
}

/// Reading an unsubscribe topic list where one was written yields the
/// topics from position `k` on.
proof fn lemma_dec_unsub_topics(b: Seq<u8>, ts: Seq<Seq<u8>>, k: int, i: int)
    requires
        0 <= k <= ts.len(),
        0 <= i <= b.len(),
        b.subrange(i, b.len() as int) == unsub_topics_from(ts, k),
        forall|j: int| k <= j < ts.len() ==> (#[trigger] ts[j]).len() <= 65535,
    ensures
        dec_unsub_topics(b, i) == Some(ts.skip(k)),
    decreases ts.len() - k,
{
    if k == ts.len() {
        assert(unsub_topics_from(ts, k) == Seq::<u8>::empty());
        assert(i == b.len());
        assert(ts.skip(k) =~= Seq::<Seq<u8>>::empty());
    } else {
        let t = ts[k];
        assert(unsub_topics_from(ts, k) == enc_bytes(t) + unsub_topics_from(ts, k + 1));
        lemma_dec_bytes_at(b, i, t, unsub_topics_from(ts, k + 1));
        lemma_dec_unsub_topics(b, ts, k + 1, i + 2 + t.len());
        assert(ts.skip(k) =~= seq![t] + ts.skip(k + 1));
    }
}

/// The flag byte of a CONNECT reads back as the options that formed it.
proof fn lemma_connect_flags_round(c: ConnectView)
    ensures
        ({
            let f = connect_flag_bits(c);
            &&& 0 <= f <= 255
            &&& (f / 128 == 1) == (c.username is Some)
            &&& ((f / 64) % 2 == 1) == (c.password is Some)
            &&& ((f / 32) % 2 == 1) == (c.last_will matches Some(w) && w.retain)
            &&& (f / 8) % 4 == (match c.last_will {
                Some(w) => w.qos.spec_as_u8() as int,
                None => 0int,
            })
            &&& ((f / 4) % 2 == 1) == (c.last_will is Some)
            &&& ((f / 2) % 2 == 1) == c.clean_session
            &&& f % 2 == 0
        }),
{
    let u: int = if c.username is Some {
        1
    } else {
        0
    };
    let p: int = if c.password is Some {
        1
    } else {
        0
    };
    let wr: int = match c.last_will {
        Some(w) => if w.retain {
            1int
        } else {
            0int
        },
        None => 0int,
    };
    let wq: int = match c.last_will {
        Some(w) => w.qos.spec_as_u8() as int,
        None => 0int,
    };
    let wf: int = if c.last_will is Some {
        1
    } else {
        0
    };
    let cs: int = if c.clean_session {
        1
    } else {
        0
    };
    let f = connect_flag_bits(c);
    assert(0 <= wq <= 2);
    assert(f == 128 * u + 64 * p + 32 * wr + 8 * wq + 4 * wf + 2 * cs);
    lemma_fundamental_div_mod_converse(f, 128, u, 64 * p + 32 * wr + 8 * wq + 4 * wf + 2 * cs);
    lemma_fundamental_div_mod_converse(f, 64, 2 * u + p, 32 * wr + 8 * wq + 4 * wf + 2 * cs);
    lemma_fundamental_div_mod_converse(2 * u + p, 2, u, p);
    lemma_fundamental_div_mod_converse(f, 32, 4 * u + 2 * p + wr, 8 * wq + 4 * wf + 2 * cs);
    lemma_fundamental_div_mod_converse(4 * u + 2 * p + wr, 2, 2 * u + p, wr);
    lemma_fundamental_div_mod_converse(f, 8, 16 * u + 8 * p + 4 * wr + wq, 4 * wf + 2 * cs);
    lemma_fundamental_div_mod_converse(16 * u + 8 * p + 4 * wr + wq, 4, 4 * u + 2 * p + wr, wq);
    lemma_fundamental_div_mod_converse(f, 4, 32 * u + 16 * p + 8 * wr + 2 * wq + wf, 2 * cs);
    lemma_fundamental_div_mod_converse(
        32 * u + 16 * p + 8 * wr + 2 * wq + wf,
        2,
        16 * u + 8 * p + 4 * wr + wq,
        wf,
    );
    lemma_fundamental_div_mod_converse(f, 2, 64 * u + 32 * p + 16 * wr + 4 * wq + 2 * wf + cs, 0);
    lemma_fundamental_div_mod_converse(
        64 * u + 32 * p + 16 * wr + 4 * wq + 2 * wf + cs,
        2,
        32 * u + 16 * p + 8 * wr + 2 * wq + wf,
        cs,
    );
}

/// Where each field of an encoded CONNECT body ends.
pub open spec fn cid_end(c: ConnectView) -> int {
    12 + c.client_id.len() as int
}

pub open spec fn will_end(c: ConnectView) -> int {
    match c.last_will {
        Some(w) => cid_end(c) + 2 + w.topic.len() + 2 + w.message.len(),
        None => cid_end(c),
    }
}

pub open spec fn user_end(c: ConnectView) -> int {
    match c.username {
        Some(u) => will_end(c) + 2 + u.len(),
        None => will_end(c),
    }
}

pub open spec fn pass_end(c: ConnectView) -> int {
    match c.password {
        Some(q) => user_end(c) + 2 + q.len(),
        None => user_end(c),
    }
}

/// The layout of an encoded CONNECT body: where each field sits and what
/// reading it back yields.
#[verifier::rlimit(100)]
proof fn lemma_connect_layout(c: ConnectView)
    requires
        structural_ok(PacketView::Connect(c)),
    ensures
        ({
            let b = connect_body(c);
            &&& b.len() == pass_end(c)
            &&& b.len() >= 10
            &&& dec_u16_at(b, 0) == 4
            &&& b[2] == 77 && b[3] == 81 && b[4] == 84 && b[5] == 84 && b[6] == 4
            &&& b[7] == connect_flag_bits(c) as u8
            &&& dec_u16_at(b, 8) == c.keep_alive
            &&& dec_bytes_at(b, 10) == Some((c.client_id, cid_end(c)))
            &&& (c.last_will matches Some(w) ==> dec_bytes_at(b, cid_end(c)) == Some(
                (w.topic, cid_end(c) + 2 + w.topic.len()),
            ) && dec_bytes_at(b, cid_end(c) + 2 + w.topic.len()) == Some((w.message, will_end(c))))
            &&& (c.username matches Some(u) ==> dec_bytes_at(b, will_end(c)) == Some(
                (u, user_end(c)),
            ))
            &&& (c.password matches Some(q) ==> dec_bytes_at(b, user_end(c)) == Some(
                (q, pass_end(c)),
            ))
        }),
{
    let b = connect_body(c);
    let f = connect_flag_bits(c);
    lemma_connect_flags_round(c);
    let fb = f as u8;
    let ka = c.keep_alive;
    let e_will: Seq<u8> = match c.last_will {
        Some(w) => enc_bytes(w.topic) + enc_bytes(w.message),
        None => Seq::empty(),
    };
    let e_user: Seq<u8> = match c.username {
        Some(u) => enc_bytes(u),
        None => Seq::empty(),
    };
    let e_pass: Seq<u8> = match c.password {
        Some(q) => enc_bytes(q),
        None => Seq::empty(),
    };
    let first10 = seq![
        0u8,
        4,
        77,
        81,
        84,
        84,
        4,
        fb,
        (ka / 256) as u8,
        (ka % 256) as u8,
    ];
    let rest10 = enc_bytes(c.client_id) + (e_will + (e_user + e_pass));
    assert(b.subrange(0, b.len() as int) =~= first10 + rest10);
    lemma_suffix_split(b, 0, first10, rest10);
    assert(b[0] == 0 && b[1] == 4 && b[2] == 77 && b[3] == 81 && b[4] == 84 && b[5] == 84 && b[6]
        == 4 && b[7] == fb);
    lemma_dec_u16_at(b, 0, 4);
    lemma_dec_u16_at(b, 8, ka);
    lemma_dec_bytes_at(b, 10, c.client_id, e_will + (e_user + e_pass));
    let pos1 = cid_end(c);
    match c.last_will {
        Some(w) => {
            assert(e_will + (e_user + e_pass) =~= enc_bytes(w.topic) + (enc_bytes(w.message) + (
            e_user + e_pass)));
            lemma_dec_bytes_at(b, pos1, w.topic, enc_bytes(w.message) + (e_user + e_pass));
            let pos2 = pos1 + 2 + w.topic.len() as int;
            lemma_dec_bytes_at(b, pos2, w.message, e_user + e_pass);
        },
        None => {
            assert(e_will + (e_user + e_pass) =~= e_user + e_pass);
        },
    }
    assert(b.subrange(will_end(c), b.len() as int) == e_user + e_pass);
    match c.username {
        Some(u) => {
            lemma_dec_bytes_at(b, will_end(c), u, e_pass);
        },
        None => {
            assert(e_user + e_pass =~= e_pass);
        },
    }
    assert(b.subrange(user_end(c), b.len() as int) == e_pass);
    match c.password {
        Some(q) => {
            assert(e_pass =~= enc_bytes(q) + Seq::<u8>::empty());
            lemma_dec_bytes_at(b, user_end(c), q, Seq::empty());
        },
        None => {
            assert(user_end(c) == b.len());
        },
    }
}

/// Decoding a CONNECT body that was produced by `connect_body` yields the
/// packet back.
#[verifier::rlimit(100)]
proof fn lemma_dec_connect_round(c: ConnectView)
    requires
        structural_ok(PacketView::Connect(c)),
    ensures
        dec_connect(connect_body(c)) == Some(PacketView::Connect(c)),
{
    let b = connect_body(c);
    lemma_connect_flags_round(c);
    lemma_connect_layout(c);
    match c.last_will {
        Some(w) => {
            lemma_qos_round(w.qos);
        },
        None => {},
    }
    let parsed = ConnectView {
        keep_alive: dec_u16_at(b, 8),
        client_id: c.client_id,
        clean_session: c.clean_session,
        last_will: c.last_will,
        username: c.username,
        password: c.password,
    };
    assert(dec_connect(b) == Some(PacketView::Connect(parsed)));
    assert(parsed == c);
}

/// The header byte of a PUBLISH reads back as its flags.
proof fn lemma_publish_header_round(pv: PublishView)
    ensures
        ({
            let h = header_byte(PacketView::Publish(pv));
            let fl = (h % 16) as int;
            &&& h / 16 == 3
            &&& (fl / 8 == 1) == pv.dup
            &&& (fl / 2) % 4 == pv.qos.spec_as_u8() as int
            &&& (fl % 2 == 1) == pv.retain
        }),
{
    let d: int = if pv.dup {
        1
    } else {
        0
    };
    let q: int = pv.qos.spec_as_u8() as int;
    let rt: int = if pv.retain {
        1
    } else {
        0
    };
    let h = header_byte(PacketView::Publish(pv)) as int;
    assert(0 <= q <= 2);
    assert(h == 48 + 8 * d + 2 * q + rt);
    let fl = 8 * d + 2 * q + rt;
    lemma_fundamental_div_mod_converse(h, 16, 3, fl);
    lemma_fundamental_div_mod_converse(fl, 8, d, 2 * q + rt);
    lemma_fundamental_div_mod_converse(fl, 2, 4 * d + q, rt);
    lemma_fundamental_div_mod_converse(4 * d + q, 4, d, q);
}

/// Decoding a body under its own header yields the packet back.
#[verifier::rlimit(100)]
proof fn lemma_dec_body_round(p: PacketView)
    requires
        structural_ok(p),
    ensures
        dec_body(header_byte(p), packet_body(p)) == Some(p),
{
    let h = header_byte(p);
    let b = packet_body(p);
    match p {
        PacketView::Connect(c) => {
            lemma_dec_connect_round(c);
        },
        PacketView::Connack(_) => {
        },
        PacketView::Publish(pv) => {
            lemma_publish_header_round(pv);
            lemma_qos_round(pv.qos);
            let tail = (if pv.qos != QoS::AtMostOnce {
                enc_u16(pv.pkid.unwrap())
            } else {
                Seq::<u8>::empty()
            }) + pv.payload;
            assert(b.subrange(0, b.len() as int) =~= enc_bytes(pv.topic_name) + tail);
            lemma_dec_bytes_at(b, 0, pv.topic_name, tail);
            let pos = 2 + pv.topic_name.len() as int;
            if pv.qos == QoS::AtMostOnce {
                assert(tail =~= pv.payload);
                assert(b.skip(pos) =~= b.subrange(pos, b.len() as int));
            } else {
                let id = pv.pkid.unwrap();
                assert(b.subrange(pos, b.len() as int) == tail);
                assert(tail =~= enc_u16(id) + pv.payload);
                lemma_suffix_split(b, pos, enc_u16(id), pv.payload);
                assert(b[pos + 0] == enc_u16(id)[0] && b[pos + 1] == enc_u16(id)[1]);
                lemma_dec_u16_at(b, pos, id);
                assert(b.skip(pos + 2) =~= b.subrange(pos + 2, b.len() as int));
            }
        },
        PacketView::Puback(id) => {
            assert(b[0] == enc_u16(id)[0] && b[1] == enc_u16(id)[1]);
            lemma_dec_u16_at(b, 0, id);
        },
        PacketView::Pubrec(id) => {
            assert(b[0] == enc_u16(id)[0] && b[1] == enc_u16(id)[1]);
            lemma_dec_u16_at(b, 0, id);
        },
        PacketView::Pubrel(id) => {
            assert(b[0] == enc_u16(id)[0] && b[1] == enc_u16(id)[1]);
            lemma_dec_u16_at(b, 0, id);
        },
        PacketView::Pubcomp(id) => {
            assert(b[0] == enc_u16(id)[0] && b[1] == enc_u16(id)[1]);
            lemma_dec_u16_at(b, 0, id);
        },
        PacketView::Subscribe(s) => {
            assert(b.subrange(0, b.len() as int) =~= enc_u16(s.pkid) + sub_topics_from(
                s.topics,
                0,
            ));
            lemma_suffix_split(b, 0, enc_u16(s.pkid), sub_topics_from(s.topics, 0));
            assert(b[0] == enc_u16(s.pkid)[0] && b[1] == enc_u16(s.pkid)[1]);
            lemma_dec_u16_at(b, 0, s.pkid);
            lemma_dec_sub_topics(b, s.topics, 0, 2);
            assert(s.topics.skip(0) =~= s.topics);
        },
        PacketView::Suback(s) => {
            assert(b.subrange(0, b.len() as int) =~= enc_u16(s.pkid) + suback_codes_from(
                s.return_codes,
                0,
            ));
            lemma_suffix_split(b, 0, enc_u16(s.pkid), suback_codes_from(s.return_codes, 0));
            assert(b[0] == enc_u16(s.pkid)[0] && b[1] == enc_u16(s.pkid)[1]);
            lemma_dec_u16_at(b, 0, s.pkid);
            lemma_dec_suback_codes(b, s.return_codes, 0, 2);
            assert(s.return_codes.skip(0) =~= s.return_codes);
        },
        PacketView::Unsubscribe(u) => {
            assert(b.subrange(0, b.len() as int) =~= enc_u16(u.pkid) + unsub_topics_from(
                u.topics,
                0,
            ));
            lemma_suffix_split(b, 0, enc_u16(u.pkid), unsub_topics_from(u.topics, 0));
            assert(b[0] == enc_u16(u.pkid)[0] && b[1] == enc_u16(u.pkid)[1]);
            lemma_dec_u16_at(b, 0, u.pkid);
            lemma_dec_unsub_topics(b, u.topics, 0, 2);
            assert(u.topics.skip(0) =~= u.topics);
        },
        PacketView::Unsuback(id) => {
            assert(b[0] == enc_u16(id)[0] && b[1] == enc_u16(id)[1]);
            lemma_dec_u16_at(b, 0, id);
        },
        PacketView::Pingreq => {
        },
        PacketView::Pingresp => {
        },
        PacketView::Disconnect => {
        },
    }
}

/// The codec round-trips: decoding an encoded packet — whatever bytes
/// follow it in the stream — yields that packet and consumes exactly its
/// encoding, for every packet the wire can carry whose body fits the size
/// limit.
pub proof fn lemma_codec_round_trip(p: PacketView, rest: Seq<u8>, max: int)
    requires
        valid_packet(p),
        packet_body(p).len() <= max,
    ensures
        spec_decode(spec_encode(p) + rest, max) == DecodeOutcome::Packet(
            p,
            spec_encode(p).len() as int,
        ),
{
    let body = packet_body(p);
    let bl = body.len() as int;
    let rl = enc_remlen(bl);
    let s = spec_encode(p) + rest;
    assert(s.subrange(0, s.len() as int) =~= seq![header_byte(p)] + (rl + (body + rest)));
    lemma_suffix_split(s, 0, seq![header_byte(p)], rl + (body + rest));
    assert(s[0] == header_byte(p));
    assert(s.skip(1) =~= s.subrange(1, s.len() as int));
    assert(remlen_bound(4) == 268435456) by {
        assert(remlen_bound(1) == 128);
        assert(remlen_bound(2) == 16384);
        assert(remlen_bound(3) == 2097152);
    }
    lemma_remlen_round(bl, body + rest, 4);
    assert(dec_remlen(s.skip(1), 4) == RemlenOutcome::Val(bl, rl.len() as int));
    let used = rl.len() as int;
    lemma_suffix_split(s, 1, rl, body + rest);
    lemma_suffix_split(s, 1 + used, body, rest);
    assert(s.subrange(1 + used, 1 + used + bl) == body);
    lemma_dec_body_round(p);
    assert(spec_encode(p).len() == 1 + used + bl);
}

/// Append a 16-bit value, most significant byte first.
fn put_u16(buf: &mut Vec<u8>, v: u16)
    ensures
        final(buf)@ == old(buf)@ + enc_u16(v),
{
    buf.push((v / 256) as u8);
    buf.push((v % 256) as u8);
    proof {
        assert(buf@ =~= old(buf)@ + enc_u16(v));
    }
}

/// Append raw bytes.
fn put_slice(buf: &mut Vec<u8>, b: &Vec<u8>)
    ensures
        final(buf)@ == old(buf)@ + b@,
{
    let mut i: usize = 0;
    while i < b.len()
        invariant
            i <= b@.len(),
            buf@ == old(buf)@ + b@.take(i as int),
        decreases b@.len() - i,
    {
        buf.push(b[i]);
        proof {
            assert(old(buf)@ + b@.take(i + 1) =~= (old(buf)@ + b@.take(i as int)).push(
                b@[i as int],
            ));
        }
        i = i + 1;
    }
    proof {
        assert(b@.take(b@.len() as int) =~= b@);
    }
}

/// Append a length-prefixed field.
fn put_field(buf: &mut Vec<u8>, b: &Vec<u8>)
    requires
        b@.len() <= 65535,
    ensures
        final(buf)@ == old(buf)@ + enc_bytes(b@),
{
    put_u16(buf, b.len() as u16);
    put_slice(buf, b);
    proof {
        assert(buf@ =~= old(buf)@ + enc_bytes(b@));
    }
}

/// Append a remaining-length field.
fn put_remlen(buf: &mut Vec<u8>, n: u32)
    requires
        n <= 268435455,
    ensures
        final(buf)@ == old(buf)@ + enc_remlen(n as int),
{
    let mut x: u32 = n;
    loop
        invariant_except_break
            old(buf)@ + enc_remlen(n as int) == buf@ + enc_remlen(x as int),
        ensures
            buf@ == old(buf)@ + enc_remlen(n as int),
        decreases x,
    {
        let low: u8 = (x % 128) as u8;
        let ghost x0 = x;
        x = x / 128;
        proof {
            vstd::arithmetic::div_mod::lemma_fundamental_div_mod(x0 as int, 128);
        }
        if x > 0 {
            buf.push(low + 128);
            proof {
                assert(x0 >= 128);
                assert(enc_remlen(x0 as int) =~= seq![(128 + (x0 as int % 128)) as u8]
                    + enc_remlen(x0 as int / 128));
            }
        } else {
            buf.push(low);
            proof {
                assert(x0 < 128);
                assert(low == x0 as u8);
                assert(enc_remlen(x0 as int) =~= seq![(x0 as int) as u8]);
                assert(buf@ =~= old(buf)@ + enc_remlen(n as int));
            }
            break;
        }
    }
}

/// The executable structural check, mirroring `structural_ok`.
fn encodable(packet: &Packet) -> (r: bool)
    ensures
        r == structural_ok(packet@),
{
    match packet {
        Packet::Connect(c) => {
            let will_ok = match &c.last_will {
                Some(w) => w.topic.len() <= 65535 && w.message.len() <= 65535,
                None => true,
            };
            let user_ok = match &c.username {
                Some(u) => u.len() <= 65535,
                None => true,
            };
            let pass_ok = match &c.password {
                Some(q) => q.len() <= 65535,
                None => true,
            };
            c.client_id.len() <= 65535 && will_ok && user_ok && pass_ok
        },
        Packet::Publish(p) => {
            let pkid_ok = match p.pkid {
                Some(id) => id >= 1 && !matches!(p.qos, QoS::AtMostOnce),
                None => matches!(p.qos, QoS::AtMostOnce),
            };
            p.topic_name.len() <= 65535 && pkid_ok
        },
        Packet::Subscribe(s) => {
            let mut i: usize = 0;
            let mut ok = true;
            while i < s.topics.len()
                invariant
                    i <= s.topics@.len(),
                    ok == (forall|j: int|
                        0 <= j < i ==> (#[trigger] s.topics@[j]).topic_path@.len() <= 65535),
                decreases s.topics@.len() - i,
            {
                if s.topics[i].topic_path.len() > 65535 {
                    ok = false;
                }
                i = i + 1;
            }
            proof {
                assert(ok ==> sub_topics_fit(s@.topics)) by {
                    if ok {
                        assert forall|j: int|
                            0 <= j < s@.topics.len() implies (#[trigger] s@.topics[j]).topic_path.len()
                            <= 65535 by {
                            assert(s@.topics[j] == s.topics@[j]@);
                            assert(s.topics@[j].topic_path@.len() <= 65535);
                        }
                    }
                }
                assert(sub_topics_fit(s@.topics) ==> ok) by {
                    if sub_topics_fit(s@.topics) {
                        assert forall|j: int|
                            0 <= j < s.topics@.len() implies (#[trigger] s.topics@[j]).topic_path@.len()
                            <= 65535 by {
                            assert(s@.topics[j] == s.topics@[j]@);
                        }
                    }
                }
            }
            ok
        },
        Packet::Unsubscribe(u) => {
            let mut i: usize = 0;
            let mut ok = true;
            while i < u.topics.len()
                invariant
                    i <= u.topics@.len(),
                    ok == (forall|j: int| 0 <= j < i ==> (#[trigger] u.topics@[j])@.len() <= 65535),
                decreases u.topics@.len() - i,
            {
                if u.topics[i].len() > 65535 {
                    ok = false;
                }
                i = i + 1;
            }
            proof {
                assert(ok ==> topics_fit(u@.topics)) by {
                    if ok {
                        assert forall|j: int|
                            0 <= j < u@.topics.len() implies (#[trigger] u@.topics[j]).len()
                            <= 65535 by {
                            assert(u@.topics[j] == u.topics@[j]@);
                            assert(u.topics@[j]@.len() <= 65535);
                        }
                    }
                }
                assert(topics_fit(u@.topics) ==> ok) by {
                    if topics_fit(u@.topics) {
                        assert forall|j: int|
                            0 <= j < u.topics@.len() implies (#[trigger] u.topics@[j])@.len()
                            <= 65535 by {
                            assert(u@.topics[j] == u.topics@[j]@);
                        }
                    }
                }
            }
            ok
        },
        _ => true,
    }
}

/// The executable header byte, mirroring `header_byte`.
fn header_byte_of(packet: &Packet) -> (r: u8)
    ensures
        r == header_byte(packet@),
{
    match packet {
        Packet::Connect(_) => 16,
        Packet::Connack(_) => 32,
        Packet::Publish(p) => {
            let d: u8 = if p.dup {
                8
            } else {
                0
            };
            let rt: u8 = if p.retain {
                1
            } else {
                0
            };
            48 + d + p.qos.as_u8() * 2 + rt
        },
        Packet::Puback(_) => 64,
        Packet::Pubrec(_) => 80,
        Packet::Pubrel(_) => 98,
        Packet::Pubcomp(_) => 112,
        Packet::Subscribe(_) => 130,
        Packet::Suback(_) => 144,
        Packet::Unsubscribe(_) => 162,
        Packet::Unsuback(_) => 176,
        Packet::Pingreq => 192,
        Packet::Pingresp => 208,
        Packet::Disconnect => 224,
    }
}

/// The executable wire value of a subscription return code.
fn src_to_u8(c: &SubscribeReturnCode) -> (r: u8)
    ensures
        r == src_as_u8(*c),
{
    match c {
        SubscribeReturnCode::Success(q) => q.as_u8(),
        SubscribeReturnCode::Failure => 128,
    }
}

/// The executable connect-flags byte, mirroring `connect_flag_bits`.
fn connect_flags_of(c: &crate::packet::Connect) -> (r: u8)
    ensures
        r as int == connect_flag_bits(c@),
{
    let will_flags: u8 = match &c.last_will {
        Some(w) => {
            let rt: u8 = if w.retain {
                32
            } else {
                0
            };
            rt + w.qos.as_u8() * 8 + 4
        },
        None => 0,
    };
    let user_flag: u8 = if c.username.is_some() {
        128
    } else {
        0
    };
    let pass_flag: u8 = if c.password.is_some() {
        64
    } else {
        0
    };
    let clean_flag: u8 = if c.clean_session {
        2
    } else {
        0
    };
    user_flag + pass_flag + will_flags + clean_flag
}

/// Append the body of a CONNECT packet.
#[verifier::rlimit(100)]
#[verifier::spinoff_prover]
fn encode_connect_body(c: &crate::packet::Connect, buf: &mut Vec<u8>)
    requires
        structural_ok(PacketView::Connect(c@)),
    ensures
        final(buf)@ == old(buf)@ + connect_body(c@),
{
    let ghost head = enc_bytes(seq![77u8, 81, 84, 84]) + seq![
        4u8,
        connect_flag_bits(c@) as u8,
    ] + enc_u16(c@.keep_alive) + enc_bytes(c@.client_id);
    put_u16(buf, 4);
    buf.push(77);
    buf.push(81);
    buf.push(84);
    buf.push(84);
    buf.push(4);
    let flags = connect_flags_of(c);
    buf.push(flags);
    put_u16(buf, c.keep_alive);
    put_field(buf, &c.client_id);
    proof {
        assert(buf@ =~= old(buf)@ + head);
    }
    let ghost mid = buf@;
    match &c.last_will {
        Some(w) => {
            put_field(buf, &w.topic);
            put_field(buf, &w.message);
            proof {
                assert(buf@ =~= mid + (enc_bytes(w@.topic) + enc_bytes(w@.message)));
            }
        },
        None => {},
    }
    match &c.username {
        Some(u) => {
            put_field(buf, u);
        },
        None => {},
    }
    match &c.password {
        Some(q) => {
            put_field(buf, q);
        },
        None => {},
    }
    proof {
        assert(buf@ =~= old(buf)@ + connect_body(c@));
    }
}

/// Append the body of a SUBSCRIBE packet.
#[verifier::rlimit(100)]
fn encode_subscribe_body(s: &crate::packet::Subscribe, buf: &mut Vec<u8>)
    requires
        structural_ok(PacketView::Subscribe(s@)),
    ensures
        final(buf)@ == old(buf)@ + subscribe_body(s@),
{
    put_u16(buf, s.pkid);
    let ghost tv = s@.topics;
    let mut i: usize = 0;
    while i < s.topics.len()
        invariant
            i <= s.topics@.len(),
            tv == s@.topics,
            tv.len() == s.topics@.len(),
            forall|j: int| 0 <= j < tv.len() ==> tv[j] == (#[trigger] s.topics@[j])@,
            forall|j: int|
        0 <= j < tv.len() ==> (#[trigger] tv[j]).topic_path.len() <= 65535,
            buf@ + sub_topics_from(tv, i as int) == old(buf)@ + enc_u16(s.pkid)
        + sub_topics_from(tv, 0),
        decreases s.topics@.len() - i,
    {
        let ghost pre = buf@;
        put_field(buf, &s.topics[i].topic_path);
        buf.push(s.topics[i].qos.as_u8());
        proof {
            assert(buf@ =~= pre + (enc_bytes(tv[i as int].topic_path)
        + seq![tv[i as int].qos.spec_as_u8()]));
            assert(sub_topics_from(tv, i as int) == enc_bytes(tv[i as int].topic_path)
        + seq![tv[i as int].qos.spec_as_u8()] + sub_topics_from(tv, i + 1));
            assert(buf@ + sub_topics_from(tv, i + 1) =~= pre + sub_topics_from(
        tv,
        i as int,
            ));
        }
        i = i + 1;
    }
    proof {
        assert(sub_topics_from(tv, tv.len() as int) == Seq::<u8>::empty());
        assert(buf@ + Seq::<u8>::empty() =~= buf@);
        assert(buf@ =~= old(buf)@ + subscribe_body(s@));
    }
}

/// Append the body of a SUBACK packet.
#[verifier::rlimit(100)]
fn encode_suback_body(s: &crate::packet::Suback, buf: &mut Vec<u8>)
    ensures
        final(buf)@ == old(buf)@ + suback_body(s@),
{
    put_u16(buf, s.pkid);
    let ghost cv = s@.return_codes;
    let mut i: usize = 0;
    while i < s.return_codes.len()
        invariant
            i <= s.return_codes@.len(),
            cv == s.return_codes@,
            buf@ + suback_codes_from(cv, i as int) == old(buf)@ + enc_u16(s.pkid)
        + suback_codes_from(cv, 0),
        decreases s.return_codes@.len() - i,
    {
        let ghost pre = buf@;
        buf.push(src_to_u8(&s.return_codes[i]));
        proof {
            assert(suback_codes_from(cv, i as int) == seq![src_as_u8(cv[i as int])]
        + suback_codes_from(cv, i + 1));
            assert(buf@ + suback_codes_from(cv, i + 1) =~= pre + suback_codes_from(
        cv,
        i as int,
            ));
        }
        i = i + 1;
    }
    proof {
        assert(suback_codes_from(cv, cv.len() as int) == Seq::<u8>::empty());
        assert(buf@ =~= old(buf)@ + suback_body(s@));
    }
}

/// Append the body of an UNSUBSCRIBE packet.
#[verifier::rlimit(100)]
fn encode_unsubscribe_body(u: &crate::packet::Unsubscribe, buf: &mut Vec<u8>)
    requires
        structural_ok(PacketView::Unsubscribe(u@)),
    ensures
        final(buf)@ == old(buf)@ + unsubscribe_body(u@),
{
    put_u16(buf, u.pkid);
    let ghost tv = u@.topics;
    let mut i: usize = 0;
    while i < u.topics.len()
        invariant
            i <= u.topics@.len(),
            tv == u@.topics,
            tv.len() == u.topics@.len(),
            forall|j: int| 0 <= j < tv.len() ==> tv[j] == (#[trigger] u.topics@[j])@,
            forall|j: int| 0 <= j < tv.len() ==> (#[trigger] tv[j]).len() <= 65535,
            buf@ + unsub_topics_from(tv, i as int) == old(buf)@ + enc_u16(u.pkid)
        + unsub_topics_from(tv, 0),
        decreases u.topics@.len() - i,
    {
        let ghost pre = buf@;
        put_field(buf, &u.topics[i]);
        proof {
            assert(unsub_topics_from(tv, i as int) == enc_bytes(tv[i as int])
        + unsub_topics_from(tv, i + 1));
            assert(buf@ + unsub_topics_from(tv, i + 1) =~= pre + unsub_topics_from(
        tv,
        i as int,
            ));
        }
        i = i + 1;
    }
    proof {
        assert(unsub_topics_from(tv, tv.len() as int) == Seq::<u8>::empty());
        assert(buf@ =~= old(buf)@ + unsubscribe_body(u@));
    }
}

/// Append the variable header and payload of a packet.
#[verifier::rlimit(100)]
fn encode_body(packet: &Packet, buf: &mut Vec<u8>)
    requires
        structural_ok(packet@),
    ensures
        final(buf)@ == old(buf)@ + packet_body(packet@),
{
    match packet {
        Packet::Connect(c) => {
            encode_connect_body(c, buf);
        },
        Packet::Connack(ck) => {
            buf.push(
                if ck.session_present {
                    1
                } else {
                    0
                },
            );
            buf.push(ck.code);
            proof {
                assert(buf@ =~= old(buf)@ + packet_body(packet@));
            }
        },
        Packet::Publish(p) => {
            put_field(buf, &p.topic_name);
            match p.pkid {
                Some(id) => {
                    put_u16(buf, id);
                },
                None => {},
            }
            put_slice(buf, &p.payload);
            proof {
                assert(buf@ =~= old(buf)@ + publish_body(p@));
            }
        },
        Packet::Puback(id) => {
            put_u16(buf, *id);
        },
        Packet::Pubrec(id) => {
            put_u16(buf, *id);
        },
        Packet::Pubrel(id) => {
            put_u16(buf, *id);
        },
        Packet::Pubcomp(id) => {
            put_u16(buf, *id);
        },
        Packet::Unsuback(id) => {
            put_u16(buf, *id);
        },
        Packet::Subscribe(s) => {
            encode_subscribe_body(s, buf);
        },
        Packet::Suback(s) => {
            encode_suback_body(s, buf);
        },
        Packet::Unsubscribe(u) => {
            encode_unsubscribe_body(u, buf);
        },
        Packet::Pingreq => {
            proof {
                assert(buf@ =~= old(buf)@ + packet_body(packet@));
            }
        },
        Packet::Pingresp => {
            proof {
                assert(buf@ =~= old(buf)@ + packet_body(packet@));
            }
        },
        Packet::Disconnect => {
            proof {
                assert(buf@ =~= old(buf)@ + packet_body(packet@));
            }
        },
    }
}

/// Encode one packet onto the end of `buf`: refuse a packet whose fields
/// the wire cannot carry, and refuse — before writing anything — a body
/// larger than `max_packet_size` or than the remaining-length field can
/// express.
pub fn encode(packet: &Packet, max_packet_size: usize, buf: &mut Vec<u8>) -> (r: Result<
    (),
    CodecError,
>)
    ensures
        !structural_ok(packet@) ==> r == Err::<(), CodecError>(CodecError::InvalidPacket)
            && final(buf)@ == old(buf)@,
        structural_ok(packet@) && packet_body(packet@).len() > max_packet_size ==> r == Err::<
            (),
            CodecError,
        >(CodecError::PacketSizeLimitExceeded) && final(buf)@ == old(buf)@,
        structural_ok(packet@) && packet_body(packet@).len() <= max_packet_size && packet_body(
            packet@,
        ).len() > max_remaining_length() ==> r == Err::<(), CodecError>(CodecError::InvalidPacket)
            && final(buf)@ == old(buf)@,
        structural_ok(packet@) && packet_body(packet@).len() <= max_packet_size && packet_body(
            packet@,
        ).len() <= max_remaining_length() ==> r == Ok::<(), CodecError>(())
            && final(buf)@ == old(buf)@ + spec_encode(packet@),
{
    if !encodable(packet) {
        return Err(CodecError::InvalidPacket);
    }
    let mut body: Vec<u8> = Vec::new();
    encode_body(packet, &mut body);
    if body.len() > max_packet_size {
        return Err(CodecError::PacketSizeLimitExceeded);
    }
    if body.len() > 268435455 {
        return Err(CodecError::InvalidPacket);
    }
    let header = header_byte_of(packet);
    buf.push(header);
    put_remlen(buf, body.len() as u32);
    put_slice(buf, &body);
    proof {
        assert(buf@ =~= old(buf)@ + spec_encode(packet@));
    }
    Ok(())
}

/// The views of a vector of subscribe topics.
pub open spec fn st_views(s: Seq<crate::packet::SubscribeTopic>) -> Seq<SubscribeTopicView> {
    Seq::new(s.len(), |i: int| s[i]@)
}

/// The views of a vector of byte vectors.
pub open spec fn bytes_views(s: Seq<Vec<u8>>) -> Seq<Seq<u8>> {
    Seq::new(s.len(), |i: int| s[i]@)
}

/// Read the 16-bit value at position `i`.
fn read_u16(buf: &Vec<u8>, i: usize) -> (r: u16)
    requires
        i + 2 <= buf@.len(),
    ensures
        r == dec_u16_at(buf@, i as int),
{
    proof {
        vstd::std_specs::vec::axiom_spec_len(buf);
    }
    (buf[i] as u16) * 256 + (buf[i + 1] as u16)
}

/// Copy the bytes between two positions.
fn read_vec(buf: &Vec<u8>, from: usize, to: usize) -> (r: Vec<u8>)
    requires
        from <= to <= buf@.len(),
    ensures
        r@ == buf@.subrange(from as int, to as int),
{
    let mut r: Vec<u8> = Vec::new();
    let mut i: usize = 0;
    while i < to - from
        invariant
            from <= to <= buf@.len(),
            i <= to - from,
            r@ == buf@.subrange(from as int, from + i),
        decreases to - from - i,
    {
        r.push(buf[from + i]);
        proof {
            assert(buf@.subrange(from as int, from + i + 1) =~= buf@.subrange(
                from as int,
                from + i,
            ).push(buf@[from + i]));
        }
        i = i + 1;
    }
    r
}

/// Read a length-prefixed field at position `i`, mirroring `dec_bytes_at`.
fn read_field(buf: &Vec<u8>, i: usize) -> (r: Option<(Vec<u8>, usize)>)
    requires
        i <= buf@.len(),
    ensures
        match dec_bytes_at(buf@, i as int) {
            None => r is None,
            Some((f, pos)) => r matches Some((fv, pv)) && fv@ == f && pv as int == pos,
        },
{
    if buf.len() - i < 2 {
        return None;
    }
    let n = read_u16(buf, i) as usize;
    if buf.len() - i - 2 < n {
        return None;
    }
    let f = read_vec(buf, i + 2, i + 2 + n);
    Some((f, i + 2 + n))
}

/// Read a remaining-length field at position `i`, allowing `depth` more
/// bytes, mirroring `dec_remlen`.
fn read_remlen(buf: &Vec<u8>, i: usize, depth: u32) -> (r: Result<Option<(u32, usize)>, CodecError>)
    requires
        i <= buf@.len(),
        depth <= 4,
    ensures
        match dec_remlen(buf@.skip(i as int), depth as int) {
            RemlenOutcome::NeedMore => r == Ok::<Option<(u32, usize)>, CodecError>(None),
            RemlenOutcome::Malformed => r == Err::<Option<(u32, usize)>, CodecError>(
                CodecError::InvalidPacket,
            ),
            RemlenOutcome::Val(v, used) => r matches Ok(Some((vv, uu))) && vv as int == v && uu
                as int == used && v < remlen_bound(depth as int) && i + uu <= buf@.len(),
        },
    decreases depth,
{
    if depth == 0 {
        return Err(CodecError::InvalidPacket);
    }
    if i >= buf.len() {
        proof {
            assert(buf@.skip(i as int).len() == 0);
        }
        return Ok(None);
    }
    let b0 = buf[i];
    proof {
        assert(buf@.skip(i as int)[0] == buf@[i as int]);
    }
    if b0 < 128 {
        proof {
            assert(remlen_bound(1) == 128);
            assert(remlen_bound(2) == 16384);
            assert(remlen_bound(3) == 2097152);
            assert(remlen_bound(4) == 268435456);
            assert(remlen_bound(depth as int) >= 128);
        }
        return Ok(Some((b0 as u32, 1)));
    }
    proof {
        assert(buf@.skip(i as int).drop_first() =~= buf@.skip(i as int + 1));
        assert(remlen_bound(1) == 128);
        assert(remlen_bound(2) == 16384);
        assert(remlen_bound(3) == 2097152);
        assert(remlen_bound(4) == 268435456);
    }
    match read_remlen(buf, i + 1, depth - 1) {
        Err(e) => Err(e),
        Ok(None) => Ok(None),
        Ok(Some((v, used))) => {
            let value: u32 = (b0 - 128) as u32 + 128 * v;
            Ok(Some((value, used + 1)))
        },
    }
}

/// The executable quality-of-service decoding of a return code.
fn src_from(b: u8) -> (r: Option<SubscribeReturnCode>)
    ensures
        r == src_from_u8(b),
{
    if b == 128 {
        Some(SubscribeReturnCode::Failure)
    } else {
        match QoS::from_u8(b) {
            Some(q) => Some(SubscribeReturnCode::Success(q)),
            None => None,
        }
    }
}

/// Decode a CONNECT body, mirroring `dec_connect`.
#[verifier::rlimit(100)]
fn decode_connect(body: &Vec<u8>) -> (r: Result<Packet, CodecError>)
    ensures
        match dec_connect(body@) {
            None => r == Err::<Packet, CodecError>(CodecError::InvalidPacket),
            Some(pv) => r matches Ok(p) && p@ == pv,
        },
{
    if body.len() < 10 {
        return Err(CodecError::InvalidPacket);
    }
    if !(read_u16(body, 0) == 4 && body[2] == 77 && body[3] == 81 && body[4] == 84 && body[5] == 84
        && body[6] == 4) {
        return Err(CodecError::InvalidPacket);
    }
    let f = body[7];
    let has_user = f / 128 == 1;
    let has_pass = (f / 64) % 2 == 1;
    let will_retain = (f / 32) % 2 == 1;
    let will_qos = (f / 8) % 4;
    let has_will = (f / 4) % 2 == 1;
    let clean = (f / 2) % 2 == 1;
    let qos_parsed = QoS::from_u8(will_qos);
    if f % 2 != 0 || qos_parsed.is_none() || (!has_will && (will_retain || will_qos != 0)) {
        return Err(CodecError::InvalidPacket);
    }
    let keep_alive = read_u16(body, 8);
    let (client_id, pos1) = match read_field(body, 10) {
        None => {
            return Err(CodecError::InvalidPacket);
        },
        Some(x) => x,
    };
    let (last_will, posw): (Option<crate::packet::LastWill>, usize) = if has_will {
        let (wt, pos2) = match read_field(body, pos1) {
            None => {
                return Err(CodecError::InvalidPacket);
            },
            Some(x) => x,
        };
        let (wm, pos3) = match read_field(body, pos2) {
            None => {
                return Err(CodecError::InvalidPacket);
            },
            Some(x) => x,
        };
        let q = match qos_parsed {
            Some(q) => q,
            None => {
                proof {
                    assert(false);
                }
                QoS::AtMostOnce
            },
        };
        (
            Some(
                crate::packet::LastWill {
                    topic: wt,
                    message: wm,
                    qos: q,
                    retain: will_retain,
                },
            ),
            pos3,
        )
    } else {
        (None, pos1)
    };
    let (username, posu): (Option<Vec<u8>>, usize) = if has_user {
        match read_field(body, posw) {
            None => {
                return Err(CodecError::InvalidPacket);
            },
            Some((u, p2)) => (Some(u), p2),
        }
    } else {
        (None, posw)
    };
    let (password, posp): (Option<Vec<u8>>, usize) = if has_pass {
        match read_field(body, posu) {
            None => {
                return Err(CodecError::InvalidPacket);
            },
            Some((q, p2)) => (Some(q), p2),
        }
    } else {
        (None, posu)
    };
    if posp != body.len() {
        return Err(CodecError::InvalidPacket);
    }
    Ok(
        Packet::Connect(
            crate::packet::Connect {
                keep_alive,
                client_id,
                clean_session: clean,
                last_will,
                username,
                password,
            },
        ),
    )
}

/// Decode a PUBLISH body under the given flags, mirroring `dec_publish`.
fn decode_publish(flags: u8, body: &Vec<u8>) -> (r: Result<Packet, CodecError>)
    requires
        flags < 16,
    ensures
        match dec_publish(flags as int, body@) {
            None => r == Err::<Packet, CodecError>(CodecError::InvalidPacket),
            Some(pv) => r matches Ok(p) && p@ == pv,
        },
{
    let qos_bits = (flags / 2) % 4;
    let q = match QoS::from_u8(qos_bits) {
        None => {
            return Err(CodecError::InvalidPacket);
        },
        Some(q) => q,
    };
    let (topic, pos) = match read_field(body, 0) {
        None => {
            return Err(CodecError::InvalidPacket);
        },
        Some(x) => x,
    };
    let dup = flags / 8 == 1;
    let retain = flags % 2 == 1;
    if matches!(q, QoS::AtMostOnce) {
        let payload = read_vec(body, pos, body.len());
        proof {
            assert(body@.skip(pos as int) =~= body@.subrange(pos as int, body@.len() as int));
        }
        Ok(
            Packet::Publish(
                crate::packet::Publish {
                    dup,
                    qos: q,
                    retain,
                    topic_name: topic,
                    pkid: None,
                    payload,
                },
            ),
        )
    } else {
        if body.len() - pos < 2 {
            return Err(CodecError::InvalidPacket);
        }
        let id = read_u16(body, pos);
        if id == 0 {
            return Err(CodecError::InvalidPacket);
        }
        let payload = read_vec(body, pos + 2, body.len());
        proof {
            assert(body@.skip(pos + 2) =~= body@.subrange(pos + 2, body@.len() as int));
        }
        Ok(
            Packet::Publish(
                crate::packet::Publish {
                    dup,
                    qos: q,
                    retain,
                    topic_name: topic,
                    pkid: Some(id),
                    payload,
                },
            ),
        )
    }
}

/// Decode a SUBSCRIBE body, mirroring `dec_body`'s subscribe case.
#[verifier::rlimit(100)]
fn decode_subscribe(body: &Vec<u8>) -> (r: Result<Packet, CodecError>)
    requires
        body@.len() >= 2,
    ensures
        match dec_sub_topics(body@, 2) {
            None => r == Err::<Packet, CodecError>(CodecError::InvalidPacket),
            Some(ts) => r matches Ok(p) && p@ == PacketView::Subscribe(
                SubscribeView { pkid: dec_u16_at(body@, 0), topics: ts },
            ),
        },
{
    let pkid = read_u16(body, 0);
    let mut topics: Vec<crate::packet::SubscribeTopic> = Vec::new();
    let mut pos: usize = 2;
    while pos < body.len()
        invariant
            2 <= pos <= body@.len(),
            dec_sub_topics(body@, 2) == (match dec_sub_topics(body@, pos as int) {
                Some(rest) => Some(st_views(topics@) + rest),
                None => None::<Seq<SubscribeTopicView>>,
            }),
        decreases body@.len() - pos,
    {
        let (path, npos) = match read_field(body, pos) {
            None => {
                return Err(CodecError::InvalidPacket);
            },
            Some(x) => x,
        };
        if npos >= body.len() {
            return Err(CodecError::InvalidPacket);
        }
        let q = match QoS::from_u8(body[npos]) {
            None => {
                return Err(CodecError::InvalidPacket);
            },
            Some(q) => q,
        };
        let ghost old_topics = topics@;
        let ghost tview = SubscribeTopicView { topic_path: path@, qos: q };
        topics.push(crate::packet::SubscribeTopic { topic_path: path, qos: q });
        proof {
            assert(st_views(topics@) =~= st_views(old_topics).push(tview));
            assert(dec_sub_topics(body@, pos as int) == (match dec_sub_topics(
                body@,
                npos + 1,
            ) {
                Some(rest) => Some(seq![tview] + rest),
                None => None::<Seq<SubscribeTopicView>>,
            }));
            match dec_sub_topics(body@, npos + 1) {
                Some(rest) => {
                    assert(st_views(old_topics) + (seq![tview] + rest) =~= st_views(topics@)
                        + rest);
                },
                None => {},
            }
        }
        pos = npos + 1;
    }
    proof {
        assert(dec_sub_topics(body@, pos as int) == Some(Seq::<SubscribeTopicView>::empty()));
        assert(st_views(topics@) + Seq::<SubscribeTopicView>::empty() =~= st_views(topics@));
    }
    let p = Packet::Subscribe(crate::packet::Subscribe { pkid, topics });
    proof {
        assert(p@ matches PacketView::Subscribe(sv) && sv.topics =~= st_views(
            match p {
                Packet::Subscribe(s) => s.topics@,
                _ => Seq::empty(),
            },
        ));
    }
    Ok(p)
}

/// Decode a SUBACK body, mirroring `dec_body`'s suback case.
#[verifier::rlimit(100)]
fn decode_suback(body: &Vec<u8>) -> (r: Result<Packet, CodecError>)
    requires
        body@.len() >= 2,
    ensures
        match dec_suback_codes(body@, 2) {
            None => r == Err::<Packet, CodecError>(CodecError::InvalidPacket),
            Some(cs) => r matches Ok(p) && p@ == PacketView::Suback(
                SubackView { pkid: dec_u16_at(body@, 0), return_codes: cs },
            ),
        },
{
    let pkid = read_u16(body, 0);
    let mut codes: Vec<SubscribeReturnCode> = Vec::new();
    let mut pos: usize = 2;
    while pos < body.len()
        invariant
            2 <= pos <= body@.len(),
            dec_suback_codes(body@, 2) == (match dec_suback_codes(body@, pos as int) {
                Some(rest) => Some(codes@ + rest),
                None => None::<Seq<SubscribeReturnCode>>,
            }),
        decreases body@.len() - pos,
    {
        let c = match src_from(body[pos]) {
            None => {
                return Err(CodecError::InvalidPacket);
            },
            Some(c) => c,
        };
        let ghost old_codes = codes@;
        codes.push(c);
        proof {
            match dec_suback_codes(body@, pos + 1) {
                Some(rest) => {
                    assert(old_codes + (seq![c] + rest) =~= codes@ + rest);
                },
                None => {},
            }
        }
        pos = pos + 1;
    }
    proof {
        assert(dec_suback_codes(body@, pos as int) == Some(Seq::<SubscribeReturnCode>::empty()));
        assert(codes@ + Seq::<SubscribeReturnCode>::empty() =~= codes@);
    }
    Ok(Packet::Suback(crate::packet::Suback { pkid, return_codes: codes }))
}

/// Decode an UNSUBSCRIBE body, mirroring `dec_body`'s unsubscribe case.
#[verifier::rlimit(100)]
fn decode_unsubscribe(body: &Vec<u8>) -> (r: Result<Packet, CodecError>)
    requires
        body@.len() >= 2,
    ensures
        match dec_unsub_topics(body@, 2) {
            None => r == Err::<Packet, CodecError>(CodecError::InvalidPacket),
            Some(ts) => r matches Ok(p) && p@ == PacketView::Unsubscribe(
                UnsubscribeView { pkid: dec_u16_at(body@, 0), topics: ts },
            ),
        },
{
    let pkid = read_u16(body, 0);
    let mut topics: Vec<Vec<u8>> = Vec::new();
    let mut pos: usize = 2;
    while pos < body.len()
        invariant
            2 <= pos <= body@.len(),
            dec_unsub_topics(body@, 2) == (match dec_unsub_topics(body@, pos as int) {
                Some(rest) => Some(bytes_views(topics@) + rest),
                None => None::<Seq<Seq<u8>>>,
            }),
        decreases body@.len() - pos,
    {
        let (path, npos) = match read_field(body, pos) {
            None => {
                return Err(CodecError::InvalidPacket);
            },
            Some(x) => x,
        };
        let ghost old_topics = topics@;
        let ghost tview = path@;
        topics.push(path);
        proof {
            assert(bytes_views(topics@) =~= bytes_views(old_topics).push(tview));
            match dec_unsub_topics(body@, npos as int) {
                Some(rest) => {
                    assert(bytes_views(old_topics) + (seq![tview] + rest) =~= bytes_views(
                        topics@,
                    ) + rest);
                },
                None => {},
            }
        }
        pos = npos;
    }
    proof {
        assert(dec_unsub_topics(body@, pos as int) == Some(Seq::<Seq<u8>>::empty()));
        assert(bytes_views(topics@) + Seq::<Seq<u8>>::empty() =~= bytes_views(topics@));
    }
    let p = Packet::Unsubscribe(crate::packet::Unsubscribe { pkid, topics });
    proof {
        assert(p@ matches PacketView::Unsubscribe(uv) && uv.topics =~= bytes_views(
            match p {
                Packet::Unsubscribe(u) => u.topics@,
                _ => Seq::empty(),
            },
        ));
    }
    Ok(p)
}

/// Decode a body under its header byte, mirroring `dec_body`.
#[verifier::rlimit(100)]
fn decode_body(header: u8, body: &Vec<u8>) -> (r: Result<Packet, CodecError>)
    ensures
        match dec_body(header, body@) {
            None => r == Err::<Packet, CodecError>(CodecError::InvalidPacket),
            Some(pv) => r matches Ok(p) && p@ == pv,
        },
{
    let kind = header / 16;
    let flags = header % 16;
    if kind == 1 {
        if flags != 0 {
            Err(CodecError::InvalidPacket)
        } else {
            decode_connect(body)
        }
    } else if kind == 2 {
        if flags != 0 || body.len() != 2 || body[0] > 1 {
            Err(CodecError::InvalidPacket)
        } else {
            Ok(Packet::Connack(Connack { session_present: body[0] == 1, code: body[1] }))
        }
    } else if kind == 3 {
        decode_publish(flags, body)
    } else if kind == 4 {
        if flags != 0 || body.len() != 2 {
            Err(CodecError::InvalidPacket)
        } else {
            Ok(Packet::Puback(read_u16(body, 0)))
        }
    } else if kind == 5 {
        if flags != 0 || body.len() != 2 {
            Err(CodecError::InvalidPacket)
        } else {
            Ok(Packet::Pubrec(read_u16(body, 0)))
        }
    } else if kind == 6 {
        if flags != 2 || body.len() != 2 {
            Err(CodecError::InvalidPacket)
        } else {
            Ok(Packet::Pubrel(read_u16(body, 0)))
        }
    } else if kind == 7 {
        if flags != 0 || body.len() != 2 {
            Err(CodecError::InvalidPacket)
        } else {
            Ok(Packet::Pubcomp(read_u16(body, 0)))
        }
    } else if kind == 8 {
        if flags != 2 || body.len() < 2 {
            Err(CodecError::InvalidPacket)
        } else {
            decode_subscribe(body)
        }
    } else if kind == 9 {
        if flags != 0 || body.len() < 2 {
            Err(CodecError::InvalidPacket)
        } else {
            decode_suback(body)
        }
    } else if kind == 10 {
        if flags != 2 || body.len() < 2 {
            Err(CodecError::InvalidPacket)
        } else {
            decode_unsubscribe(body)
        }
    } else if kind == 11 {
        if flags != 0 || body.len() != 2 {
            Err(CodecError::InvalidPacket)
        } else {
            Ok(Packet::Unsuback(read_u16(body, 0)))
        }
    } else if kind == 12 {
        if flags != 0 || body.len() != 0 {
            Err(CodecError::InvalidPacket)
        } else {
            Ok(Packet::Pingreq)
        }
    } else if kind == 13 {
        if flags != 0 || body.len() != 0 {
            Err(CodecError::InvalidPacket)
        } else {
            Ok(Packet::Pingresp)
        }
    } else if kind == 14 {
        if flags != 0 || body.len() != 0 {
            Err(CodecError::InvalidPacket)
        } else {
            Ok(Packet::Disconnect)
        }
    } else {
        Err(CodecError::InvalidPacket)
    }
}

/// Decode the front of a buffered byte stream under the size limit, per
/// `spec_decode`: a whole packet with the byte count it occupied, or word
/// that more bytes are needed, or the error the stream deserves.  A body
/// larger than `max_packet_size` is refused before it is copied anywhere.
pub fn decode(buf: &Vec<u8>, max_packet_size: usize) -> (r: Result<
    Option<(Packet, usize)>,
    CodecError,
>)
    ensures
        ({
            let o = spec_decode(buf@, max_packet_size as int);
            &&& (o is NeedMore ==> r == Ok::<Option<(Packet, usize)>, CodecError>(None))
            &&& (o is Malformed ==> r == Err::<Option<(Packet, usize)>, CodecError>(
                CodecError::InvalidPacket,
            ))
            &&& (o is TooLarge ==> r == Err::<Option<(Packet, usize)>, CodecError>(
                CodecError::PacketSizeLimitExceeded,
            ))
            &&& (o matches DecodeOutcome::Packet(pv, n) ==> (r matches Ok(Some((p, m))) && p@ == pv
                && m as int == n))
        }),
{
    if buf.len() < 1 {
        return Ok(None);
    }
    let header = buf[0];
    match read_remlen(buf, 1, 4) {
        Err(e) => Err(e),
        Ok(None) => Ok(None),
        Ok(Some((n, used))) => {
            proof {
                assert(remlen_bound(1) == 128);
                assert(remlen_bound(2) == 16384);
                assert(remlen_bound(3) == 2097152);
                assert(remlen_bound(4) == 268435456);
            }
            let n_us = n as usize;
            if n_us > max_packet_size {
                return Err(CodecError::PacketSizeLimitExceeded);
            }
            if buf.len() - 1 - used < n_us {
                return Ok(None);
            }
            let start = 1 + used;
            let body = read_vec(buf, start, start + n_us);
            match decode_body(header, &body) {
                Ok(p) => Ok(Some((p, start + n_us))),
                Err(e) => Err(e),
            }
        },
    }
}

} // verus!
