//! Error taxonomy of the client core.
//!
//! `StateError` is internal to the session state machine; `NetworkError`
//! terminates one session (the supervisor then reconnects per policy);
//! `ConnectError` reports a failed connection attempt.

use vstd::prelude::*;
use crate::packet::Packet;

verus! {

/// Failure inside the session state machine.
#[derive(Clone, Copy, Debug, PartialEq, Eq, Structural)]
pub enum StateError {
    /// The packet is not legal in the current connection status.
    InvalidState,
    /// An acknowledgement arrived for a packet identifier that is not in flight.
    UnsolicitedAck(u16),
    /// A release arrived (or was requested) for an identifier not awaiting one.
    UnsolicitedPubRel(u16),
    /// The broker refused the connection with this return code.
    ConnAckFailed(u8),
    /// Every packet identifier is in flight; nothing can be allocated.
    PacketIdsExhausted,
}

/// Failure of the wire codec.
#[derive(Clone, Copy, Debug, PartialEq, Eq, Structural)]
pub enum CodecError {
    /// The bytes do not form a legal MQTT 3.1.1 control packet.
    InvalidPacket,
    /// The packet's advertised remaining length exceeds the configured limit.
    PacketSizeLimitExceeded,
}

/// Failure that ends one running session.
#[derive(Clone, Copy, Debug, PartialEq, Eq, Structural)]
pub enum NetworkError {
    /// The underlying byte stream failed.
    Io,
    /// The stream carried bytes the codec refuses.
    Codec(CodecError),
    /// No acknowledgement of a ping within one and a half keep-alive spans.
    KeepAliveTimeout,
    /// The user asked for a reconnection with new options.
    UserReconnect,
    /// An acknowledgement arrived for a packet identifier not in flight.
    UnsolicitedAck(u16),
    /// Every packet identifier is in flight.
    PacketIdsExhausted,
    /// A packet arrived or was submitted in a status that does not allow it.
    InvalidState,
    /// A packet larger than the configured maximum was seen.
    PacketSizeLimitExceeded,
    /// The user request channel closed.
    RequestsDone,
}

/// Failure while establishing a connection and completing the MQTT handshake.
#[derive(Clone, Debug, PartialEq, Eq)]
pub enum ConnectError {
    /// The transport could not be opened.
    Io,
    /// The TLS handshake failed.
    Tls,
    /// The broker name did not resolve.
    DnsFailed,
    /// The whole connection attempt overran its deadline.
    Timeout,
    /// The HTTP CONNECT proxy answered with a non-2xx status.
    ProxyBadStatus,
    /// The first packet after CONNECT was not a CONNACK.
    NotConnackPacket(Packet),
    /// The stream ended before any answer to CONNECT.
    NoResponse,
    /// The broker refused the connection with this return code.
    ConnAckFailed(u8),
    /// The handshake found the state machine in an impossible status.
    InvalidState,
}

/// Rejected value in the client options.
#[derive(Clone, Copy, Debug, PartialEq, Eq, Structural)]
pub enum OptionsError {
    /// The client identifier is empty or begins with a space.
    InvalidClientId,
    /// The keep-alive span is under 10 seconds or over what the wire carries.
    InvalidKeepAlive,
    /// The maximum packet size is zero or too large to express in bytes.
    InvalidMaxPacketSize,
    /// A rate limit of zero messages per second.
    InvalidRateLimit,
    /// A queue limit with a threshold of zero.
    InvalidQueueLimit,
}

} // verus!
