//! The decision logic of the connection event loop.
//!
//! The loop itself — sockets, channels, timers, threads — lives outside this
//! crate; every choice it has to make (what to send, what to surface, when to
//! reconnect, when to ping, when to give up) is a pure function here, with a
//! contract that pins the choice.

use vstd::prelude::*;
use crate::error::{ConnectError, NetworkError, StateError};
use crate::mqttoptions::{MqttOptions, ReconnectOptions};
use crate::mqttstate::{MqttConnectionStatus, MqttState};
use crate::packet::{Connack, Packet, Publish, Suback, Subscribe, Unsubscribe};

verus! {

/// A user's request to the event loop.
#[derive(Debug, PartialEq, Eq)]
pub enum Request {
    Publish(Publish),
    Subscribe(Subscribe),
    Unsubscribe(Unsubscribe),
    PubAck(u16),
    PubRec(u16),
    PubRel(u16),
    PubComp(u16),
    Ping,
    Reconnect(MqttOptions),
    Disconnect,
    /// Sentinel that carries nothing; it is filtered before the network.
    Noop,
}

/// What the event loop surfaces to the user.
#[derive(Debug, PartialEq, Eq)]
pub enum Notification {
    Publish(Publish),
    PubAck(u16),
    PubRec(u16),
    PubRel(u16),
    PubComp(u16),
    SubAck(Suback),
    Reconnection,
    Disconnection,
    /// Nothing to surface.
    Noop,
}

/// The packet a plain request stands for.  `Reconnect` and `Noop` stand for
/// no packet and are handled before this translation.
pub open spec fn spec_request_packet(item: Request) -> Packet {
    match item {
        Request::Publish(publish) => Packet::Publish(publish),
        Request::Subscribe(subscribe) => Packet::Subscribe(subscribe),
        Request::Unsubscribe(unsubscribe) => Packet::Unsubscribe(unsubscribe),
        Request::PubAck(pkid) => Packet::Puback(pkid),
        Request::PubRec(pkid) => Packet::Pubrec(pkid),
        Request::PubRel(pkid) => Packet::Pubrel(pkid),
        Request::PubComp(pkid) => Packet::Pubcomp(pkid),
        Request::Ping => Packet::Pingreq,
        Request::Disconnect => Packet::Disconnect,
        Request::Reconnect(_) => Packet::Pingreq,
        Request::Noop => Packet::Pingreq,
    }
}

/// Translate a request into the packet it stands for.
pub fn request_to_packet(item: Request) -> (r: Packet)
    requires
        !(item is Reconnect),
        !(item is Noop),
    ensures
        r == spec_request_packet(item),
{
    match item {
        Request::Publish(publish) => Packet::Publish(publish),
        Request::Subscribe(subscribe) => Packet::Subscribe(subscribe),
        Request::Unsubscribe(unsubscribe) => Packet::Unsubscribe(unsubscribe),
        Request::PubAck(pkid) => Packet::Puback(pkid),
        Request::PubRec(pkid) => Packet::Pubrec(pkid),
        Request::PubRel(pkid) => Packet::Pubrel(pkid),
        Request::PubComp(pkid) => Packet::Pubcomp(pkid),
        Request::Ping => Packet::Pingreq,
        Request::Disconnect => Packet::Disconnect,
        Request::Reconnect(_) => Packet::Pingreq,
        Request::Noop => Packet::Pingreq,
    }
}

/// A reply produced by the session state machine reaches the network only if
/// it stands for a packet; the sentinel is dropped.
pub fn should_forward_packet(reply: &Request) -> (r: bool)
    ensures
        r == !(reply is Noop),
{
    match reply {
        Request::Noop => false,
        _ => true,
    }
}

/// What the loop should hand to the notification channel: nothing when there
/// is nothing to surface, and nothing when the channel is full — a full
/// channel drops the notification rather than blocking the loop.
pub fn handle_notification(notification: Notification, channel_full: bool) -> (r: Option<
    Notification,
>)
    ensures
        notification is Noop || channel_full ==> r is None,
        !(notification is Noop) && !channel_full ==> r == Some(notification),
{
    match notification {
        Notification::Noop => None,
        n => if channel_full {
            None
        } else {
            Some(n)
        },
    }
}

/// What the supervisor does after a connection attempt or session ends.
#[derive(Clone, Copy, Debug, PartialEq, Eq, Structural)]
pub enum ReconnectDecision {
    /// Sleep this many seconds, then connect again.
    Retry(u64),
    /// Give up; the client shuts down.
    Halt,
}

/// The reconnection policy, applied to the number of successful connections
/// made so far: `Never` always halts; `AfterFirstSuccess` halts until one
/// connection has succeeded and retries afterwards; `Always` always retries.
pub fn reconnect_decision(opts: ReconnectOptions, connection_count: u32) -> (r: ReconnectDecision)
    ensures
        opts is Never ==> r == ReconnectDecision::Halt,
        opts matches ReconnectOptions::AfterFirstSuccess(d) ==> r == (if connection_count == 0 {
            ReconnectDecision::Halt
        } else {
            ReconnectDecision::Retry(d)
        }),
        opts matches ReconnectOptions::Always(d) ==> r == ReconnectDecision::Retry(d),
{
    match opts {
        ReconnectOptions::Never => ReconnectDecision::Halt,
        ReconnectOptions::AfterFirstSuccess(d) => {
            if connection_count == 0 {
                ReconnectDecision::Halt
            } else {
                ReconnectDecision::Retry(d)
            }
        }
        ReconnectOptions::Always(d) => ReconnectDecision::Retry(d),
    }
}

/// Turn one user request into what goes on the wire: a reconnection request
/// installs the new options and ends the session with `UserReconnect`; any
/// other request stands for its packet.  The sentinel never reaches here.
pub fn validate_userrequest(userrequest: Request, mqtt_state: &mut MqttState) -> (r: Result<
    Packet,
    NetworkError,
>)
    requires
        !(userrequest is Noop),
    ensures
        userrequest matches Request::Reconnect(opts) ==> r == Err::<Packet, NetworkError>(
            NetworkError::UserReconnect,
        ) && *final(mqtt_state) == (MqttState { opts, ..*old(mqtt_state) }),
        !(userrequest is Reconnect) ==> r == Ok::<Packet, NetworkError>(
            spec_request_packet(userrequest),
        ) && *final(mqtt_state) == *old(mqtt_state),
{
    match userrequest {
        Request::Reconnect(opts) => {
            mqtt_state.opts = opts;
            Err(NetworkError::UserReconnect)
        },
        req => Ok(request_to_packet(req)),
    }
}

/// The session-ending error a state-machine failure stands for.
pub fn network_error_of_state(e: StateError) -> (r: NetworkError)
    ensures
        e is InvalidState ==> r == NetworkError::InvalidState,
        e matches StateError::UnsolicitedAck(id) ==> r == NetworkError::UnsolicitedAck(id),
        e matches StateError::UnsolicitedPubRel(id) ==> r == NetworkError::UnsolicitedAck(id),
        e matches StateError::ConnAckFailed(_) ==> r == NetworkError::InvalidState,
        e is PacketIdsExhausted ==> r == NetworkError::PacketIdsExhausted,
{
    match e {
        StateError::InvalidState => NetworkError::InvalidState,
        StateError::UnsolicitedAck(id) => NetworkError::UnsolicitedAck(id),
        StateError::UnsolicitedPubRel(id) => NetworkError::UnsolicitedAck(id),
        StateError::ConnAckFailed(_) => NetworkError::InvalidState,
        StateError::PacketIdsExhausted => NetworkError::PacketIdsExhausted,
    }
}

/// What checking the first packet of a session must conclude: nothing at
/// all is no answer; anything but a CONNACK is a protocol error carrying
/// that packet; a CONNACK drives the handshake as `connack_transition`
/// does, with its state error rendered as a connect error.
pub open spec fn connack_check(
    pre: MqttState,
    post: MqttState,
    c: Connack,
    now: u64,
    r: Result<(), ConnectError>,
) -> bool {
    if !(pre.connection_status is Handshake) {
        r == Err::<(), ConnectError>(ConnectError::InvalidState) && post == pre
    } else if c.code != 0 {
        r == Err::<(), ConnectError>(ConnectError::ConnAckFailed(c.code)) && post == (MqttState {
            connection_status: MqttConnectionStatus::Disconnected,
            ..pre
        })
    } else if c.session_present && pre.opts.clean_session {
        r == Err::<(), ConnectError>(ConnectError::InvalidState) && post == (MqttState {
            connection_status: MqttConnectionStatus::Disconnected,
            ..pre
        })
    } else {
        r == Ok::<(), ConnectError>(()) && post == (MqttState {
            connection_status: MqttConnectionStatus::Connected,
            await_pingresp: false,
            last_incoming: now,
            ..pre
        })
    }
}

/// Check the first packet after CONNECT, which must be the broker's
/// CONNACK, and complete the handshake, per `connack_check`.
pub fn check_and_validate_connack(packet: Option<Packet>, mqtt_state: &mut MqttState, now: u64) -> (r:
    Result<(), ConnectError>)
    requires
        old(mqtt_state).wf(),
    ensures
        final(mqtt_state).wf(),
        packet is None ==> r == Err::<(), ConnectError>(ConnectError::NoResponse)
            && *final(mqtt_state) == *old(mqtt_state),
        packet matches Some(pk) ==> (!(pk is Connack) ==> r == Err::<(), ConnectError>(
            ConnectError::NotConnackPacket(pk),
        ) && *final(mqtt_state) == *old(mqtt_state)),
        packet matches Some(Packet::Connack(c)) ==> connack_check(
            *old(mqtt_state),
            *final(mqtt_state),
            c,
            now,
            r,
        ),
{
    match packet {
        Some(Packet::Connack(connack)) => {
            match mqtt_state.handle_incoming_connack(connack, now) {
                Ok(()) => Ok(()),
                Err(StateError::ConnAckFailed(code)) => Err(ConnectError::ConnAckFailed(code)),
                Err(_) => Err(ConnectError::InvalidState),
            }
        },
        Some(pk) => Err(ConnectError::NotConnackPacket(pk)),
        None => Err(ConnectError::NoResponse),
    }
}

/// The pause owed after an outgoing publish: once the outstanding-publish
/// count reaches the configured threshold, the loop waits the configured
/// number of milliseconds between further publishes.
pub fn outgoing_throttle_delay(mqtt_state: &MqttState) -> (r: Option<u64>)
    ensures
        mqtt_state.outgoing_pub@.len() >= mqtt_state.opts.outgoing_queuelimit.0 ==> r == Some(
            mqtt_state.opts.outgoing_queuelimit.1,
        ),
        mqtt_state.outgoing_pub@.len() < mqtt_state.opts.outgoing_queuelimit.0 ==> r is None,
{
    if mqtt_state.outgoing_pub.len() >= mqtt_state.opts.outgoing_queuelimit.0 {
        Some(mqtt_state.opts.outgoing_queuelimit.1)
    } else {
        None
    }
}

/// Paces outgoing publishes at no more than `rate` per second: each calendar
/// second opens a fresh allowance of `rate` tokens, and each publish takes
/// one.  When the allowance is gone the loop waits for the next second.
pub struct TokenBucket {
    /// Tokens granted per second; never zero.
    pub rate: u64,
    /// Tokens left in the current second.
    pub tokens: u64,
    /// The calendar second the allowance belongs to.
    pub window: u64,
}

impl TokenBucket {
    /// The allowance is bounded by the rate, and the rate is positive.
    pub open spec fn wf(self) -> bool {
        self.rate > 0 && self.tokens <= self.rate
    }

    /// A fresh bucket with a full allowance.
    pub fn new(rate: u64) -> (r: TokenBucket)
        requires
            rate > 0,
        ensures
            r == (TokenBucket { rate, tokens: rate, window: 0 }),
            r.wf(),
    {
        TokenBucket { rate, tokens: rate, window: 0 }
    }

    /// Take one token at the given clock reading: entering a new second
    /// renews the allowance; within a second, each call spends one token
    /// until none is left.
    pub fn take(&mut self, now_ms: u64) -> (r: bool)
        requires
            old(self).wf(),
        ensures
            final(self).wf(),
            ({
                let w = now_ms / 1000;
                if w != old(self).window {
                    r == true && *final(self) == (TokenBucket {
                        tokens: (old(self).rate - 1) as u64,
                        window: w,
                        ..*old(self)
                    })
                } else if old(self).tokens > 0 {
                    r == true && *final(self) == (TokenBucket {
                        tokens: (old(self).tokens - 1) as u64,
                        ..*old(self)
                    })
                } else {
                    r == false && *final(self) == *old(self)
                }
            }),
    {
        let w = now_ms / 1000;
        if w != self.window {
            self.window = w;
            self.tokens = self.rate;
        }
        if self.tokens > 0 {
            self.tokens = self.tokens - 1;
            true
        } else {
            false
        }
    }
}

/// What one reading of the keep-alive timer asks of the loop.
#[derive(Clone, Copy, Debug, PartialEq, Eq, Structural)]
pub enum PingDecision {
    /// Send a ping request now.
    SendPing,
    /// Nothing to do on this tick.
    Wait,
    /// The broker has been silent too long; end the session.
    Timeout,
}

/// Decide one keep-alive tick: a timed-out ping ends the session, a due
/// ping is sent, and otherwise the tick passes.
pub fn keep_alive_tick(mqtt_state: &MqttState, now: u64) -> (r: PingDecision)
    ensures
        mqtt_state.spec_ping_timeout(now) ==> r == PingDecision::Timeout,
        !mqtt_state.spec_ping_timeout(now) && mqtt_state.spec_ping_required(now) ==> r
            == PingDecision::SendPing,
        !mqtt_state.spec_ping_timeout(now) && !mqtt_state.spec_ping_required(now) ==> r
            == PingDecision::Wait,
{
    if mqtt_state.ping_timeout_exceeded(now) {
        PingDecision::Timeout
    } else if mqtt_state.is_ping_required(now) {
        PingDecision::SendPing
    } else {
        PingDecision::Wait
    }
}

} // verus!
