//! The MQTT session state machine.
//!
//! A pure, non-blocking core: every handler is a function of the current
//! state, one input (a user intent, an incoming packet, or a timer reading)
//! and the clock, and yields the packet to send, the notification to surface,
//! or the error that ends the session.  Time is a reading in milliseconds
//! supplied by the caller; the machine never looks at a clock itself.
//!
//! The state invariant `wf` holds throughout: every tracked packet identifier
//! lies in `[1, 65535]`, and identifiers are unique across the table of
//! unacknowledged publishes and the set of owed releases.

use vstd::prelude::*;
use vstd::arithmetic::div_mod::{
    lemma_add_mod_noop_right,
    lemma_mod_division_less_than_divisor,
    lemma_small_mod,
};
use crate::error::StateError;
use crate::mqttoptions::MqttOptions;
use crate::connection::{Notification, Request};
use crate::mqttoptions::SecurityOptions;
use crate::packet::{Connack, Connect, Packet, PacketView, Publish, PublishView, QoS, Subscribe, Unsubscribe};

verus! {

/// The sequence of views of a sequence of publishes.
pub open spec fn pubs_view(s: Seq<Publish>) -> Seq<PublishView> {
    Seq::new(s.len(), |i: int| s[i]@)
}

/// The sequence of views of a sequence of packets.
pub open spec fn packets_view(s: Seq<Packet>) -> Seq<PacketView> {
    Seq::new(s.len(), |i: int| s[i]@)
}

/// Where the session stands with the broker.
#[derive(Clone, Copy, Debug, PartialEq, Eq, Structural)]
pub enum MqttConnectionStatus {
    /// A CONNECT has been sent; its CONNACK is awaited.
    Handshake,
    /// The broker accepted the connection.
    Connected,
    /// The user asked to disconnect; no further outgoing is accepted.
    Disconnecting,
    /// No connection is up.
    Disconnected,
}

/// Copy a byte vector.
fn clone_bytes(v: &Vec<u8>) -> (r: Vec<u8>)
    ensures
        r@ == v@,
{
    let mut r: Vec<u8> = Vec::new();
    let mut i: usize = 0;
    while i < v.len()
        invariant
            i <= v@.len(),
            r@ == v@.take(i as int),
        decreases v@.len() - i,
    {
        r.push(v[i]);
        proof {
            assert(v@.take(i + 1) =~= v@.take(i as int).push(v@[i as int]));
        }
        i = i + 1;
    }
    proof {
        assert(v@.take(v@.len() as int) =~= v@);
    }
    r
}

/// Copy a publish; the copy's view equals the original's.
fn clone_publish(p: &Publish) -> (r: Publish)
    ensures
        r@ == p@,
{
    Publish {
        dup: p.dup,
        qos: p.qos,
        retain: p.retain,
        topic_name: clone_bytes(&p.topic_name),
        pkid: p.pkid,
        payload: clone_bytes(&p.payload),
    }
}

/// The session state: in-flight tables, the packet-identifier allocator,
/// keep-alive bookkeeping, and the options the session runs under.
pub struct MqttState {
    /// Options the session currently runs under.
    pub opts: MqttOptions,
    /// Where the session stands with the broker.
    pub connection_status: MqttConnectionStatus,
    /// A ping is in flight and its answer has not arrived.
    pub await_pingresp: bool,
    /// Clock reading, in milliseconds, when the last packet arrived.
    pub last_incoming: u64,
    /// Clock reading, in milliseconds, when the last packet was sent.
    pub last_outgoing: u64,
    /// The packet identifier most recently allocated.
    pub last_pkid: u16,
    /// Outgoing publishes not yet terminally acknowledged, in sending order.
    pub outgoing_pub: Vec<Publish>,
    /// Identifiers for which a release is owed to the broker.
    pub outgoing_rel: Vec<u16>,
    /// Identifiers of received exactly-once publishes awaiting release.
    pub incoming_pub: Vec<u16>,
    /// Log of subscribe and unsubscribe packets submitted this lifetime.
    pub subscriptions: Vec<Packet>,
}

impl MqttState {
    /// Some entry of `s` carries the identifier `id`.
    pub open spec fn pub_contains(s: Seq<Publish>, id: u16) -> bool {
        exists|i: int| 0 <= i < s.len() && s[i].pkid == Some(id)
    }

    /// The identifier is tracked by an unacknowledged publish or an owed
    /// release; such an identifier cannot be allocated again.
    pub open spec fn spec_live(self, id: u16) -> bool {
        Self::pub_contains(self.outgoing_pub@, id) || self.outgoing_rel@.contains(id)
    }

    /// The state invariant: tracked identifiers lie in `[1, 65535]` and are
    /// unique across the publish table and the release set; every stored
    /// publish is well formed and awaits acknowledgement.
    pub open spec fn wf(self) -> bool {
        &&& forall|i: int|
            0 <= i < self.outgoing_pub@.len() ==> (#[trigger] self.outgoing_pub@[i]).wf()
                && self.outgoing_pub@[i].qos != QoS::AtMostOnce
        &&& forall|i: int, j: int|
            0 <= i < j < self.outgoing_pub@.len() ==> #[trigger] self.outgoing_pub@[i].pkid
                != #[trigger] self.outgoing_pub@[j].pkid
        &&& self.outgoing_rel@.no_duplicates()
        &&& forall|i: int| 0 <= i < self.outgoing_rel@.len() ==> #[trigger] self.outgoing_rel@[i] >= 1
        &&& forall|i: int|
            0 <= i < self.outgoing_rel@.len() ==> !Self::pub_contains(
                self.outgoing_pub@,
                #[trigger] self.outgoing_rel@[i],
            )
        &&& self.incoming_pub@.no_duplicates()
        &&& forall|i: int| 0 <= i < self.incoming_pub@.len() ==> #[trigger] self.incoming_pub@[i] >= 1
    }

    /// A fresh session: nothing in flight, nothing allocated, disconnected.
    pub fn new(opts: MqttOptions) -> (r: MqttState)
        ensures
            r.opts == opts,
            r.connection_status is Disconnected,
            r.await_pingresp == false,
            r.last_incoming == 0,
            r.last_outgoing == 0,
            r.last_pkid == 0,
            r.outgoing_pub@ == Seq::<Publish>::empty(),
            r.outgoing_rel@ == Seq::<u16>::empty(),
            r.incoming_pub@ == Seq::<u16>::empty(),
            r.subscriptions@ == Seq::<Packet>::empty(),
            r.wf(),
    {
        MqttState {
            opts,
            connection_status: MqttConnectionStatus::Disconnected,
            await_pingresp: false,
            last_incoming: 0,
            last_outgoing: 0,
            last_pkid: 0,
            outgoing_pub: Vec::new(),
            outgoing_rel: Vec::new(),
            incoming_pub: Vec::new(),
            subscriptions: Vec::new(),
        }
    }

    /// The `k`-th identifier the walking allocator tries after `start`:
    /// identifiers walk `start + 1, start + 2, …`, wrapping from 65535 to 1
    /// and never visiting 0.
    pub open spec fn cand(start: u16, k: int) -> u16 {
        ((((start as int) + k) % 65535) + 1) as u16
    }

    /// The first free identifier at or after the `k`-th candidate, if the
    /// walk finds one before trying all 65535 identifiers.
    pub open spec fn next_free_from(self, k: int) -> Option<u16>
        decreases 65535 - k,
    {
        if k < 0 || k >= 65535 {
            None
        } else if !self.spec_live(Self::cand(self.last_pkid, k)) {
            Some(Self::cand(self.last_pkid, k))
        } else {
            self.next_free_from(k + 1)
        }
    }

    /// The identifier the allocator yields next, if any is free.
    pub open spec fn spec_next_pkid(self) -> Option<u16> {
        self.next_free_from(0)
    }

    /// Every candidate lies in `[1, 65535]`.
    pub proof fn lemma_cand_bounds(start: u16, k: int)
        requires
            k >= 0,
        ensures
            1 <= Self::cand(start, k) <= 65535,
    {
        lemma_mod_division_less_than_divisor((start as int) + k, 65535);
    }

    /// Stepping from one candidate to the next wraps 65535 around to 1.
    pub proof fn lemma_cand_step(start: u16, k: int)
        requires
            k >= 0,
        ensures
            Self::cand(start, k) == ({
                let prev: u16 = if k == 0 {
                    start
                } else {
                    Self::cand(start, k - 1)
                };
                if prev == 65535 {
                    1u16
                } else {
                    (prev + 1) as u16
                }
            }),
    {
        let s = start as int;
        lemma_mod_division_less_than_divisor(s + k, 65535);
        if k == 0 {
            if start == 65535 {
                assert(65535int % 65535 == 0);
            } else {
                lemma_small_mod(start as nat, 65535);
            }
        } else {
            lemma_mod_division_less_than_divisor(s + k - 1, 65535);
            lemma_add_mod_noop_right(1, s + k - 1, 65535);
            let m = (s + k - 1) % 65535;
            assert((s + k) % 65535 == (1 + m) % 65535);
            if m == 65534 {
                assert(65535int % 65535 == 0);
            } else {
                lemma_small_mod((1 + m) as nat, 65535);
            }
        }
    }

    /// Whether the identifier is live; the walking allocator skips it then.
    fn is_live(&self, id: u16) -> (r: bool)
        ensures
            r == self.spec_live(id),
    {
        let mut i: usize = 0;
        while i < self.outgoing_pub.len()
            invariant
                i <= self.outgoing_pub@.len(),
                forall|j: int| 0 <= j < i ==> (#[trigger] self.outgoing_pub@[j]).pkid != Some(id),
            decreases self.outgoing_pub@.len() - i,
        {
            match self.outgoing_pub[i].pkid {
                Some(x) => {
                    if x == id {
                        assert(Self::pub_contains(self.outgoing_pub@, id)) by {
                            assert(self.outgoing_pub@[i as int].pkid == Some(id));
                        }
                        return true;
                    }
                },
                None => {},
            }
            i = i + 1;
        }
        let mut j: usize = 0;
        while j < self.outgoing_rel.len()
            invariant
                j <= self.outgoing_rel@.len(),
                forall|k: int| 0 <= k < j ==> self.outgoing_rel@[k] != id,
                forall|k: int| 0 <= k < self.outgoing_pub@.len() ==> (
                #[trigger] self.outgoing_pub@[k]).pkid != Some(id),
            decreases self.outgoing_rel@.len() - j,
        {
            if self.outgoing_rel[j] == id {
                return true;
            }
            j = j + 1;
        }
        false
    }

    /// Allocate the next free packet identifier: walk forward from the last
    /// one allocated, skipping live identifiers; fail only when all 65535
    /// identifiers are live.
    fn next_pkid(&mut self) -> (r: Result<u16, StateError>)
        ensures
            *final(self) == (MqttState { last_pkid: final(self).last_pkid, ..*old(self) }),
            match r {
                Ok(id) => old(self).spec_next_pkid() == Some(id) && final(self).last_pkid == id,
                Err(e) => {
                    &&& e == StateError::PacketIdsExhausted
                    &&& old(self).spec_next_pkid() is None
                    &&& final(self).last_pkid == old(self).last_pkid
                },
            },
    {
        let ghost start = self.last_pkid;
        let mut pkid: u16 = self.last_pkid;
        let mut attempts: u32 = 0;
        loop
            invariant
                *self == *old(self),
                start == old(self).last_pkid,
                attempts <= 65535,
                attempts == 0 ==> pkid == start,
                attempts > 0 ==> pkid == Self::cand(start, attempts as int - 1),
                self.next_free_from(0) == self.next_free_from(attempts as int),
            decreases 65535 - attempts,
        {
            if attempts >= 65535 {
                return Err(StateError::PacketIdsExhausted);
            }
            let next: u16 = if pkid == 65535 {
                1
            } else {
                pkid + 1
            };
            proof {
                Self::lemma_cand_step(start, attempts as int);
                if attempts > 0 {
                    Self::lemma_cand_bounds(start, attempts as int - 1);
                }
                assert(next == Self::cand(start, attempts as int));
            }
            if !self.is_live(next) {
                proof {
                    assert(self.next_free_from(attempts as int) == Some(next));
                }
                self.last_pkid = next;
                return Ok(next);
            }
            proof {
                assert(self.next_free_from(attempts as int) == self.next_free_from(
                    attempts as int + 1,
                ));
            }
            pkid = next;
            attempts = attempts + 1;
        }
    }

    /// Candidates the exhausted walk visited are all live.
    proof fn lemma_none_all_live(self, k: int)
        requires
            0 <= k <= 65535,
            self.next_free_from(k) is None,
        ensures
            forall|j: int| k <= j < 65535 ==> self.spec_live(Self::cand(self.last_pkid, j)),
        decreases 65535 - k,
    {
        if k < 65535 {
            self.lemma_none_all_live(k + 1);
        }
    }

    /// When the allocator reports exhaustion, every identifier really is
    /// live: the walk visits all of `[1, 65535]`.
    pub proof fn lemma_exhausted_all_live(self)
        requires
            self.spec_next_pkid() is None,
        ensures
            forall|id: u16| 1 <= id ==> self.spec_live(id),
    {
        self.lemma_none_all_live(0);
        let start = self.last_pkid as int;
        assert forall|id: u16| 1 <= id implies self.spec_live(id) by {
            let k = ((id as int) - 1 - start) % 65535;
            lemma_mod_division_less_than_divisor((id as int) - 1 - start, 65535);
            lemma_add_mod_noop_right(start, (id as int) - 1 - start, 65535);
            assert((start + k) % 65535 == ((id as int) - 1) % 65535);
            lemma_small_mod((id - 1) as nat, 65535);
            assert(Self::cand(self.last_pkid, k) == id);
            assert(self.spec_live(Self::cand(self.last_pkid, k)));
        }
    }

    /// While any identifier is free, allocation succeeds.
    pub proof fn lemma_next_pkid_some(self, id: u16)
        requires
            1 <= id,
            !self.spec_live(id),
        ensures
            self.spec_next_pkid() is Some,
    {
        if self.spec_next_pkid() is None {
            self.lemma_exhausted_all_live();
            assert(self.spec_live(id));
        }
    }

    /// An identifier the walk yields is in range and free.
    proof fn lemma_next_free_from_found(self, k: int)
        requires
            0 <= k,
        ensures
            self.next_free_from(k) matches Some(id) ==> 1 <= id && !self.spec_live(id),
        decreases 65535 - k,
    {
        if 0 <= k < 65535 {
            Self::lemma_cand_bounds(self.last_pkid, k);
            if self.spec_live(Self::cand(self.last_pkid, k)) {
                self.lemma_next_free_from_found(k + 1);
            }
        }
    }

    /// The identifier the allocator will yield is in range and free.
    pub proof fn lemma_next_pkid_free(self)
        ensures
            self.spec_next_pkid() matches Some(id) ==> 1 <= id && !self.spec_live(id),
    {
        self.lemma_next_free_from_found(0);
    }

    /// How one outgoing user intent changes the session and what it puts on
    /// the wire: the whole outgoing flow, one case per packet kind.
    pub open spec fn outgoing_transition(
        pre: MqttState,
        post: MqttState,
        packet: Packet,
        now: u64,
        r: Result<Packet, StateError>,
    ) -> bool {
        if pre.connection_status is Disconnecting {
            r == Err::<Packet, StateError>(StateError::InvalidState) && post == pre
        } else {
            match packet {
                Packet::Publish(p) => Self::outgoing_publish_transition(pre, post, p, now, r),
                Packet::Puback(id) => r == Ok::<Packet, StateError>(Packet::Puback(id)) && post
                    == (MqttState { last_outgoing: now, ..pre }),
                Packet::Pubrec(id) => r == Ok::<Packet, StateError>(Packet::Pubrec(id)) && post
                    == (MqttState { last_outgoing: now, ..pre }),
                Packet::Pubcomp(id) => r == Ok::<Packet, StateError>(Packet::Pubcomp(id)) && post
                    == (MqttState { last_outgoing: now, ..pre }),
                Packet::Pubrel(id) => if pre.outgoing_rel@.contains(id) {
                    r == Ok::<Packet, StateError>(Packet::Pubrel(id)) && post == (MqttState {
                        last_outgoing: now,
                        ..pre
                    })
                } else {
                    r == Err::<Packet, StateError>(StateError::UnsolicitedPubRel(id)) && post == pre
                },
                Packet::Subscribe(s) => Self::outgoing_subscribe_transition(pre, post, s, now, r),
                Packet::Unsubscribe(u) => Self::outgoing_unsubscribe_transition(
                    pre,
                    post,
                    u,
                    now,
                    r,
                ),
                Packet::Pingreq => if pre.await_pingresp {
                    r == Err::<Packet, StateError>(StateError::InvalidState) && post == pre
                } else {
                    r == Ok::<Packet, StateError>(Packet::Pingreq) && post == (MqttState {
                        await_pingresp: true,
                        last_outgoing: now,
                        ..pre
                    })
                },
                Packet::Disconnect => r == Ok::<Packet, StateError>(Packet::Disconnect) && post
                    == (MqttState {
                    connection_status: MqttConnectionStatus::Disconnecting,
                    last_outgoing: now,
                    ..pre
                }),
                _ => r == Err::<Packet, StateError>(StateError::InvalidState) && post == pre,
            }
        }
    }

    /// Outgoing publish: at most once passes through unchanged; otherwise a
    /// fresh identifier is stamped on, the duplicate flag cleared, and the
    /// stamped publish is recorded until its terminal acknowledgement.
    pub open spec fn outgoing_publish_transition(
        pre: MqttState,
        post: MqttState,
        p: Publish,
        now: u64,
        r: Result<Packet, StateError>,
    ) -> bool {
        if p.qos == QoS::AtMostOnce {
            &&& r == Ok::<Packet, StateError>(Packet::Publish(p))
            &&& post == (MqttState { last_outgoing: now, ..pre })
        } else {
            match pre.spec_next_pkid() {
                Some(id) => {
                    let stamped = (Publish { dup: false, pkid: Some(id), ..p });
                    &&& r == Ok::<Packet, StateError>(Packet::Publish(stamped))
                    &&& pubs_view(post.outgoing_pub@) == pubs_view(pre.outgoing_pub@).push(
                        stamped@,
                    )
                    &&& post == (MqttState {
                        outgoing_pub: post.outgoing_pub,
                        last_pkid: id,
                        last_outgoing: now,
                        ..pre
                    })
                },
                None => {
                    &&& r == Err::<Packet, StateError>(StateError::PacketIdsExhausted)
                    &&& post == pre
                },
            }
        }
    }

    /// Outgoing subscribe: a fresh identifier is stamped on and the stamped
    /// packet appended to the subscription log.
    pub open spec fn outgoing_subscribe_transition(
        pre: MqttState,
        post: MqttState,
        s: Subscribe,
        now: u64,
        r: Result<Packet, StateError>,
    ) -> bool {
        match pre.spec_next_pkid() {
            Some(id) => {
                let stamped = (Subscribe { pkid: id, ..s });
                &&& r == Ok::<Packet, StateError>(Packet::Subscribe(stamped))
                &&& packets_view(post.subscriptions@) == packets_view(pre.subscriptions@).push(
                    PacketView::Subscribe(stamped@),
                )
                &&& post == (MqttState {
                    subscriptions: post.subscriptions,
                    last_pkid: id,
                    last_outgoing: now,
                    ..pre
                })
            },
            None => {
                &&& r == Err::<Packet, StateError>(StateError::PacketIdsExhausted)
                &&& post == pre
            },
        }
    }

    /// Outgoing unsubscribe: a fresh identifier is stamped on and the
    /// stamped packet appended to the subscription log.
    pub open spec fn outgoing_unsubscribe_transition(
        pre: MqttState,
        post: MqttState,
        u: Unsubscribe,
        now: u64,
        r: Result<Packet, StateError>,
    ) -> bool {
        match pre.spec_next_pkid() {
            Some(id) => {
                let stamped = (Unsubscribe { pkid: id, ..u });
                &&& r == Ok::<Packet, StateError>(Packet::Unsubscribe(stamped))
                &&& packets_view(post.subscriptions@) == packets_view(pre.subscriptions@).push(
                    PacketView::Unsubscribe(stamped@),
                )
                &&& post == (MqttState {
                    subscriptions: post.subscriptions,
                    last_pkid: id,
                    last_outgoing: now,
                    ..pre
                })
            },
            None => {
                &&& r == Err::<Packet, StateError>(StateError::PacketIdsExhausted)
                &&& post == pre
            },
        }
    }

    /// Stamp and record an outgoing publish, per
    /// `outgoing_publish_transition`.
    pub fn handle_outgoing_publish(&mut self, publish: Publish, now: u64) -> (r: Result<
        Packet,
        StateError,
    >)
        requires
            old(self).wf(),
        ensures
            final(self).wf(),
            Self::outgoing_publish_transition(*old(self), *final(self), publish, now, r),
    {
        match publish.qos {
            QoS::AtMostOnce => {
                self.last_outgoing = now;
                Ok(Packet::Publish(publish))
            },
            _ => {
                proof {
                    old(self).lemma_next_pkid_free();
                }
                match self.next_pkid() {
                    Ok(id) => {
                        let stamped = Publish { dup: false, pkid: Some(id), ..publish };
                        let copy = clone_publish(&stamped);
                        proof {
                            assert(copy.pkid == stamped.pkid && copy.qos == stamped.qos);
                        }
                        self.outgoing_pub.push(copy);
                        self.last_outgoing = now;
                        proof {
                            let pre = *old(self);
                            assert(pubs_view(self.outgoing_pub@) =~= pubs_view(
                                pre.outgoing_pub@,
                            ).push(stamped@));
                            assert(!pre.spec_live(id));
                            assert forall|i: int, j: int|
                                0 <= i < j < self.outgoing_pub@.len() implies #[trigger] self.outgoing_pub@[i].pkid
                                != #[trigger] self.outgoing_pub@[j].pkid by {
                                if j == self.outgoing_pub@.len() - 1 {
                                    assert(!Self::pub_contains(pre.outgoing_pub@, id));
                                    assert(self.outgoing_pub@[i] == pre.outgoing_pub@[i]);
                                }
                            }
                            assert forall|i: int|
                                0 <= i < self.outgoing_rel@.len() implies !Self::pub_contains(
                                self.outgoing_pub@,
                                #[trigger] self.outgoing_rel@[i],
                            ) by {
                                let rid = self.outgoing_rel@[i];
                                assert(pre.outgoing_rel@.contains(rid)) by {
                                    assert(pre.outgoing_rel@[i] == rid);
                                }
                                assert(!Self::pub_contains(pre.outgoing_pub@, rid));
                                assert(rid != id);
                                if Self::pub_contains(self.outgoing_pub@, rid) {
                                    let w = choose|w: int|
                                        0 <= w < self.outgoing_pub@.len()
                                            && self.outgoing_pub@[w].pkid == Some(rid);
                                    if w < self.outgoing_pub@.len() - 1 {
                                        assert(pre.outgoing_pub@[w].pkid == Some(rid));
                                    }
                                }
                            }
                        }
                        Ok(Packet::Publish(stamped))
                    },
                    Err(e) => Err(e),
                }
            },
        }
    }

    /// Stamp an outgoing subscribe and append it to the subscription log,
    /// per `outgoing_subscribe_transition`.
    pub fn handle_outgoing_subscribe(&mut self, subscribe: Subscribe, now: u64) -> (r: Result<
        Packet,
        StateError,
    >)
        requires
            old(self).wf(),
        ensures
            final(self).wf(),
            Self::outgoing_subscribe_transition(*old(self), *final(self), subscribe, now, r),
    {
        match self.next_pkid() {
            Ok(id) => {
                let stamped = Subscribe { pkid: id, ..subscribe };
                let copy = Subscribe {
                    pkid: id,
                    topics: clone_subscribe_topics(&stamped.topics),
                };
                proof {
                    assert(copy@.topics =~= stamped@.topics);
                    assert(copy@ == stamped@);
                }
                self.subscriptions.push(Packet::Subscribe(copy));
                self.last_outgoing = now;
                proof {
                    let pre = *old(self);
                    assert(packets_view(self.subscriptions@) =~= packets_view(
                        pre.subscriptions@,
                    ).push(PacketView::Subscribe(stamped@)));
                }
                Ok(Packet::Subscribe(stamped))
            },
            Err(e) => Err(e),
        }
    }

    /// Stamp an outgoing unsubscribe and append it to the subscription log,
    /// per `outgoing_unsubscribe_transition`.
    pub fn handle_outgoing_unsubscribe(&mut self, unsubscribe: Unsubscribe, now: u64) -> (r: Result<
        Packet,
        StateError,
    >)
        requires
            old(self).wf(),
        ensures
            final(self).wf(),
            Self::outgoing_unsubscribe_transition(*old(self), *final(self), unsubscribe, now, r),
    {
        match self.next_pkid() {
            Ok(id) => {
                let stamped = Unsubscribe { pkid: id, ..unsubscribe };
                let copy = Unsubscribe {
                    pkid: id,
                    topics: clone_topic_list(&stamped.topics),
                };
                proof {
                    assert(copy@.topics =~= stamped@.topics);
                    assert(copy@ == stamped@);
                }
                self.subscriptions.push(Packet::Unsubscribe(copy));
                self.last_outgoing = now;
                proof {
                    let pre = *old(self);
                    assert(packets_view(self.subscriptions@) =~= packets_view(
                        pre.subscriptions@,
                    ).push(PacketView::Unsubscribe(stamped@)));
                }
                Ok(Packet::Unsubscribe(stamped))
            },
            Err(e) => Err(e),
        }
    }

    /// Route one outgoing user intent: the whole outgoing flow of the
    /// session, per `outgoing_transition`.  While the session is
    /// disconnecting no outgoing packet is accepted.
    pub fn handle_outgoing_mqtt_packet(&mut self, packet: Packet, now: u64) -> (r: Result<
        Packet,
        StateError,
    >)
        requires
            old(self).wf(),
        ensures
            final(self).wf(),
            Self::outgoing_transition(*old(self), *final(self), packet, now, r),
    {
        if self.connection_status == MqttConnectionStatus::Disconnecting {
            return Err(StateError::InvalidState);
        }
        match packet {
            Packet::Publish(p) => self.handle_outgoing_publish(p, now),
            Packet::Puback(id) => {
                self.last_outgoing = now;
                Ok(Packet::Puback(id))
            },
            Packet::Pubrec(id) => {
                self.last_outgoing = now;
                Ok(Packet::Pubrec(id))
            },
            Packet::Pubcomp(id) => {
                self.last_outgoing = now;
                Ok(Packet::Pubcomp(id))
            },
            Packet::Pubrel(id) => {
                if self.contains_rel(id) {
                    self.last_outgoing = now;
                    Ok(Packet::Pubrel(id))
                } else {
                    Err(StateError::UnsolicitedPubRel(id))
                }
            },
            Packet::Subscribe(s) => self.handle_outgoing_subscribe(s, now),
            Packet::Unsubscribe(u) => self.handle_outgoing_unsubscribe(u, now),
            Packet::Pingreq => {
                if self.await_pingresp {
                    Err(StateError::InvalidState)
                } else {
                    self.await_pingresp = true;
                    self.last_outgoing = now;
                    Ok(Packet::Pingreq)
                }
            },
            Packet::Disconnect => {
                self.connection_status = MqttConnectionStatus::Disconnecting;
                self.last_outgoing = now;
                Ok(Packet::Disconnect)
            },
            _ => Err(StateError::InvalidState),
        }
    }

    /// The index of the unacknowledged publish carrying `id`; under `wf`
    /// there is at most one.
    pub open spec fn pub_index_of(s: Seq<Publish>, id: u16) -> int {
        choose|i: int| 0 <= i < s.len() && s[i].pkid == Some(id)
    }

    /// The index of `id` in a sequence of identifiers; unique when the
    /// sequence has no duplicates.
    pub open spec fn id_index_of(s: Seq<u16>, id: u16) -> int {
        choose|i: int| 0 <= i < s.len() && s[i] == id
    }

    /// How one incoming packet changes the session, what it surfaces to the
    /// user and what it answers on the wire: the whole incoming flow, one
    /// case per packet kind.
    pub open spec fn incoming_transition(
        pre: MqttState,
        post: MqttState,
        packet: Packet,
        now: u64,
        r: Result<(Notification, Request), StateError>,
    ) -> bool {
        match packet {
            Packet::Publish(p) => Self::incoming_publish_transition(pre, post, p, now, r),
            Packet::Puback(id) => if Self::pub_contains(pre.outgoing_pub@, id) {
                let i = Self::pub_index_of(pre.outgoing_pub@, id);
                &&& r == Ok::<(Notification, Request), StateError>(
                    (Notification::PubAck(id), Request::Noop),
                )
                &&& post.outgoing_pub@ == pre.outgoing_pub@.remove(i)
                &&& post == (MqttState {
                    outgoing_pub: post.outgoing_pub,
                    last_incoming: now,
                    ..pre
                })
            } else {
                r == Err::<(Notification, Request), StateError>(StateError::UnsolicitedAck(id))
                    && post == pre
            },
            Packet::Pubrec(id) => if Self::pub_contains(pre.outgoing_pub@, id) {
                let i = Self::pub_index_of(pre.outgoing_pub@, id);
                &&& r == Ok::<(Notification, Request), StateError>(
                    (Notification::PubRec(id), Request::PubRel(id)),
                )
                &&& post.outgoing_pub@ == pre.outgoing_pub@.remove(i)
                &&& post.outgoing_rel@ == pre.outgoing_rel@.push(id)
                &&& post == (MqttState {
                    outgoing_pub: post.outgoing_pub,
                    outgoing_rel: post.outgoing_rel,
                    last_incoming: now,
                    ..pre
                })
            } else {
                r == Err::<(Notification, Request), StateError>(StateError::UnsolicitedAck(id))
                    && post == pre
            },
            Packet::Pubrel(id) => if pre.incoming_pub@.contains(id) {
                let i = Self::id_index_of(pre.incoming_pub@, id);
                &&& r == Ok::<(Notification, Request), StateError>(
                    (Notification::PubRel(id), Request::PubComp(id)),
                )
                &&& post.incoming_pub@ == pre.incoming_pub@.remove(i)
                &&& post == (MqttState {
                    incoming_pub: post.incoming_pub,
                    last_incoming: now,
                    ..pre
                })
            } else {
                r == Err::<(Notification, Request), StateError>(StateError::UnsolicitedPubRel(id))
                    && post == pre
            },
            Packet::Pubcomp(id) => if pre.outgoing_rel@.contains(id) {
                let i = Self::id_index_of(pre.outgoing_rel@, id);
                &&& r == Ok::<(Notification, Request), StateError>(
                    (Notification::PubComp(id), Request::Noop),
                )
                &&& post.outgoing_rel@ == pre.outgoing_rel@.remove(i)
                &&& post == (MqttState {
                    outgoing_rel: post.outgoing_rel,
                    last_incoming: now,
                    ..pre
                })
            } else {
                r == Err::<(Notification, Request), StateError>(StateError::UnsolicitedAck(id))
                    && post == pre
            },
            Packet::Suback(s) => r == Ok::<(Notification, Request), StateError>(
                (Notification::SubAck(s), Request::Noop),
            ) && post == (MqttState { last_incoming: now, ..pre }),
            Packet::Unsuback(_) => r == Ok::<(Notification, Request), StateError>(
                (Notification::Noop, Request::Noop),
            ) && post == (MqttState { last_incoming: now, ..pre }),
            Packet::Pingresp => r == Ok::<(Notification, Request), StateError>(
                (Notification::Noop, Request::Noop),
            ) && post == (MqttState { await_pingresp: false, last_incoming: now, ..pre }),
            _ => r == Err::<(Notification, Request), StateError>(StateError::InvalidState) && post
                == pre,
        }
    }

    /// Incoming publish, by its quality of service: at most once is only
    /// surfaced; at least once is surfaced and acknowledged; exactly once is
    /// recorded and answered with a record packet — and surfaced only the
    /// first time, a duplicate surfaces nothing.
    pub open spec fn incoming_publish_transition(
        pre: MqttState,
        post: MqttState,
        p: Publish,
        now: u64,
        r: Result<(Notification, Request), StateError>,
    ) -> bool {
        match p.qos {
            QoS::AtMostOnce => r == Ok::<(Notification, Request), StateError>(
                (Notification::Publish(p), Request::Noop),
            ) && post == (MqttState { last_incoming: now, ..pre }),
            QoS::AtLeastOnce => {
                let id = p.pkid.unwrap();
                r == Ok::<(Notification, Request), StateError>(
                    (Notification::Publish(p), Request::PubAck(id)),
                ) && post == (MqttState { last_incoming: now, ..pre })
            },
            QoS::ExactlyOnce => {
                let id = p.pkid.unwrap();
                if pre.incoming_pub@.contains(id) {
                    r == Ok::<(Notification, Request), StateError>(
                        (Notification::Noop, Request::PubRec(id)),
                    ) && post == (MqttState { last_incoming: now, ..pre })
                } else {
                    &&& r == Ok::<(Notification, Request), StateError>(
                        (Notification::Publish(p), Request::PubRec(id)),
                    )
                    &&& post.incoming_pub@ == pre.incoming_pub@.push(id)
                    &&& post == (MqttState {
                        incoming_pub: post.incoming_pub,
                        last_incoming: now,
                        ..pre
                    })
                }
            },
        }
    }

    /// Whether an incoming exactly-once publish with this identifier awaits
    /// its release.
    fn contains_incoming(&self, id: u16) -> (r: bool)
        ensures
            r == self.incoming_pub@.contains(id),
    {
        let mut i: usize = 0;
        while i < self.incoming_pub.len()
            invariant
                i <= self.incoming_pub@.len(),
                forall|j: int| 0 <= j < i ==> self.incoming_pub@[j] != id,
            decreases self.incoming_pub@.len() - i,
        {
            if self.incoming_pub[i] == id {
                return true;
            }
            i = i + 1;
        }
        false
    }

    /// Find the unacknowledged publish carrying this identifier.
    fn find_pub_index(&self, id: u16) -> (r: Option<usize>)
        ensures
            match r {
                Some(i) => i < self.outgoing_pub@.len() && self.outgoing_pub@[i as int].pkid
                    == Some(id),
                None => !Self::pub_contains(self.outgoing_pub@, id),
            },
    {
        let mut i: usize = 0;
        while i < self.outgoing_pub.len()
            invariant
                i <= self.outgoing_pub@.len(),
                forall|j: int| 0 <= j < i ==> (#[trigger] self.outgoing_pub@[j]).pkid != Some(id),
            decreases self.outgoing_pub@.len() - i,
        {
            match self.outgoing_pub[i].pkid {
                Some(x) => {
                    if x == id {
                        return Some(i);
                    }
                },
                None => {},
            }
            i = i + 1;
        }
        None
    }

    /// Find an identifier in a vector of identifiers.
    fn find_id_index(v: &Vec<u16>, id: u16) -> (r: Option<usize>)
        ensures
            match r {
                Some(i) => i < v@.len() && v@[i as int] == id,
                None => !v@.contains(id),
            },
    {
        let mut i: usize = 0;
        while i < v.len()
            invariant
                i <= v@.len(),
                forall|j: int| 0 <= j < i ==> v@[j] != id,
            decreases v@.len() - i,
        {
            if v[i] == id {
                return Some(i);
            }
            i = i + 1;
        }
        None
    }

    /// Removing one entry keeps the publish table's part of `wf` and keeps
    /// every identifier other than the removed entry's.
    proof fn lemma_pub_remove_keeps_wf(self, i: int, id: u16)
        requires
            self.wf(),
            0 <= i < self.outgoing_pub@.len(),
            self.outgoing_pub@[i].pkid == Some(id),
        ensures
            ({
                let s = self.outgoing_pub@.remove(i);
                &&& forall|a: int|
                    0 <= a < s.len() ==> (#[trigger] s[a]).wf() && s[a].qos != QoS::AtMostOnce
                &&& forall|a: int, b: int|
                    0 <= a < b < s.len() ==> #[trigger] s[a].pkid != #[trigger] s[b].pkid
                &&& !Self::pub_contains(s, id)
                &&& forall|x: u16| Self::pub_contains(s, x) ==> Self::pub_contains(
                    self.outgoing_pub@,
                    x,
                )
            }),
    {
        let pre = self.outgoing_pub@;
        let s = pre.remove(i);
        pre.remove_ensures(i);
        assert forall|a: int| 0 <= a < s.len() implies (#[trigger] s[a]).wf() && s[a].qos
            != QoS::AtMostOnce by {
            let a0 = if a < i {
                a
            } else {
                a + 1
            };
            assert(s[a] == pre[a0]);
        }
        assert forall|a: int, b: int| 0 <= a < b < s.len() implies #[trigger] s[a].pkid
            != #[trigger] s[b].pkid by {
            let a0 = if a < i {
                a
            } else {
                a + 1
            };
            let b0 = if b < i {
                b
            } else {
                b + 1
            };
            assert(s[a] == pre[a0] && s[b] == pre[b0]);
        }
        assert forall|x: u16| Self::pub_contains(s, x) implies Self::pub_contains(pre, x) by {
            let w = choose|w: int| 0 <= w < s.len() && s[w].pkid == Some(x);
            let w0 = if w < i {
                w
            } else {
                w + 1
            };
            assert(pre[w0].pkid == Some(x));
        }
        if Self::pub_contains(s, id) {
            let w = choose|w: int| 0 <= w < s.len() && s[w].pkid == Some(id);
            let w0 = if w < i {
                w
            } else {
                w + 1
            };
            assert(pre[w0].pkid == Some(id) && pre[i].pkid == Some(id) && w0 != i);
        }
    }

    /// Removing one entry from a duplicate-free sequence of identifiers
    /// keeps it duplicate-free, keeps every other identifier, and drops the
    /// removed one.
    proof fn lemma_id_remove_keeps_wf(s: Seq<u16>, i: int)
        requires
            s.no_duplicates(),
            0 <= i < s.len(),
            forall|a: int| 0 <= a < s.len() ==> #[trigger] s[a] >= 1,
        ensures
            ({
                let t = s.remove(i);
                &&& t.no_duplicates()
                &&& forall|a: int| 0 <= a < t.len() ==> #[trigger] t[a] >= 1
                &&& !t.contains(s[i])
                &&& forall|x: u16| t.contains(x) ==> s.contains(x)
            }),
    {
        let t = s.remove(i);
        s.remove_ensures(i);
        assert forall|a: int, b: int| 0 <= a < t.len() && 0 <= b < t.len() && a != b implies t[a]
            != t[b] by {
            let a0 = if a < i {
                a
            } else {
                a + 1
            };
            let b0 = if b < i {
                b
            } else {
                b + 1
            };
            assert(t[a] == s[a0] && t[b] == s[b0]);
        }
        assert forall|a: int| 0 <= a < t.len() implies #[trigger] t[a] >= 1 by {
            let a0 = if a < i {
                a
            } else {
                a + 1
            };
            assert(t[a] == s[a0]);
        }
        assert forall|x: u16| t.contains(x) implies s.contains(x) by {
            let w = choose|w: int| 0 <= w < t.len() && t[w] == x;
            let w0 = if w < i {
                w
            } else {
                w + 1
            };
            assert(s[w0] == x);
        }
        if t.contains(s[i]) {
            let w = choose|w: int| 0 <= w < t.len() && t[w] == s[i];
            let w0 = if w < i {
                w
            } else {
                w + 1
            };
            assert(s[w0] == s[i] && w0 != i);
        }
    }

    /// Route one incoming packet: the whole incoming flow of the session,
    /// per `incoming_transition`.  A publish must carry its identifier
    /// exactly when its quality of service asks for acknowledgement; the
    /// framed decoder only yields such publishes.
    pub fn handle_incoming_mqtt_packet(&mut self, packet: Packet, now: u64) -> (r: Result<
        (Notification, Request),
        StateError,
    >)
        requires
            old(self).wf(),
            packet matches Packet::Publish(p) ==> p.wf(),
        ensures
            final(self).wf(),
            Self::incoming_transition(*old(self), *final(self), packet, now, r),
    {
        match packet {
            Packet::Publish(p) => self.handle_incoming_publish(p, now),
            Packet::Puback(id) => {
                match self.find_pub_index(id) {
                    Some(i) => {
                        proof {
                            let pre = *old(self);
                            let i0 = Self::pub_index_of(pre.outgoing_pub@, id);
                            assert(pre.outgoing_pub@[i as int].pkid == Some(id));
                            assert(0 <= i0 < pre.outgoing_pub@.len() && pre.outgoing_pub@[i0].pkid
                                == Some(id));
                            assert(i0 == i as int);
                            pre.lemma_pub_remove_keeps_wf(i as int, id);
                        }
                        self.outgoing_pub.remove(i);
                        self.last_incoming = now;
                        Ok((Notification::PubAck(id), Request::Noop))
                    },
                    None => Err(StateError::UnsolicitedAck(id)),
                }
            },
            Packet::Pubrec(id) => {
                match self.find_pub_index(id) {
                    Some(i) => {
                        proof {
                            let pre = *old(self);
                            let i0 = Self::pub_index_of(pre.outgoing_pub@, id);
                            assert(pre.outgoing_pub@[i as int].pkid == Some(id));
                            assert(0 <= i0 < pre.outgoing_pub@.len() && pre.outgoing_pub@[i0].pkid
                                == Some(id));
                            assert(i0 == i as int);
                            pre.lemma_pub_remove_keeps_wf(i as int, id);
                            assert(pre.outgoing_pub@[i as int].wf());
                            assert(!pre.outgoing_rel@.contains(id)) by {
                                if pre.outgoing_rel@.contains(id) {
                                    let w = choose|w: int|
                                        0 <= w < pre.outgoing_rel@.len() && pre.outgoing_rel@[w]
                                            == id;
                                    assert(!Self::pub_contains(pre.outgoing_pub@, id));
                                }
                            }
                        }
                        self.outgoing_pub.remove(i);
                        self.outgoing_rel.push(id);
                        self.last_incoming = now;
                        proof {
                            let pre = *old(self);
                            let s = self.outgoing_pub@;
                            assert(self.outgoing_rel@.no_duplicates()) by {
                                assert(self.outgoing_rel@.drop_last() =~= pre.outgoing_rel@);
                            }
                            assert forall|t: int|
                                0 <= t < self.outgoing_rel@.len() implies !Self::pub_contains(
                                s,
                                #[trigger] self.outgoing_rel@[t],
                            ) by {
                                if t < pre.outgoing_rel@.len() {
                                    let rid = pre.outgoing_rel@[t];
                                    assert(pre.outgoing_rel@.contains(rid)) by {
                                        assert(pre.outgoing_rel@[t] == rid);
                                    }
                                    assert(!Self::pub_contains(pre.outgoing_pub@, rid));
                                } else {
                                    assert(self.outgoing_rel@[t] == id);
                                }
                            }
                        }
                        Ok((Notification::PubRec(id), Request::PubRel(id)))
                    },
                    None => Err(StateError::UnsolicitedAck(id)),
                }
            },
            Packet::Pubrel(id) => {
                match Self::find_id_index(&self.incoming_pub, id) {
                    Some(i) => {
                        proof {
                            let pre = *old(self);
                            let i0 = Self::id_index_of(pre.incoming_pub@, id);
                            assert(pre.incoming_pub@[i as int] == id);
                            assert(pre.incoming_pub@.contains(id)) by {
                                assert(pre.incoming_pub@[i as int] == id);
                            }
                            assert(0 <= i0 < pre.incoming_pub@.len() && pre.incoming_pub@[i0]
                                == id);
                            assert(i0 == i as int) by {
                                if i0 != i as int {
                                    assert(pre.incoming_pub@[i0] == pre.incoming_pub@[i as int]);
                                }
                            }
                            Self::lemma_id_remove_keeps_wf(pre.incoming_pub@, i as int);
                        }
                        self.incoming_pub.remove(i);
                        self.last_incoming = now;
                        Ok((Notification::PubRel(id), Request::PubComp(id)))
                    },
                    None => Err(StateError::UnsolicitedPubRel(id)),
                }
            },
            Packet::Pubcomp(id) => {
                match Self::find_id_index(&self.outgoing_rel, id) {
                    Some(i) => {
                        proof {
                            let pre = *old(self);
                            let i0 = Self::id_index_of(pre.outgoing_rel@, id);
                            assert(pre.outgoing_rel@[i as int] == id);
                            assert(pre.outgoing_rel@.contains(id)) by {
                                assert(pre.outgoing_rel@[i as int] == id);
                            }
                            assert(0 <= i0 < pre.outgoing_rel@.len() && pre.outgoing_rel@[i0]
                                == id);
                            assert(i0 == i as int) by {
                                if i0 != i as int {
                                    assert(pre.outgoing_rel@[i0] == pre.outgoing_rel@[i as int]);
                                }
                            }
                            Self::lemma_id_remove_keeps_wf(pre.outgoing_rel@, i as int);
                            assert forall|t: int|
                                0 <= t < pre.outgoing_rel@.remove(i as int).len()
                                    implies !Self::pub_contains(
                                pre.outgoing_pub@,
                                #[trigger] pre.outgoing_rel@.remove(i as int)[t],
                            ) by {
                                pre.outgoing_rel@.remove_ensures(i as int);
                                let t0 = if t < i as int {
                                    t
                                } else {
                                    t + 1
                                };
                                assert(pre.outgoing_rel@.remove(i as int)[t]
                                    == pre.outgoing_rel@[t0]);
                            }
                        }
                        self.outgoing_rel.remove(i);
                        self.last_incoming = now;
                        Ok((Notification::PubComp(id), Request::Noop))
                    },
                    None => Err(StateError::UnsolicitedAck(id)),
                }
            },
            Packet::Suback(s) => {
                self.last_incoming = now;
                Ok((Notification::SubAck(s), Request::Noop))
            },
            Packet::Unsuback(_) => {
                self.last_incoming = now;
                Ok((Notification::Noop, Request::Noop))
            },
            Packet::Pingresp => {
                self.await_pingresp = false;
                self.last_incoming = now;
                Ok((Notification::Noop, Request::Noop))
            },
            _ => Err(StateError::InvalidState),
        }
    }

    /// Handle one received publish, per `incoming_publish_transition`.
    pub fn handle_incoming_publish(&mut self, publish: Publish, now: u64) -> (r: Result<
        (Notification, Request),
        StateError,
    >)
        requires
            old(self).wf(),
            publish.wf(),
        ensures
            final(self).wf(),
            Self::incoming_publish_transition(*old(self), *final(self), publish, now, r),
    {
        match publish.qos {
            QoS::AtMostOnce => {
                self.last_incoming = now;
                Ok((Notification::Publish(publish), Request::Noop))
            },
            QoS::AtLeastOnce => {
                match publish.pkid {
                    Some(id) => {
                        self.last_incoming = now;
                        Ok((Notification::Publish(publish), Request::PubAck(id)))
                    },
                    None => {
                        proof {
                            assert(false);
                        }
                        Err(StateError::InvalidState)
                    },
                }
            },
            QoS::ExactlyOnce => {
                match publish.pkid {
                    Some(id) => {
                        if self.contains_incoming(id) {
                            self.last_incoming = now;
                            Ok((Notification::Noop, Request::PubRec(id)))
                        } else {
                            self.incoming_pub.push(id);
                            self.last_incoming = now;
                            proof {
                                let pre = *old(self);
                                assert(self.incoming_pub@.no_duplicates()) by {
                                    assert(self.incoming_pub@.drop_last() =~= pre.incoming_pub@);
                                }
                            }
                            Ok((Notification::Publish(publish), Request::PubRec(id)))
                        }
                    },
                    None => {
                        proof {
                            assert(false);
                        }
                        Err(StateError::InvalidState)
                    },
                }
            },
        }
    }

    /// How the broker's answer to CONNECT changes the session: only legal
    /// while handshaking; a non-zero return code fails the connection; a
    /// held session reported under a clean-session request is a protocol
    /// error; otherwise the session is connected and ping state reset.
    pub open spec fn connack_transition(
        pre: MqttState,
        post: MqttState,
        connack: Connack,
        now: u64,
        r: Result<(), StateError>,
    ) -> bool {
        if !(pre.connection_status is Handshake) {
            r == Err::<(), StateError>(StateError::InvalidState) && post == pre
        } else if connack.code != 0 {
            r == Err::<(), StateError>(StateError::ConnAckFailed(connack.code)) && post
                == (MqttState { connection_status: MqttConnectionStatus::Disconnected, ..pre })
        } else if connack.session_present && pre.opts.clean_session {
            r == Err::<(), StateError>(StateError::InvalidState) && post == (MqttState {
                connection_status: MqttConnectionStatus::Disconnected,
                ..pre
            })
        } else {
            r == Ok::<(), StateError>(()) && post == (MqttState {
                connection_status: MqttConnectionStatus::Connected,
                await_pingresp: false,
                last_incoming: now,
                ..pre
            })
        }
    }

    /// Validate the broker's answer to CONNECT, per `connack_transition`.
    pub fn handle_incoming_connack(&mut self, connack: Connack, now: u64) -> (r: Result<
        (),
        StateError,
    >)
        requires
            old(self).wf(),
        ensures
            final(self).wf(),
            Self::connack_transition(*old(self), *final(self), connack, now, r),
    {
        if self.connection_status != MqttConnectionStatus::Handshake {
            Err(StateError::InvalidState)
        } else if connack.code != 0 {
            self.connection_status = MqttConnectionStatus::Disconnected;
            Err(StateError::ConnAckFailed(connack.code))
        } else if connack.session_present && self.opts.clean_session {
            self.connection_status = MqttConnectionStatus::Disconnected;
            Err(StateError::InvalidState)
        } else {
            self.connection_status = MqttConnectionStatus::Connected;
            self.await_pingresp = false;
            self.last_incoming = now;
            Ok(())
        }
    }

    /// The bytes of the username the Google Cloud IoT flow fixes, `unused`.
    pub open spec fn unused_username_bytes() -> Seq<u8> {
        seq![117u8, 110, 117, 115, 101, 100]
    }

    /// Build the CONNECT packet from the options, once per session: only
    /// legal while disconnected, and moves the session into handshake.  For
    /// the Google Cloud IoT flow the caller supplies the signed token that
    /// becomes the password; minting it is outside this crate.
    pub fn handle_outgoing_connect(&mut self, token: Option<Vec<u8>>) -> (r: Result<
        Connect,
        StateError,
    >)
        requires
            old(self).opts.security matches SecurityOptions::GcloudIot(_, _, _) ==> token is Some,
        ensures
            !(old(self).connection_status is Disconnected) ==> r == Err::<Connect, StateError>(
                StateError::InvalidState,
            ) && *final(self) == *old(self),
            old(self).connection_status is Disconnected ==> {
                &&& *final(self) == (MqttState {
                    connection_status: MqttConnectionStatus::Handshake,
                    ..*old(self)
                })
                &&& r matches Ok(c)
                &&& c.keep_alive == old(self).opts.keep_alive
                &&& c.client_id@ == old(self).opts.client_id@
                &&& c.clean_session == old(self).opts.clean_session
                &&& match old(self).opts.last_will {
                    Some(w) => c.last_will matches Some(cw) && cw@ == w@,
                    None => c.last_will is None,
                }
                &&& match old(self).opts.security {
                    SecurityOptions::NoAuth => c.username is None && c.password is None,
                    SecurityOptions::UsernamePassword(u, p) => (c.username matches Some(cu)
                        && cu@ == u@) && (c.password matches Some(cp) && cp@ == p@),
                    SecurityOptions::GcloudIot(_, _, _) => (c.username matches Some(cu) && cu@
                        == Self::unused_username_bytes()) && (c.password matches Some(cp)
                        && token matches Some(t) && cp@ == t@),
                }
            },
    {
        if self.connection_status != MqttConnectionStatus::Disconnected {
            return Err(StateError::InvalidState);
        }
        let (username, password): (Option<Vec<u8>>, Option<Vec<u8>>) = match &self.opts.security {
            SecurityOptions::NoAuth => (None, None),
            SecurityOptions::UsernamePassword(u, p) => (
                Some(clone_bytes(u)),
                Some(clone_bytes(p)),
            ),
            SecurityOptions::GcloudIot(_, _, _) => {
                let unused: Vec<u8> = vec![117u8, 110, 117, 115, 101, 100];
                match token {
                    Some(t) => (Some(unused), Some(t)),
                    None => {
                        proof {
                            assert(false);
                        }
                        (None, None)
                    },
                }
            },
        };
        let last_will: Option<crate::packet::LastWill> = match &self.opts.last_will {
            Some(w) => Some(
                crate::packet::LastWill {
                    topic: clone_bytes(&w.topic),
                    message: clone_bytes(&w.message),
                    qos: w.qos,
                    retain: w.retain,
                },
            ),
            None => None,
        };
        let connect = Connect {
            keep_alive: self.opts.keep_alive,
            client_id: clone_bytes(&self.opts.client_id),
            clean_session: self.opts.clean_session,
            last_will,
            username,
            password,
        };
        self.connection_status = MqttConnectionStatus::Handshake;
        Ok(connect)
    }

    /// What resuming a session replays: under a clean session nothing, and
    /// the in-flight tables are dropped; otherwise every unacknowledged
    /// publish, marked as a duplicate, identifiers and order preserved, then
    /// every owed release — all before any new user request is processed.
    pub fn handle_reconnection(&mut self) -> (r: Vec<Packet>)
        requires
            old(self).wf(),
        ensures
            final(self).wf(),
            old(self).opts.clean_session ==> {
                &&& r@.len() == 0
                &&& final(self).outgoing_pub@ == Seq::<Publish>::empty()
                &&& final(self).outgoing_rel@ == Seq::<u16>::empty()
                &&& final(self).incoming_pub@ == Seq::<u16>::empty()
                &&& *final(self) == (MqttState {
                    outgoing_pub: final(self).outgoing_pub,
                    outgoing_rel: final(self).outgoing_rel,
                    incoming_pub: final(self).incoming_pub,
                    ..*old(self)
                })
            },
            !old(self).opts.clean_session ==> {
                &&& *final(self) == *old(self)
                &&& r@.len() == old(self).outgoing_pub@.len() + old(self).outgoing_rel@.len()
                &&& forall|i: int|
                    0 <= i < old(self).outgoing_pub@.len() ==> (#[trigger] r@[i])@
                        == PacketView::Publish(
                        PublishView { dup: true, ..old(self).outgoing_pub@[i]@ },
                    )
                &&& forall|i: int|
                    old(self).outgoing_pub@.len() <= i < r@.len() ==> (#[trigger] r@[i])@
                        == PacketView::Pubrel(
                        old(self).outgoing_rel@[i - old(self).outgoing_pub@.len()],
                    )
            },
    {
        if self.opts.clean_session {
            self.outgoing_pub = Vec::new();
            self.outgoing_rel = Vec::new();
            self.incoming_pub = Vec::new();
            Vec::new()
        } else {
            let mut r: Vec<Packet> = Vec::new();
            let mut i: usize = 0;
            while i < self.outgoing_pub.len()
                invariant
                    i <= self.outgoing_pub@.len(),
                    r@.len() == i,
                    forall|j: int|
                        0 <= j < i ==> (#[trigger] r@[j])@ == PacketView::Publish(
                            PublishView { dup: true, ..self.outgoing_pub@[j]@ },
                        ),
                decreases self.outgoing_pub@.len() - i,
            {
                let entry = clone_publish(&self.outgoing_pub[i]);
                let marked = Publish { dup: true, ..entry };
                r.push(Packet::Publish(marked));
                i = i + 1;
            }
            let mut j: usize = 0;
            while j < self.outgoing_rel.len()
                invariant
                    j <= self.outgoing_rel@.len(),
                    r@.len() == self.outgoing_pub@.len() + j,
                    forall|k: int|
                        0 <= k < self.outgoing_pub@.len() ==> (#[trigger] r@[k])@
                            == PacketView::Publish(
                            PublishView { dup: true, ..self.outgoing_pub@[k]@ },
                        ),
                    forall|k: int|
                        self.outgoing_pub@.len() <= k < r@.len() ==> (#[trigger] r@[k])@
                            == PacketView::Pubrel(
                            self.outgoing_rel@[k - self.outgoing_pub@.len()],
                        ),
                decreases self.outgoing_rel@.len() - j,
            {
                r.push(Packet::Pubrel(self.outgoing_rel[j]));
                j = j + 1;
            }
            r
        }
    }

    /// The keep-alive span in milliseconds.
    pub open spec fn keep_alive_ms(self) -> int {
        self.opts.keep_alive as int * 1000
    }

    /// The later of the last-sent and last-received clock readings.
    pub open spec fn last_activity(self) -> int {
        if self.last_incoming >= self.last_outgoing {
            self.last_incoming as int
        } else {
            self.last_outgoing as int
        }
    }

    /// A ping is due: the session is connected, no ping is already in
    /// flight, and a whole keep-alive span has passed since any packet
    /// moved in either direction.
    pub open spec fn spec_ping_required(self, now: u64) -> bool {
        &&& self.connection_status is Connected
        &&& !self.await_pingresp
        &&& now >= self.last_activity() + self.keep_alive_ms()
    }

    /// Whether a ping is due now, per `spec_ping_required`.
    pub fn is_ping_required(&self, now: u64) -> (r: bool)
        ensures
            r == self.spec_ping_required(now),
    {
        let m: u64 = if self.last_incoming >= self.last_outgoing {
            self.last_incoming
        } else {
            self.last_outgoing
        };
        let ka: u64 = (self.opts.keep_alive as u64) * 1000;
        self.connection_status == MqttConnectionStatus::Connected && !self.await_pingresp && now
            >= m && now - m >= ka
    }

    /// The broker has answered nothing for one and a half keep-alive spans
    /// while a ping was in flight; the session must be torn down.
    pub open spec fn spec_ping_timeout(self, now: u64) -> bool {
        &&& self.connection_status is Connected
        &&& self.await_pingresp
        &&& now >= self.last_incoming + self.keep_alive_ms() * 3 / 2
    }

    /// Whether the in-flight ping has timed out, per `spec_ping_timeout`.
    pub fn ping_timeout_exceeded(&self, now: u64) -> (r: bool)
        ensures
            r == self.spec_ping_timeout(now),
    {
        let ka: u64 = (self.opts.keep_alive as u64) * 1000;
        let threshold: u64 = ka * 3 / 2;
        self.connection_status == MqttConnectionStatus::Connected && self.await_pingresp && now
            >= self.last_incoming && now - self.last_incoming >= threshold
    }

    /// No ping is required while any packet moved within the last
    /// keep-alive span.
    pub proof fn lemma_no_ping_when_recent(self, now: u64)
        requires
            now < self.last_incoming + self.keep_alive_ms() || now < self.last_outgoing
                + self.keep_alive_ms(),
        ensures
            !self.spec_ping_required(now),
    {
    }

    /// One outgoing step grows the table of unacknowledged publishes by
    /// exactly one when it accepts an acknowledged-delivery publish, and
    /// leaves its length unchanged otherwise.
    pub proof fn lemma_outgoing_flight_balance(
        pre: MqttState,
        post: MqttState,
        packet: Packet,
        now: u64,
        r: Result<Packet, StateError>,
    )
        requires
            Self::outgoing_transition(pre, post, packet, now, r),
        ensures
            post.outgoing_pub@.len() == pre.outgoing_pub@.len() + (
            if (packet matches Packet::Publish(p) && p.qos != QoS::AtMostOnce) && r is Ok {
                1int
            } else {
                0int
            }),
    {
        if pre.connection_status is Disconnecting {
        } else {
            match packet {
                Packet::Publish(p) => {
                    if p.qos != QoS::AtMostOnce {
                        match pre.spec_next_pkid() {
                            Some(id) => {
                                assert(pubs_view(post.outgoing_pub@).len() == pubs_view(
                                    pre.outgoing_pub@,
                                ).len() + 1);
                            },
                            None => {},
                        }
                    }
                },
                _ => {},
            }
        }
    }

    /// One incoming step shrinks the table of unacknowledged publishes by
    /// exactly one when it accepts an acknowledgement or record for an
    /// in-flight publish, and leaves its length unchanged otherwise.
    pub proof fn lemma_incoming_flight_balance(
        pre: MqttState,
        post: MqttState,
        packet: Packet,
        now: u64,
        r: Result<(Notification, Request), StateError>,
    )
        requires
            Self::incoming_transition(pre, post, packet, now, r),
        ensures
            post.outgoing_pub@.len() == pre.outgoing_pub@.len() - (
            if (packet matches Packet::Puback(_) || packet matches Packet::Pubrec(_)) && r is Ok {
                1int
            } else {
                0int
            }),
    {
    }

    /// A duplicate exactly-once publish — its identifier already awaiting
    /// release — surfaces no notification and records nothing new; only the
    /// record packet is answered again.
    pub proof fn lemma_duplicate_qos2_publish_silent(
        pre: MqttState,
        post: MqttState,
        p: Publish,
        now: u64,
        r: Result<(Notification, Request), StateError>,
    )
        requires
            Self::incoming_transition(pre, post, Packet::Publish(p), now, r),
            p.qos == QoS::ExactlyOnce,
            p.pkid matches Some(id) && pre.incoming_pub@.contains(id),
        ensures
            r == Ok::<(Notification, Request), StateError>(
                (Notification::Noop, Request::PubRec(p.pkid.unwrap())),
            ),
            post.incoming_pub == pre.incoming_pub,
    {
    }

    /// Whether a release is owed for this identifier.
    fn contains_rel(&self, id: u16) -> (r: bool)
        ensures
            r == self.outgoing_rel@.contains(id),
    {
        let mut i: usize = 0;
        while i < self.outgoing_rel.len()
            invariant
                i <= self.outgoing_rel@.len(),
                forall|j: int| 0 <= j < i ==> self.outgoing_rel@[j] != id,
            decreases self.outgoing_rel@.len() - i,
        {
            if self.outgoing_rel[i] == id {
                return true;
            }
            i = i + 1;
        }
        false
    }
}

/// Copy a list of subscribe topics.
fn clone_subscribe_topics(v: &Vec<crate::packet::SubscribeTopic>) -> (r: Vec<
    crate::packet::SubscribeTopic,
>)
    ensures
        r@.len() == v@.len(),
        forall|i: int| 0 <= i < v@.len() ==> r@[i]@ == v@[i]@,
{
    let mut r: Vec<crate::packet::SubscribeTopic> = Vec::new();
    let mut i: usize = 0;
    while i < v.len()
        invariant
            i <= v@.len(),
            r@.len() == i,
            forall|j: int| 0 <= j < i ==> r@[j]@ == v@[j]@,
        decreases v@.len() - i,
    {
        let t = crate::packet::SubscribeTopic {
            topic_path: clone_bytes(&v[i].topic_path),
            qos: v[i].qos,
        };
        r.push(t);
        i = i + 1;
    }
    r
}

/// Copy a list of topic filters.
fn clone_topic_list(v: &Vec<Vec<u8>>) -> (r: Vec<Vec<u8>>)
    ensures
        r@.len() == v@.len(),
        forall|i: int| 0 <= i < v@.len() ==> r@[i]@ == v@[i]@,
{
    let mut r: Vec<Vec<u8>> = Vec::new();
    let mut i: usize = 0;
    while i < v.len()
        invariant
            i <= v@.len(),
            r@.len() == i,
            forall|j: int| 0 <= j < i ==> r@[j]@ == v@[j]@,
        decreases v@.len() - i,
    {
        r.push(clone_bytes(&v[i]));
        i = i + 1;
    }
    r
}

} // verus!
