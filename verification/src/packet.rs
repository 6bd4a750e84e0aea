//! The MQTT 3.1.1 control-packet data model.
//!
//! Topics, payloads and credentials are held as raw bytes: that is how they
//! travel on the wire, and it keeps the codec's correctness statement free of
//! any text-encoding concern.  Each carrier type has a mathematical view in
//! which byte vectors become sequences, so that contracts can speak about
//! packet contents abstractly.

use vstd::prelude::*;

verus! {

/// Delivery guarantee of a publish: at most once, at least once, exactly once.
#[derive(Clone, Copy, Debug, PartialEq, Eq, Structural)]
pub enum QoS {
    AtMostOnce,
    AtLeastOnce,
    ExactlyOnce,
}

impl QoS {
    /// The wire value of this quality-of-service level.
    pub open spec fn spec_as_u8(self) -> u8 {
        match self {
            QoS::AtMostOnce => 0,
            QoS::AtLeastOnce => 1,
            QoS::ExactlyOnce => 2,
        }
    }

    pub fn as_u8(self) -> (r: u8)
        ensures
            r == self.spec_as_u8(),
    {
        match self {
            QoS::AtMostOnce => 0,
            QoS::AtLeastOnce => 1,
            QoS::ExactlyOnce => 2,
        }
    }

    /// The quality-of-service level a wire value stands for, if any.
    pub open spec fn spec_from_u8(b: u8) -> Option<QoS> {
        if b == 0 {
            Some(QoS::AtMostOnce)
        } else if b == 1 {
            Some(QoS::AtLeastOnce)
        } else if b == 2 {
            Some(QoS::ExactlyOnce)
        } else {
            None
        }
    }

    pub fn from_u8(b: u8) -> (r: Option<QoS>)
        ensures
            r == QoS::spec_from_u8(b),
    {
        if b == 0 {
            Some(QoS::AtMostOnce)
        } else if b == 1 {
            Some(QoS::AtLeastOnce)
        } else if b == 2 {
            Some(QoS::ExactlyOnce)
        } else {
            None
        }
    }
}

/// Message the broker publishes if the client disappears without a Disconnect.
#[derive(Clone, Debug, PartialEq, Eq)]
pub struct LastWill {
    pub topic: Vec<u8>,
    pub message: Vec<u8>,
    pub qos: QoS,
    pub retain: bool,
}

pub struct LastWillView {
    pub topic: Seq<u8>,
    pub message: Seq<u8>,
    pub qos: QoS,
    pub retain: bool,
}

impl View for LastWill {
    type V = LastWillView;

    open spec fn view(&self) -> LastWillView {
        LastWillView {
            topic: self.topic@,
            message: self.message@,
            qos: self.qos,
            retain: self.retain,
        }
    }
}

/// The CONNECT packet a client opens a session with.
#[derive(Clone, Debug, PartialEq, Eq)]
pub struct Connect {
    pub keep_alive: u16,
    pub client_id: Vec<u8>,
    pub clean_session: bool,
    pub last_will: Option<LastWill>,
    pub username: Option<Vec<u8>>,
    pub password: Option<Vec<u8>>,
}

pub struct ConnectView {
    pub keep_alive: u16,
    pub client_id: Seq<u8>,
    pub clean_session: bool,
    pub last_will: Option<LastWillView>,
    pub username: Option<Seq<u8>>,
    pub password: Option<Seq<u8>>,
}

impl View for Connect {
    type V = ConnectView;

    open spec fn view(&self) -> ConnectView {
        ConnectView {
            keep_alive: self.keep_alive,
            client_id: self.client_id@,
            clean_session: self.clean_session,
            last_will: match self.last_will {
                Some(w) => Some(w@),
                None => None,
            },
            username: match self.username {
                Some(u) => Some(u@),
                None => None,
            },
            password: match self.password {
                Some(p) => Some(p@),
                None => None,
            },
        }
    }
}

/// The broker's answer to a CONNECT: whether old session state survives, and
/// a return code (0 means accepted).
#[derive(Clone, Copy, Debug, PartialEq, Eq, Structural)]
pub struct Connack {
    pub session_present: bool,
    pub code: u8,
}

/// An application message, sent or received.
#[derive(Clone, Debug, PartialEq, Eq)]
pub struct Publish {
    pub dup: bool,
    pub qos: QoS,
    pub retain: bool,
    pub topic_name: Vec<u8>,
    pub pkid: Option<u16>,
    pub payload: Vec<u8>,
}

pub struct PublishView {
    pub dup: bool,
    pub qos: QoS,
    pub retain: bool,
    pub topic_name: Seq<u8>,
    pub pkid: Option<u16>,
    pub payload: Seq<u8>,
}

impl View for Publish {
    type V = PublishView;

    open spec fn view(&self) -> PublishView {
        PublishView {
            dup: self.dup,
            qos: self.qos,
            retain: self.retain,
            topic_name: self.topic_name@,
            pkid: self.pkid,
            payload: self.payload@,
        }
    }
}

impl Publish {
    /// A publish is well formed when it carries a packet identifier exactly
    /// if its quality of service asks for acknowledgement.
    pub open spec fn wf(self) -> bool {
        (self.pkid is Some <==> self.qos != QoS::AtMostOnce) && (self.pkid matches Some(id)
            ==> id >= 1)
    }
}

/// One topic filter of a SUBSCRIBE, with the requested quality of service.
#[derive(Clone, Debug, PartialEq, Eq)]
pub struct SubscribeTopic {
    pub topic_path: Vec<u8>,
    pub qos: QoS,
}

pub struct SubscribeTopicView {
    pub topic_path: Seq<u8>,
    pub qos: QoS,
}

impl View for SubscribeTopic {
    type V = SubscribeTopicView;

    open spec fn view(&self) -> SubscribeTopicView {
        SubscribeTopicView { topic_path: self.topic_path@, qos: self.qos }
    }
}

/// The SUBSCRIBE packet: an identifier and the topic filters asked for.
#[derive(Clone, Debug, PartialEq, Eq)]
pub struct Subscribe {
    pub pkid: u16,
    pub topics: Vec<SubscribeTopic>,
}

pub struct SubscribeView {
    pub pkid: u16,
    pub topics: Seq<SubscribeTopicView>,
}

impl View for Subscribe {
    type V = SubscribeView;

    open spec fn view(&self) -> SubscribeView {
        SubscribeView {
            pkid: self.pkid,
            topics: Seq::new(
                self.topics@.len(),
                |i: int| self.topics@[i]@,
            ),
        }
    }
}

/// Broker's verdict on one subscription: granted at a level, or refused.
#[derive(Clone, Copy, Debug, PartialEq, Eq, Structural)]
pub enum SubscribeReturnCode {
    Success(QoS),
    Failure,
}

/// The SUBACK packet: one return code per requested topic filter.
#[derive(Clone, Debug, PartialEq, Eq)]
pub struct Suback {
    pub pkid: u16,
    pub return_codes: Vec<SubscribeReturnCode>,
}

pub struct SubackView {
    pub pkid: u16,
    pub return_codes: Seq<SubscribeReturnCode>,
}

impl View for Suback {
    type V = SubackView;

    open spec fn view(&self) -> SubackView {
        SubackView { pkid: self.pkid, return_codes: self.return_codes@ }
    }
}

/// The UNSUBSCRIBE packet: an identifier and the topic filters given up.
#[derive(Clone, Debug, PartialEq, Eq)]
pub struct Unsubscribe {
    pub pkid: u16,
    pub topics: Vec<Vec<u8>>,
}

pub struct UnsubscribeView {
    pub pkid: u16,
    pub topics: Seq<Seq<u8>>,
}

impl View for Unsubscribe {
    type V = UnsubscribeView;

    open spec fn view(&self) -> UnsubscribeView {
        UnsubscribeView {
            pkid: self.pkid,
            topics: Seq::new(self.topics@.len(), |i: int| self.topics@[i]@),
        }
    }
}

/// An MQTT 3.1.1 control packet.
#[derive(Clone, Debug, PartialEq, Eq)]
pub enum Packet {
    Connect(Connect),
    Connack(Connack),
    Publish(Publish),
    Puback(u16),
    Pubrec(u16),
    Pubrel(u16),
    Pubcomp(u16),
    Subscribe(Subscribe),
    Suback(Suback),
    Unsubscribe(Unsubscribe),
    Unsuback(u16),
    Pingreq,
    Pingresp,
    Disconnect,
}

pub enum PacketView {
    Connect(ConnectView),
    Connack(Connack),
    Publish(PublishView),
    Puback(u16),
    Pubrec(u16),
    Pubrel(u16),
    Pubcomp(u16),
    Subscribe(SubscribeView),
    Suback(SubackView),
    Unsubscribe(UnsubscribeView),
    Unsuback(u16),
    Pingreq,
    Pingresp,
    Disconnect,
}

impl View for Packet {
    type V = PacketView;

    open spec fn view(&self) -> PacketView {
        match self {
            Packet::Connect(c) => PacketView::Connect(c@),
            Packet::Connack(c) => PacketView::Connack(*c),
            Packet::Publish(p) => PacketView::Publish(p@),
            Packet::Puback(id) => PacketView::Puback(*id),
            Packet::Pubrec(id) => PacketView::Pubrec(*id),
            Packet::Pubrel(id) => PacketView::Pubrel(*id),
            Packet::Pubcomp(id) => PacketView::Pubcomp(*id),
            Packet::Subscribe(s) => PacketView::Subscribe(s@),
            Packet::Suback(s) => PacketView::Suback(s@),
            Packet::Unsubscribe(u) => PacketView::Unsubscribe(u@),
            Packet::Unsuback(id) => PacketView::Unsuback(*id),
            Packet::Pingreq => PacketView::Pingreq,
            Packet::Pingresp => PacketView::Pingresp,
            Packet::Disconnect => PacketView::Disconnect,
        }
    }
}

} // verus!
