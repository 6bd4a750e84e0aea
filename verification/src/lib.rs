//! Core of an MQTT 3.1.1 client: wire codec, session state machine, and the
//! pure decision logic of the connection event loop, together with the
//! validated client options.
//!
//! The pieces that talk to the outside world (sockets, threads, channels,
//! timers) live in a thin unverified shell around this crate; everything here
//! is a pure function of its arguments and carries a proved contract.

pub mod codec;
pub mod connection;
pub mod error;
pub mod mqttoptions;
pub mod mqttstate;
pub mod packet;
pub mod transport;
