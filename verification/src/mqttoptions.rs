//! Options that set the client's behaviour.
//!
//! Every validated value is checked when the options are built: an invalid
//! value is reported as an `OptionsError` instead of ever reaching the
//! session.  Host names, client identifiers and credentials are held as raw
//! bytes, as they travel in the CONNECT packet.

use vstd::prelude::*;
use crate::error::OptionsError;
use crate::packet::LastWill;

verus! {

/// Control how the connection is re-established if it is lost.
#[derive(Clone, Copy, Debug, PartialEq, Eq, Structural)]
pub enum ReconnectOptions {
    /// Don't automatically reconnect.
    Never,
    /// Reconnect automatically if the initial connection was successful,
    /// sleeping the given number of seconds before each attempt.
    AfterFirstSuccess(u64),
    /// Always reconnect automatically, sleeping the given number of seconds
    /// before each attempt.
    Always(u64),
}

/// Client authentication material for the CONNECT packet.
#[derive(Clone, Debug, PartialEq, Eq)]
pub enum SecurityOptions {
    /// No authentication.
    NoAuth,
    /// Authenticate with this username and password.
    UsernamePassword(Vec<u8>, Vec<u8>),
    /// Authenticate against a Google Cloud IoT Core project: project name,
    /// private key for signing the token, and token expiry in seconds.
    GcloudIot(Vec<u8>, Vec<u8>, i64),
}

/// How the byte stream to the broker is established.
#[derive(Clone, Debug, PartialEq, Eq)]
pub enum ConnectionMethod {
    /// Plain text connection.
    Tcp,
    /// Encrypted connection: certificate-authority data, and an optional
    /// client certificate and key pair.
    Tls(Vec<u8>, Option<(Vec<u8>, Vec<u8>)>),
}

/// Reaching the broker through an HTTP CONNECT proxy.
#[derive(Clone, Debug, PartialEq, Eq)]
pub enum Proxy {
    /// No tunnel.
    NoProxy,
    /// Tunnel through the named proxy and port, authorizing with a token
    /// signed by the given private key, expiring after the given seconds.
    HttpConnect(Vec<u8>, u16, Vec<u8>, i64),
}

/// The default broker host, `127.0.0.1`, as bytes.
pub open spec fn default_host_bytes() -> Seq<u8> {
    seq![49u8, 50, 55, 46, 48, 46, 48, 46, 49]
}

/// The default client identifier, `test-client`, as bytes.
pub open spec fn default_client_id_bytes() -> Seq<u8> {
    seq![116u8, 101, 115, 116, 45, 99, 108, 105, 101, 110, 116]
}

/// Configuration snapshot taken at client start.
#[derive(Debug, PartialEq, Eq)]
pub struct MqttOptions {
    /// Broker address to connect to, as bytes of its name.
    pub host: Vec<u8>,
    /// Broker port.
    pub port: u16,
    /// Seconds of idleness after which the client pings the broker.
    pub keep_alive: u16,
    /// Whether the broker should drop session state when the client leaves.
    pub clean_session: bool,
    /// Client identifier: non-empty, not beginning with a space.
    pub client_id: Vec<u8>,
    /// How the byte stream is established.
    pub connection_method: ConnectionMethod,
    /// Optional HTTP CONNECT tunnel.
    pub proxy: Proxy,
    /// Reconnection policy.
    pub reconnect: ReconnectOptions,
    /// Authentication material.
    pub security: SecurityOptions,
    /// Largest packet, in bytes, accepted in either direction.
    pub max_packet_size: usize,
    /// Message the broker publishes if the client disappears.
    pub last_will: Option<LastWill>,
    /// Capacity of the user-request channel.
    pub request_channel_capacity: usize,
    /// Capacity of the notification channel.
    pub notification_channel_capacity: usize,
    /// Optional cap on outgoing messages per second; never zero.
    pub outgoing_ratelimit: Option<u64>,
    /// Once this many publishes are outstanding, wait this many milliseconds
    /// between further ones; the threshold is never zero.
    pub outgoing_queuelimit: (usize, u64),
}

impl MqttOptions {
    /// The validated values hold what the setters enforce.
    pub open spec fn wf(self) -> bool {
        &&& self.client_id@.len() > 0
        &&& self.client_id@[0] != 32
        &&& self.keep_alive >= 10
        &&& self.max_packet_size > 0
        &&& (self.outgoing_ratelimit matches Some(r) ==> r > 0)
        &&& self.outgoing_queuelimit.0 > 0
    }

    /// The values `default` and `new` fill in.
    pub open spec fn is_default(self) -> bool {
        &&& self.host@ == default_host_bytes()
        &&& self.port == 1883
        &&& self.keep_alive == 30
        &&& self.clean_session == true
        &&& self.client_id@ == default_client_id_bytes()
        &&& self.connection_method is Tcp
        &&& self.proxy is NoProxy
        &&& self.reconnect == ReconnectOptions::AfterFirstSuccess(10)
        &&& self.security is NoAuth
        &&& self.max_packet_size == 262144
        &&& self.last_will is None
        &&& self.request_channel_capacity == 10
        &&& self.notification_channel_capacity == 10
        &&& self.outgoing_ratelimit is None
        &&& self.outgoing_queuelimit == (100usize, 3000u64)
    }

    /// New options, with the default values.
    pub fn new() -> (r: Self)
        ensures
            r.is_default(),
            r.wf(),
    {
        let host: Vec<u8> = vec![49u8, 50, 55, 46, 48, 46, 48, 46, 49];
        let client_id: Vec<u8> = vec![116u8, 101, 115, 116, 45, 99, 108, 105, 101, 110, 116];
        MqttOptions {
            host,
            port: 1883,
            keep_alive: 30,
            clean_session: true,
            client_id,
            connection_method: ConnectionMethod::Tcp,
            proxy: Proxy::NoProxy,
            reconnect: ReconnectOptions::AfterFirstSuccess(10),
            security: SecurityOptions::NoAuth,
            max_packet_size: 262144,
            last_will: None,
            request_channel_capacity: 10,
            notification_channel_capacity: 10,
            outgoing_ratelimit: None,
            outgoing_queuelimit: (100, 3000),
        }
    }

    /// Set the client identifier; it must be non-empty and must not begin
    /// with a space.
    pub fn set_client_id(&mut self, client_id: Vec<u8>) -> (r: Result<(), OptionsError>)
        ensures
            client_id@.len() > 0 && client_id@[0] != 32 ==> r == Ok::<(), OptionsError>(())
                && *final(self) == (MqttOptions { client_id, ..*old(self) }),
            !(client_id@.len() > 0 && client_id@[0] != 32) ==> r == Err::<(), OptionsError>(
                OptionsError::InvalidClientId,
            ) && *final(self) == *old(self),
    {
        if client_id.len() == 0 || client_id[0] == 32 {
            Err(OptionsError::InvalidClientId)
        } else {
            self.client_id = client_id;
            Ok(())
        }
    }

    /// Client identifier.
    pub fn client_id(&self) -> (r: &Vec<u8>)
        ensures
            r == &self.client_id,
    {
        &self.client_id
    }

    /// Set the broker port.
    pub fn set_port(&mut self, port: u16)
        ensures
            *final(self) == (MqttOptions { port, ..*old(self) }),
    {
        self.port = port;
    }

    /// Broker port.
    pub fn port(&self) -> (r: u16)
        ensures
            r == self.port,
    {
        self.port
    }

    /// Set the broker address.
    pub fn set_host(&mut self, host: Vec<u8>)
        ensures
            *final(self) == (MqttOptions { host, ..*old(self) }),
    {
        self.host = host;
    }

    /// Broker address.
    pub fn host(&self) -> (r: &Vec<u8>)
        ensures
            r == &self.host,
    {
        &self.host
    }

    /// Set the keep-alive span in seconds; it must be at least 10 and fit
    /// the 16-bit field of the CONNECT packet.
    pub fn set_keep_alive(&mut self, secs: u64) -> (r: Result<(), OptionsError>)
        ensures
            10 <= secs <= 65535 ==> r == Ok::<(), OptionsError>(()) && *final(self) == (
            MqttOptions { keep_alive: secs as u16, ..*old(self) }),
            !(10 <= secs <= 65535) ==> r == Err::<(), OptionsError>(OptionsError::InvalidKeepAlive)
                && *final(self) == *old(self),
    {
        if secs < 10 || secs > 65535 {
            Err(OptionsError::InvalidKeepAlive)
        } else {
            self.keep_alive = secs as u16;
            Ok(())
        }
    }

    /// Keep-alive span in seconds.
    pub fn keep_alive(&self) -> (r: u16)
        ensures
            r == self.keep_alive,
    {
        self.keep_alive
    }

    /// Set the packet size limit, given in kibibytes; it must be non-zero
    /// and the resulting byte count must fit the machine word.
    pub fn set_max_packet_size(&mut self, sz: usize) -> (r: Result<(), OptionsError>)
        ensures
            1 <= sz <= usize::MAX / 1024 ==> r == Ok::<(), OptionsError>(()) && *final(self) == (
            MqttOptions { max_packet_size: (sz * 1024) as usize, ..*old(self) }),
            !(1 <= sz <= usize::MAX / 1024) ==> r == Err::<(), OptionsError>(
                OptionsError::InvalidMaxPacketSize,
            ) && *final(self) == *old(self),
    {
        if sz == 0 || sz > usize::MAX / 1024 {
            Err(OptionsError::InvalidMaxPacketSize)
        } else {
            self.max_packet_size = sz * 1024;
            Ok(())
        }
    }

    /// Packet size limit in bytes.
    pub fn max_packet_size(&self) -> (r: usize)
        ensures
            r == self.max_packet_size,
    {
        self.max_packet_size
    }

    /// Choose whether the broker drops session state when the client leaves.
    pub fn set_clean_session(&mut self, clean_session: bool)
        ensures
            *final(self) == (MqttOptions { clean_session, ..*old(self) }),
    {
        self.clean_session = clean_session;
    }

    /// Whether the broker drops session state when the client leaves.
    pub fn clean_session(&self) -> (r: bool)
        ensures
            r == self.clean_session,
    {
        self.clean_session
    }

    /// Set how the byte stream to the broker is established.
    pub fn set_connection_method(&mut self, opts: ConnectionMethod)
        ensures
            *final(self) == (MqttOptions { connection_method: opts, ..*old(self) }),
    {
        self.connection_method = opts;
    }

    /// How the byte stream to the broker is established.
    pub fn connection_method(&self) -> (r: &ConnectionMethod)
        ensures
            r == &self.connection_method,
    {
        &self.connection_method
    }

    /// Set the HTTP CONNECT tunnel.
    pub fn set_proxy(&mut self, proxy: Proxy)
        ensures
            *final(self) == (MqttOptions { proxy, ..*old(self) }),
    {
        self.proxy = proxy;
    }

    /// The HTTP CONNECT tunnel, if any.
    pub fn proxy(&self) -> (r: &Proxy)
        ensures
            r == &self.proxy,
    {
        &self.proxy
    }

    /// Set the reconnection policy.
    pub fn set_reconnect_opts(&mut self, opts: ReconnectOptions)
        ensures
            *final(self) == (MqttOptions { reconnect: opts, ..*old(self) }),
    {
        self.reconnect = opts;
    }

    /// Reconnection policy.
    pub fn reconnect_opts(&self) -> (r: ReconnectOptions)
        ensures
            r == self.reconnect,
    {
        self.reconnect
    }

    /// Set the authentication material.
    pub fn set_security_opts(&mut self, opts: SecurityOptions)
        ensures
            *final(self) == (MqttOptions { security: opts, ..*old(self) }),
    {
        self.security = opts;
    }

    /// Authentication material.
    pub fn security_opts(&self) -> (r: &SecurityOptions)
        ensures
            r == &self.security,
    {
        &self.security
    }

    /// Set the last will and testament.
    pub fn set_last_will(&mut self, last_will: LastWill)
        ensures
            *final(self) == (MqttOptions { last_will: Some(last_will), ..*old(self) }),
    {
        self.last_will = Some(last_will);
    }

    /// Last will and testament, if any.
    pub fn last_will(&self) -> (r: &Option<LastWill>)
        ensures
            r == &self.last_will,
    {
        &self.last_will
    }

    /// Set the notification channel capacity.
    pub fn set_notification_channel_capacity(&mut self, capacity: usize)
        ensures
            *final(self) == (MqttOptions { notification_channel_capacity: capacity, ..*old(self) }),
    {
        self.notification_channel_capacity = capacity;
    }

    /// Notification channel capacity.
    pub fn notification_channel_capacity(&self) -> (r: usize)
        ensures
            r == self.notification_channel_capacity,
    {
        self.notification_channel_capacity
    }

    /// Set the user-request channel capacity.
    pub fn set_request_channel_capacity(&mut self, capacity: usize)
        ensures
            *final(self) == (MqttOptions { request_channel_capacity: capacity, ..*old(self) }),
    {
        self.request_channel_capacity = capacity;
    }

    /// User-request channel capacity.
    pub fn request_channel_capacity(&self) -> (r: usize)
        ensures
            r == self.request_channel_capacity,
    {
        self.request_channel_capacity
    }

    /// Cap outgoing messages at this many per second; zero is refused.
    pub fn set_outgoing_ratelimit(&mut self, rate: u64) -> (r: Result<(), OptionsError>)
        ensures
            rate > 0 ==> r == Ok::<(), OptionsError>(()) && *final(self) == (MqttOptions {
                outgoing_ratelimit: Some(rate),
                ..*old(self)
            }),
            rate == 0 ==> r == Err::<(), OptionsError>(OptionsError::InvalidRateLimit)
                && *final(self) == *old(self),
    {
        if rate == 0 {
            Err(OptionsError::InvalidRateLimit)
        } else {
            self.outgoing_ratelimit = Some(rate);
            Ok(())
        }
    }

    /// Outgoing message rate cap, if any.
    pub fn outgoing_ratelimit(&self) -> (r: Option<u64>)
        ensures
            r == self.outgoing_ratelimit,
    {
        self.outgoing_ratelimit
    }

    /// Once `queue_size` publishes are outstanding, wait `delay_ms`
    /// milliseconds between further ones; a zero threshold is refused.
    pub fn set_outgoing_queuelimit(&mut self, queue_size: usize, delay_ms: u64) -> (r: Result<
        (),
        OptionsError,
    >)
        ensures
            queue_size > 0 ==> r == Ok::<(), OptionsError>(()) && *final(self) == (MqttOptions {
                outgoing_queuelimit: (queue_size, delay_ms),
                ..*old(self)
            }),
            queue_size == 0 ==> r == Err::<(), OptionsError>(OptionsError::InvalidQueueLimit)
                && *final(self) == *old(self),
    {
        if queue_size == 0 {
            Err(OptionsError::InvalidQueueLimit)
        } else {
            self.outgoing_queuelimit = (queue_size, delay_ms);
            Ok(())
        }
    }

    /// Outstanding-publish threshold and the delay applied beyond it.
    pub fn outgoing_queuelimit(&self) -> (r: (usize, u64))
        ensures
            r == self.outgoing_queuelimit,
    {
        self.outgoing_queuelimit
    }

    /// A builder that collects values and validates them all when built.
    pub fn builder() -> (r: MqttOptionsBuilder)
        ensures
            r.inner.is_default(),
            r.keep_alive_secs == 30,
            r.max_packet_size_kb == 256,
    {
        MqttOptionsBuilder::new()
    }
}

impl Default for MqttOptions {
    /// The same values `new` fills in.
    fn default() -> (r: Self)
        ensures
            r.is_default(),
            r.wf(),
    {
        MqttOptions::new()
    }
}

/// Collects option values and validates all of them when `build` is called;
/// an invalid value makes `build` fail with the matching `OptionsError`.
pub struct MqttOptionsBuilder {
    /// The values collected so far, except the two below.
    pub inner: MqttOptions,
    /// Keep-alive in seconds, as given, validated at build.
    pub keep_alive_secs: u64,
    /// Packet size limit in kibibytes, as given, validated at build.
    pub max_packet_size_kb: usize,
}

impl MqttOptionsBuilder {
    fn new() -> (r: Self)
        ensures
            r.inner.is_default(),
            r.keep_alive_secs == 30,
            r.max_packet_size_kb == 256,
    {
        MqttOptionsBuilder { inner: MqttOptions::new(), keep_alive_secs: 30, max_packet_size_kb: 256 }
    }

    /// Set the client identifier, validated at build.
    pub fn client_id(self, client_id: Vec<u8>) -> (r: Self)
        ensures
            r == (MqttOptionsBuilder { inner: (MqttOptions { client_id, ..self.inner }), ..self }),
    {
        MqttOptionsBuilder { inner: MqttOptions { client_id, ..self.inner }, ..self }
    }

    /// Set the broker port.
    pub fn port(self, port: u16) -> (r: Self)
        ensures
            r == (MqttOptionsBuilder { inner: (MqttOptions { port, ..self.inner }), ..self }),
    {
        MqttOptionsBuilder { inner: MqttOptions { port, ..self.inner }, ..self }
    }

    /// Set the broker address.
    pub fn host(self, host: Vec<u8>) -> (r: Self)
        ensures
            r == (MqttOptionsBuilder { inner: (MqttOptions { host, ..self.inner }), ..self }),
    {
        MqttOptionsBuilder { inner: MqttOptions { host, ..self.inner }, ..self }
    }

    /// Set the keep-alive span in seconds, validated at build.
    pub fn keep_alive(self, secs: u64) -> (r: Self)
        ensures
            r == (MqttOptionsBuilder { keep_alive_secs: secs, ..self }),
    {
        MqttOptionsBuilder { keep_alive_secs: secs, ..self }
    }

    /// Set the packet size limit in kibibytes, validated at build.
    pub fn max_packet_size(self, sz: usize) -> (r: Self)
        ensures
            r == (MqttOptionsBuilder { max_packet_size_kb: sz, ..self }),
    {
        MqttOptionsBuilder { max_packet_size_kb: sz, ..self }
    }

    /// Choose whether the broker drops session state when the client leaves.
    pub fn clean_session(self, clean_session: bool) -> (r: Self)
        ensures
            r == (MqttOptionsBuilder {
                inner: (MqttOptions { clean_session, ..self.inner }),
                ..self
            }),
    {
        MqttOptionsBuilder { inner: MqttOptions { clean_session, ..self.inner }, ..self }
    }

    /// Set how the byte stream to the broker is established.
    pub fn connection_method(self, opts: ConnectionMethod) -> (r: Self)
        ensures
            r == (MqttOptionsBuilder {
                inner: (MqttOptions { connection_method: opts, ..self.inner }),
                ..self
            }),
    {
        MqttOptionsBuilder { inner: MqttOptions { connection_method: opts, ..self.inner }, ..self }
    }

    /// Set the HTTP CONNECT tunnel.
    pub fn proxy(self, proxy: Proxy) -> (r: Self)
        ensures
            r == (MqttOptionsBuilder { inner: (MqttOptions { proxy, ..self.inner }), ..self }),
    {
        MqttOptionsBuilder { inner: MqttOptions { proxy, ..self.inner }, ..self }
    }

    /// Set the reconnection policy.
    pub fn reconnect_opts(self, opts: ReconnectOptions) -> (r: Self)
        ensures
            r == (MqttOptionsBuilder {
                inner: (MqttOptions { reconnect: opts, ..self.inner }),
                ..self
            }),
    {
        MqttOptionsBuilder { inner: MqttOptions { reconnect: opts, ..self.inner }, ..self }
    }

    /// Set the authentication material.
    pub fn security_opts(self, opts: SecurityOptions) -> (r: Self)
        ensures
            r == (MqttOptionsBuilder {
                inner: (MqttOptions { security: opts, ..self.inner }),
                ..self
            }),
    {
        MqttOptionsBuilder { inner: MqttOptions { security: opts, ..self.inner }, ..self }
    }

    /// Set the last will and testament.
    pub fn last_will(self, last_will: LastWill) -> (r: Self)
        ensures
            r == (MqttOptionsBuilder {
                inner: (MqttOptions { last_will: Some(last_will), ..self.inner }),
                ..self
            }),
    {
        MqttOptionsBuilder { inner: MqttOptions { last_will: Some(last_will), ..self.inner }, ..self }
    }

    /// Set the notification channel capacity.
    pub fn notification_channel_capacity(self, capacity: usize) -> (r: Self)
        ensures
            r == (MqttOptionsBuilder {
                inner: (MqttOptions { notification_channel_capacity: capacity, ..self.inner }),
                ..self
            }),
    {
        MqttOptionsBuilder {
            inner: MqttOptions { notification_channel_capacity: capacity, ..self.inner },
            ..self
        }
    }

    /// Set the user-request channel capacity.
    pub fn request_channel_capacity(self, capacity: usize) -> (r: Self)
        ensures
            r == (MqttOptionsBuilder {
                inner: (MqttOptions { request_channel_capacity: capacity, ..self.inner }),
                ..self
            }),
    {
        MqttOptionsBuilder {
            inner: MqttOptions { request_channel_capacity: capacity, ..self.inner },
            ..self
        }
    }

    /// Cap outgoing messages at this many per second, validated at build.
    pub fn outgoing_ratelimit(self, rate: u64) -> (r: Self)
        ensures
            r == (MqttOptionsBuilder {
                inner: (MqttOptions { outgoing_ratelimit: Some(rate), ..self.inner }),
                ..self
            }),
    {
        MqttOptionsBuilder { inner: MqttOptions { outgoing_ratelimit: Some(rate), ..self.inner }, ..self }
    }

    /// Set the outstanding-publish threshold and the delay applied beyond
    /// it, validated at build.
    pub fn outgoing_queuelimit(self, queue_size: usize, delay_ms: u64) -> (r: Self)
        ensures
            r == (MqttOptionsBuilder {
                inner: (MqttOptions { outgoing_queuelimit: (queue_size, delay_ms), ..self.inner }),
                ..self
            }),
    {
        MqttOptionsBuilder {
            inner: MqttOptions { outgoing_queuelimit: (queue_size, delay_ms), ..self.inner },
            ..self
        }
    }

    /// Whether every collected value passes its validation.
    pub open spec fn all_valid(self) -> bool {
        &&& self.inner.client_id@.len() > 0
        &&& self.inner.client_id@[0] != 32
        &&& 10 <= self.keep_alive_secs <= 65535
        &&& 1 <= self.max_packet_size_kb <= usize::MAX / 1024
        &&& (self.inner.outgoing_ratelimit matches Some(r) ==> r > 0)
        &&& self.inner.outgoing_queuelimit.0 > 0
    }

    /// Validate every collected value and produce the options.  The checks
    /// run in a fixed order: client identifier, keep-alive, packet size
    /// limit, rate limit, queue limit; the first failure names the error.
    pub fn build(self) -> (r: Result<MqttOptions, OptionsError>)
        ensures
            self.all_valid() <==> r is Ok,
            r matches Ok(o) ==> o == (MqttOptions {
                keep_alive: self.keep_alive_secs as u16,
                max_packet_size: (self.max_packet_size_kb * 1024) as usize,
                ..self.inner
            }) && o.wf(),
            !(self.inner.client_id@.len() > 0 && self.inner.client_id@[0] != 32) ==> r == Err::<
                MqttOptions,
                OptionsError,
            >(OptionsError::InvalidClientId),
    {
        if self.inner.client_id.len() == 0 || self.inner.client_id[0] == 32 {
            Err(OptionsError::InvalidClientId)
        } else if self.keep_alive_secs < 10 || self.keep_alive_secs > 65535 {
            Err(OptionsError::InvalidKeepAlive)
        } else if self.max_packet_size_kb == 0 || self.max_packet_size_kb > usize::MAX / 1024 {
            Err(OptionsError::InvalidMaxPacketSize)
        } else if match self.inner.outgoing_ratelimit {
            Some(r) => r == 0,
            None => false,
        } {
            Err(OptionsError::InvalidRateLimit)
        } else if self.inner.outgoing_queuelimit.0 == 0 {
            Err(OptionsError::InvalidQueueLimit)
        } else {
            Ok(
                MqttOptions {
                    keep_alive: self.keep_alive_secs as u16,
                    max_packet_size: self.max_packet_size_kb * 1024,
                    ..self.inner
                },
            )
        }
    }
}

} // verus!
