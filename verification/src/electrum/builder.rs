//! Electrum client configs.
use vstd::prelude::*;

use crate::electrum::address::ElectrumServerAddress;
use crate::electrum::client::ElectrumClient;
use crate::electrum::constant::{
    DEFAULT_COMMAND_CHANNEL_SIZE, DEFAULT_CONNECTION_TIMEOUT_SECS,
    DEFAULT_MAX_CONSECUTIVE_PING_TIMEOUTS, DEFAULT_NOTIFICATION_CHANNEL_SIZE,
    DEFAULT_PING_TIMEOUT_SECS, DEFAULT_RECONNECT_DELAY_INITIAL_SECS,
    DEFAULT_RECONNECT_DELAY_MAX_SECS, DEFAULT_REQUEST_TIMEOUT_SECS,
};
use crate::electrum::network::Network;
use crate::ip::IpAddr;
use crate::time::Duration;

verus! {

/// An IP address and a port.
#[derive(Debug, Clone, Copy, PartialEq, Eq, PartialOrd, Ord, Hash)]
pub struct SocketAddr {
    /// IP address
    pub ip: IpAddr,
    /// Port
    pub port: u16,
}

/// Electrum connection mode.
#[derive(Debug, Clone, Copy, PartialEq, Eq, PartialOrd, Ord, Hash)]
pub enum ElectrumConnectionMode {
    /// Direct
    Direct,
    /// Custom proxy
    Proxy(SocketAddr),
}

impl Default for ElectrumConnectionMode {
    fn default() -> (r: Self)
        ensures
            r == ElectrumConnectionMode::Direct,
    {
        ElectrumConnectionMode::Direct
    }
}

/// Electrum client configs.
#[derive(Debug, Clone)]
pub struct ElectrumClientBuilder {
    /// Electrum server address
    pub addr: ElectrumServerAddress,
    /// Connection mode
    pub connection_mode: ElectrumConnectionMode,
    /// Connection timeout
    pub connection_timeout: Duration,
    /// Request timeout
    pub request_timeout: Duration,
    /// Ping timeout
    pub ping_timeout: Duration,
    /// Initial reconnect delay
    pub reconnect_delay_initial: Duration,
    /// Maximum reconnect delay
    pub reconnect_delay_max: Duration,
    /// Max consecutive ping timeouts before forcing disconnect
    pub max_consecutive_ping_timeouts: u8,
    /// Command channel size
    pub command_channel_size: usize,
    /// Notification channel size
    pub notification_channel_size: usize,
    /// Expected Bitcoin network
    ///
    /// When specified, the client will verify that the server operates on the same network during connection.
    pub expected_network: Option<Network>,
}

/// Whether these are the default settings for a server.
pub open spec fn is_default_builder(
    builder: ElectrumClientBuilder,
    addr: ElectrumServerAddress,
) -> bool {
    &&& builder.addr == addr
    &&& builder.connection_mode == ElectrumConnectionMode::Direct
    &&& builder.connection_timeout@ == 60 * 1_000_000_000nat
    &&& builder.request_timeout@ == 60 * 1_000_000_000nat
    &&& builder.ping_timeout@ == 15 * 1_000_000_000nat
    &&& builder.reconnect_delay_initial@ == 2 * 1_000_000_000nat
    &&& builder.reconnect_delay_max@ == 30 * 1_000_000_000nat
    &&& builder.max_consecutive_ping_timeouts == 3
    &&& builder.command_channel_size == 4096
    &&& builder.notification_channel_size == 4096
    &&& builder.expected_network is None
}

impl ElectrumClientBuilder {
    /// New electrum client builder
    pub fn new(addr: ElectrumServerAddress) -> (r: Self)
        ensures
            is_default_builder(r, addr),
    {
        ElectrumClientBuilder {
            addr,
            connection_mode: ElectrumConnectionMode::default(),
            connection_timeout: Duration::from_secs(DEFAULT_CONNECTION_TIMEOUT_SECS),
            request_timeout: Duration::from_secs(DEFAULT_REQUEST_TIMEOUT_SECS),
            ping_timeout: Duration::from_secs(DEFAULT_PING_TIMEOUT_SECS),
            reconnect_delay_initial: Duration::from_secs(DEFAULT_RECONNECT_DELAY_INITIAL_SECS),
            reconnect_delay_max: Duration::from_secs(DEFAULT_RECONNECT_DELAY_MAX_SECS),
            max_consecutive_ping_timeouts: DEFAULT_MAX_CONSECUTIVE_PING_TIMEOUTS,
            command_channel_size: DEFAULT_COMMAND_CHANNEL_SIZE,
            notification_channel_size: DEFAULT_NOTIFICATION_CHANNEL_SIZE,
            expected_network: None,
        }
    }

    /// Set a connection mode
    pub fn connection_mode(self, mode: ElectrumConnectionMode) -> (r: Self)
        ensures
            r == (ElectrumClientBuilder { connection_mode: mode, ..self }),
    {
        let mut builder = self;
        builder.connection_mode = mode;
        builder
    }

    /// Set a custom connection timeout (default: 60 secs)
    pub fn connection_timeout(self, timeout: Duration) -> (r: Self)
        ensures
            r == (ElectrumClientBuilder { connection_timeout: timeout, ..self }),
    {
        let mut builder = self;
        builder.connection_timeout = timeout;
        builder
    }

    /// Set a custom request timeout (default: 60 secs)
    pub fn request_timeout(self, timeout: Duration) -> (r: Self)
        ensures
            r == (ElectrumClientBuilder { request_timeout: timeout, ..self }),
    {
        let mut builder = self;
        builder.request_timeout = timeout;
        builder
    }

    /// Set a custom ping timeout (default: 15 secs)
    pub fn ping_timeout(self, timeout: Duration) -> (r: Self)
        ensures
            r == (ElectrumClientBuilder { ping_timeout: timeout, ..self }),
    {
        let mut builder = self;
        builder.ping_timeout = timeout;
        builder
    }

    /// Set a custom initial reconnect delay (default: 2 secs)
    pub fn reconnect_delay_initial(self, delay: Duration) -> (r: Self)
        ensures
            r == (ElectrumClientBuilder { reconnect_delay_initial: delay, ..self }),
    {
        let mut builder = self;
        builder.reconnect_delay_initial = delay;
        builder
    }

    /// Set a custom maximum reconnect delay (default: 30 secs)
    pub fn reconnect_delay_max(self, delay: Duration) -> (r: Self)
        ensures
            r == (ElectrumClientBuilder { reconnect_delay_max: delay, ..self }),
    {
        let mut builder = self;
        builder.reconnect_delay_max = delay;
        builder
    }

    /// Set max consecutive ping timeouts before forcing reconnect (default: 3)
    pub fn max_consecutive_ping_timeouts(self, max: u8) -> (r: Self)
        ensures
            r == (ElectrumClientBuilder { max_consecutive_ping_timeouts: max, ..self }),
    {
        let mut builder = self;
        builder.max_consecutive_ping_timeouts = max;
        builder
    }

    /// Set a custom command channel size (default: 4096)
    pub fn command_channel_size(self, size: usize) -> (r: Self)
        ensures
            r == (ElectrumClientBuilder { command_channel_size: size, ..self }),
    {
        let mut builder = self;
        builder.command_channel_size = size;
        builder
    }

    /// Set a custom notification channel size (default: 4096)
    pub fn notification_channel_size(self, size: usize) -> (r: Self)
        ensures
            r == (ElectrumClientBuilder { notification_channel_size: size, ..self }),
    {
        let mut builder = self;
        builder.notification_channel_size = size;
        builder
    }

    /// Expected Bitcoin network
    ///
    /// When specified, the client will verify that the server operates on the same network during connection.
    pub fn expected_network(self, network: Network) -> (r: Self)
        ensures
            r == (ElectrumClientBuilder { expected_network: Some(network), ..self }),
    {
        let mut builder = self;
        builder.expected_network = Some(network);
        builder
    }

    /// Build client
    pub fn build(self) -> (r: ElectrumClient)
        ensures
            r.is_built_from(self),
    {
        ElectrumClient::from_builder(self)
    }
}

} // verus!
