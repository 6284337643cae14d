//! Electrum client configs.
use vstd::prelude::*;

use crate::electrum::constant::{
    DEFAULT_CONNECTION_TIMEOUT_SECS, DEFAULT_NOTIFICATION_CHANNEL_SIZE,
};
use crate::time::Duration;

verus! {

/// Electrum client configs.
#[derive(Debug, Clone, Copy, PartialEq, Eq)]
pub struct ElectrumConfig {
    /// Connection timeout
    pub connection_timeout: Duration,
    /// Notification channel size
    pub notification_channel_size: usize,
}

impl Default for ElectrumConfig {
    fn default() -> (r: Self)
        ensures
            r.connection_timeout@ == 60 * 1_000_000_000nat,
            r.notification_channel_size == 4096,
    {
        ElectrumConfig {
            connection_timeout: Duration::from_secs(DEFAULT_CONNECTION_TIMEOUT_SECS),
            notification_channel_size: DEFAULT_NOTIFICATION_CHANNEL_SIZE,
        }
    }
}

impl ElectrumConfig {
    /// New default configs
    pub fn new() -> (r: Self)
        ensures
            r.connection_timeout@ == 60 * 1_000_000_000nat,
            r.notification_channel_size == 4096,
    {
        Self::default()
    }

    /// Set a custom connection timeout (default: 60 secs)
    pub fn connection_timeout(self, timeout: Duration) -> (r: Self)
        ensures
            r == (ElectrumConfig { connection_timeout: timeout, ..self }),
    {
        let mut config = self;
        config.connection_timeout = timeout;
        config
    }

    /// Set a custom notification channel size (default: 4096)
    pub fn notification_channel_size(self, size: usize) -> (r: Self)
        ensures
            r == (ElectrumConfig { notification_channel_size: size, ..self }),
    {
        let mut config = self;
        config.notification_channel_size = size;
        config
    }
}

} // verus!
