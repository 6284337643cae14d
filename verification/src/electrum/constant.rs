//! Constants.
use vstd::prelude::*;

verus! {

/// Default connection timeout, in seconds.
pub const DEFAULT_CONNECTION_TIMEOUT_SECS: u64 = 60;

/// Default request timeout, in seconds.
pub const DEFAULT_REQUEST_TIMEOUT_SECS: u64 = 60;

/// Default ping timeout, in seconds.
pub const DEFAULT_PING_TIMEOUT_SECS: u64 = 15;

/// Default delay before the first attempt to reconnect, in seconds.
pub const DEFAULT_RECONNECT_DELAY_INITIAL_SECS: u64 = 2;

/// Default longest delay before an attempt to reconnect, in seconds.
pub const DEFAULT_RECONNECT_DELAY_MAX_SECS: u64 = 30;

/// Default number of ping timeouts in a row before the connection is given up.
pub const DEFAULT_MAX_CONSECUTIVE_PING_TIMEOUTS: u8 = 3;

/// Default command channel size.
pub const DEFAULT_COMMAND_CHANNEL_SIZE: usize = 4096;

/// Seconds between pings.
// Keep the ping interval below 30 sec.
// Some servers, like ssl://blockstream.info:700, close the connection if no ping is done every <30 sec.
pub const PING_INTERVAL_SECS: u64 = 20;

/// Default notification channel size.
pub const DEFAULT_NOTIFICATION_CHANNEL_SIZE: usize = 4096;

} // verus!
