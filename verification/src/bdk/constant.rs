//! Constants.
use vstd::prelude::*;

verus! {

/// We include a chain suffix of a certain length for the purpose of robustness.
pub const CHAIN_SUFFIX_LENGTH: u32 = 8;

/// Scripts without history after which a scan stops.
pub const DEFAULT_STOP_GAP: u32 = 20;

/// Scripts that are asked for at once.
pub const DEFAULT_BATCH_SIZE: u32 = 20;

/// Milliseconds for which notifications are gathered.
pub const DEFAULT_BATCH_WINDOW_MILLIS: u64 = 1500;

/// The label of a wallet that was given none.
pub const DEFAULT_WALLET_LABEL: &'static str = "unlabeled";

/// Scripts whose histories are asked for at once while following notifications.
pub const LIVE_SYNC_HISTORY_BATCH_SIZE: usize = 64;

} // verus!
