//! Wallet synchronisation on top of the Electrum protocol.
pub mod accumulator;
pub mod activity;
pub mod anchor_laws;
pub mod anchors;
pub mod batch_laws;
pub mod batch_run;
pub mod bdk_electrum_client;
pub mod checkpoint;
pub mod client;
pub mod constant;
pub mod history;
pub mod live_scan;
pub mod live_sync_engine;
pub mod lookup;
pub mod populate;
pub mod response;
pub mod run;
pub mod scan;
pub mod script_update;
pub mod scripts_run;
pub mod spk_run;
pub mod stream_run;
pub mod subscribing_scan;
pub mod subscription;
pub mod tip;
pub mod util;
