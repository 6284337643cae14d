//! Electrum client logic.
pub mod bdk;
pub mod chain;
pub mod electrum;
pub mod hash;
pub mod ip;
pub mod ordered;
pub mod text;
pub mod time;
pub mod tx;
