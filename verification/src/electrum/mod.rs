//! The Electrum client.
pub mod address;
pub mod builder;
pub mod client;
pub mod config;
pub mod constant;
pub mod error;
pub mod network;
pub mod notification;
pub mod reconnect;
pub mod request;
pub mod status;
pub mod types;
