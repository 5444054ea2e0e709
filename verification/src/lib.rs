//! Zcash peer-to-peer ingress: what a node that listens to the Zcash network
//! and feeds a block relay has to decide, as verified functions on plain values.

pub mod addr;
pub mod bytes;
pub mod coinbase;
pub mod config;
pub mod crawler;
pub mod crawler_laws;
pub mod error;
pub mod event;
pub mod event_laws;
pub mod forward;
pub mod forward_laws;
pub mod hash;
pub mod message_laws;
pub mod peer;
pub mod recent;
pub mod relay_bridge;
pub mod session;
pub mod session_laws;
pub mod text;
pub mod transaction;
pub mod tx_inventory;
pub mod wire;
