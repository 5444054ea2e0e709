//! The settings of the ingress.

use vstd::prelude::*;

use crate::addr::{PeerAddr, PeerIp};
use crate::bytes::Hash32;

verus! {

/// The settings of the ingress. Spans of time are in nanoseconds unless the name
/// of the setting says otherwise.
#[derive(Debug, Clone, PartialEq, Eq)]
pub struct Config {
    /// How long to wait for a connection to a peer.
    pub connect_timeout: u128,
    /// Whether addresses that peers tell of are added to the known ones.
    pub crawler_enabled: bool,
    /// How many peers may be known before no more are added.
    pub crawler_max_known_peers: usize,
    /// How many addresses of one `addr` message are read.
    pub crawler_max_addr_per_message: usize,
    /// Whether peers that were given back are queued again.
    pub rotation_enabled: bool,
    /// How long a peer rests after an orderly end.
    pub rotation_cooldown: u128,
    /// How long a peer rests after an error.
    pub rotation_failure_cooldown: u128,
    /// Whether peers on other ports than the main network's are dialled.
    pub accept_nonstandard_ports: bool,
    /// Hosts that are never dialled, on no port.
    pub excluded_peer_ips: Vec<PeerIp>,
    /// Whether peers are chosen by score.
    pub peer_scoring_enabled: bool,
    /// What a peer earns for a block that it delivered.
    pub peer_score_block_received: i64,
    /// What a peer earns for a block that was then relayed.
    pub peer_score_relay_forwarded: i64,
    /// How many transactions are asked for on one `inv` message.
    pub tx_request_limit_per_inv: usize,
    /// The peers of the relay; the relay is off where there are none.
    pub relay_peers: Vec<PeerAddr>,
    /// The address that the relay client binds to.
    pub relay_bind_addr: PeerAddr,
    /// The key that authenticates relay traffic.
    pub relay_auth_key: Option<Hash32>,
    /// How many data shards an object is cut into.
    pub relay_data_shards: usize,
    /// How many parity shards are added.
    pub relay_parity_shards: usize,
    /// Whether the relay client adapts its error correction.
    pub relay_adaptive_fec: bool,
    /// How many packets are sent in one burst; zero for no pacing.
    pub relay_send_burst_packets: usize,
    /// The pause between bursts.
    pub relay_send_burst_delay_micros: u64,
    /// Whether compact blocks name transactions that the cache holds by short id.
    pub relay_compact_from_tx_cache: bool,
    /// Whether a skeleton goes out ahead of the compact block.
    pub relay_skeleton_first: bool,
    /// Whether the raw block follows a compact block that has short ids.
    pub relay_raw_fallback_with_tx_cache: bool,
    /// How many times each raw segment is sent.
    pub relay_raw_segment_send_rounds: usize,
    /// The pause between two rounds of raw segments.
    pub relay_raw_segment_round_delay_millis: u64,
    /// How long a forwarded block is remembered.
    pub relay_forward_dedup_window: u128,
    /// How many forwarded blocks are remembered.
    pub relay_forward_dedup_capacity: usize,
}

} // verus!
