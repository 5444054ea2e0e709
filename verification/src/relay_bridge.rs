//! The way of a block into the relay.

use vstd::prelude::*;
use vstd::string::StringExecFns;

use crate::addr::PeerAddr;
use crate::bytes::Hash32;
use crate::config::Config;
use crate::error::{ErrorView, IngressError};
use crate::recent::{RecentForwardedHashes, RecentView};
use crate::text::{contains_text, decimal, occurs_in, push_decimal};

verus! {

/// How many bytes of a frame the relay takes for the length of the object.
pub const RELAY_LEN_PREFIX_BYTES: usize = 4;

/// The largest skeleton that is worth an early copy ahead of the compact block, in
/// bytes. A larger one is left to the compact block alone.
pub const SKELETON_MAX_WIRE_BYTES: usize = 8192;

/// How a block went into the relay.
#[derive(Debug, Clone, Copy, PartialEq, Eq, Structural)]
pub enum ForwardMode {
    CompactBlock,
    CompactBlockWithRawFallback,
    RawBlockSegments,
    /// The block was forwarded a moment ago, so nothing was sent.
    Deduplicated,
}

impl ForwardMode {
    pub open spec fn spec_as_str(self) -> &'static str {
        match self {
            ForwardMode::CompactBlock => "compact_block",
            ForwardMode::CompactBlockWithRawFallback => "compact_block_with_raw_fallback",
            ForwardMode::RawBlockSegments => "raw_block_segments",
            ForwardMode::Deduplicated => "deduplicated",
        }
    }

    /// The mode as a word.
    #[verifier::when_used_as_spec(spec_as_str)]
    pub fn as_str(self) -> (word: &'static str)
        ensures
            word == self.spec_as_str(),
    {
        match self {
            ForwardMode::CompactBlock => "compact_block",
            ForwardMode::CompactBlockWithRawFallback => "compact_block_with_raw_fallback",
            ForwardMode::RawBlockSegments => "raw_block_segments",
            ForwardMode::Deduplicated => "deduplicated",
        }
    }
}

/// What became of a block: how many transactions it has, how many bytes and objects
/// the relay took, and how. A skeleton that the relay took counts among the bytes. It is
/// an early copy of the compact block, so it does not count among the objects.
#[derive(Debug, Clone, Copy, PartialEq, Eq, Structural)]
pub struct ForwardedBlock {
    pub tx_count: usize,
    pub bytes: usize,
    pub relay_objects: usize,
    pub mode: ForwardMode,
}

/// How a raw block would be cut up.
#[derive(Debug, Clone, Copy, PartialEq, Eq, Structural)]
pub struct RawBlockSegmentPlan {
    pub segment_count: usize,
    pub object_bytes: usize,
    pub max_segment_frame_bytes: usize,
}

/// What the relay client is set up with.
#[derive(Debug, Clone, PartialEq, Eq)]
pub struct RelayClientSettings {
    pub peers: Vec<PeerAddr>,
    pub auth_key: Hash32,
    pub bind_addr: PeerAddr,
    pub data_shards: usize,
    pub parity_shards: usize,
    pub adaptive_fec: bool,
    pub send_burst_packets: usize,
    /// In nanoseconds.
    pub send_burst_delay: u128,
    pub auth_required: bool,
}

/// What the bridge has to know of a compact block.
#[derive(Debug, Clone, Copy, PartialEq, Eq)]
pub struct CompactSummary {
    /// How many transactions the block has.
    pub tx_count: usize,
    /// How many bytes the compact block has as the relay writes it.
    pub wire_bytes: usize,
    pub header_hash: Hash32,
    /// How many transactions are named by short id.
    pub short_ids: usize,
}

/// What the bridge has to know of a compact skeleton.
#[derive(Debug, Clone, Copy, PartialEq, Eq, Structural)]
pub struct SkeletonSummary {
    pub wire_bytes: usize,
    pub short_ids: usize,
}

impl SkeletonSummary {
    /// Whether the skeleton is worth an early copy: it names transactions that a receiver
    /// may hold, and it is small.
    pub open spec fn is_worth_sending(self) -> bool {
        self.short_ids > 0 && self.wire_bytes <= SKELETON_MAX_WIRE_BYTES
    }
}

/// `a * b`, but no more than the largest `usize`.
pub open spec fn saturating_product(a: usize, b: usize) -> usize {
    if a * b > usize::MAX {
        usize::MAX
    } else {
        (a * b) as usize
    }
}

/// The sum of the lengths.
pub open spec fn total_len(lens: Seq<usize>) -> nat
    decreases lens.len(),
{
    if lens.len() == 0 {
        0
    } else {
        total_len(lens.drop_last()) + lens.last() as nat
    }
}

/// What marks the message of a block that does not fit the relay's frames.
pub open spec fn too_large_mark() -> Seq<char> {
    "all-prefilled compact block too large"@
}

/// The message of a compact block that does not fit the relay's frames.
pub open spec fn too_large_text(
    serialized: nat,
    max_data: nat,
    data_shards: nat,
    parity_shards: nat,
    max_payload: nat,
) -> Seq<char> {
    "all-prefilled compact block too large for current relay frame budget: serialized_bytes="@
        + decimal(serialized) + " max_data_bytes="@ + decimal(max_data) + " data_shards="@ + decimal(
        data_shards,
    ) + " parity_shards="@ + decimal(parity_shards) + " max_payload="@ + decimal(max_payload)
        + "; production full-block relay needs compact reconstruction or segmented object framing"@
}

/// The error of a relay that has peers and no key.
pub open spec fn missing_auth_key() -> ErrorView {
    ErrorView::Config(
        "relay auth key required; unauthenticated mode removed (set SOVRIGHT_P2P_RELAY_AUTH_KEY_HEX)"@,
    )
}

/// What is added to the message where the block could have been cut up.
pub open spec fn plan_text(plan: RawBlockSegmentPlan) -> Seq<char> {
    "; segmented raw block plan: segments="@ + decimal(plan.segment_count as nat) + " object_bytes="@
        + decimal(plan.object_bytes as nat) + " max_segment_frame_bytes="@ + decimal(
        plan.max_segment_frame_bytes as nat,
    )
}

/// What is added to the message where it could not.
pub open spec fn no_plan_text(cause: Seq<char>) -> Seq<char> {
    "; segmented raw block plan unavailable: "@ + cause
}

/// The error with a word on how the block could have been cut up, where it is the error
/// of a block that is too large; any other error as it is.
pub open spec fn explained_error(
    error: ErrorView,
    plan: Result<RawBlockSegmentPlan, ErrorView>,
) -> ErrorView {
    if occurs_in(too_large_mark(), error.text()) {
        ErrorView::Relay(
            error.text() + match plan {
                Ok(plan) => plan_text(plan),
                Err(cause) => no_plan_text(cause.text()),
            },
        )
    } else {
        error
    }
}

/// Whether the error is that of a block that is too large.
pub(crate) fn is_marked_too_large(error: &IngressError) -> (marked: bool)
    ensures
        marked == occurs_in(too_large_mark(), error@.text()),
{
    let text = error.text();
    contains_text(text.as_str(), "all-prefilled compact block too large")
}

/// The error of the relay, with the message that it came with.
pub fn map_transport_error(text: String) -> (error: IngressError)
    ensures
        error@ == ErrorView::Relay(text@),
{
    IngressError::Relay(text)
}

fn multiply(a: usize, b: usize) -> (product: usize)
    ensures
        product == saturating_product(a, b),
{
    match a.checked_mul(b) {
        Some(product) => product,
        None => usize::MAX,
    }
}

/// The bridge into the relay: its settings, and the blocks that it forwarded a
/// moment ago.
#[derive(Debug)]
pub struct RelayBridge {
    pub data_shards: usize,
    pub parity_shards: usize,
    /// The largest payload of one relay packet, in bytes.
    pub max_payload_size: usize,
    pub compact_from_tx_cache: bool,
    /// Sends a skeleton ahead of the compact block, where the compact block is made
    /// with a transaction cache.
    pub skeleton_first: bool,
    pub raw_fallback_with_tx_cache: bool,
    pub raw_segment_send_rounds: usize,
    /// In nanoseconds.
    pub raw_segment_round_delay: u128,
    pub recent_forwarded: RecentForwardedHashes,
}

/// The mathematical value of a [`RelayBridge`].
pub struct BridgeView {
    pub data_shards: usize,
    pub parity_shards: usize,
    pub max_payload_size: usize,
    pub compact_from_tx_cache: bool,
    pub skeleton_first: bool,
    pub raw_fallback_with_tx_cache: bool,
    pub raw_segment_send_rounds: usize,
    pub raw_segment_round_delay: u128,
    pub recent: RecentView,
}

impl View for RelayBridge {
    type V = BridgeView;

    open spec fn view(&self) -> BridgeView {
        BridgeView {
            data_shards: self.data_shards,
            parity_shards: self.parity_shards,
            max_payload_size: self.max_payload_size,
            compact_from_tx_cache: self.compact_from_tx_cache,
            skeleton_first: self.skeleton_first,
            raw_fallback_with_tx_cache: self.raw_fallback_with_tx_cache,
            raw_segment_send_rounds: self.raw_segment_send_rounds,
            raw_segment_round_delay: self.raw_segment_round_delay,
            recent: self.recent_forwarded@,
        }
    }
}

impl BridgeView {
    /// The bridge that a configuration asks for, with nothing forwarded yet.
    pub open spec fn of(config: Config, max_payload_size: usize) -> BridgeView {
        BridgeView {
            data_shards: config.relay_data_shards,
            parity_shards: config.relay_parity_shards,
            max_payload_size,
            compact_from_tx_cache: config.relay_compact_from_tx_cache,
            skeleton_first: config.relay_skeleton_first,
            raw_fallback_with_tx_cache: config.relay_raw_fallback_with_tx_cache,
            raw_segment_send_rounds: config.relay_raw_segment_send_rounds,
            raw_segment_round_delay: (config.relay_raw_segment_round_delay_millis
                * 1_000_000) as u128,
            recent: RecentView {
                capacity: config.relay_forward_dedup_capacity as nat,
                window: config.relay_forward_dedup_window as nat,
                entries: seq![],
            },
        }
    }

    /// How many bytes of data fit into the data shards of one object.
    pub open spec fn max_data_bytes(self) -> usize {
        saturating_product(self.data_shards, self.max_payload_size)
    }

    /// How many bytes a frame of a raw segment may have.
    pub open spec fn frame_budget(self) -> usize {
        if self.max_data_bytes() < RELAY_LEN_PREFIX_BYTES {
            0
        } else {
            (self.max_data_bytes() - RELAY_LEN_PREFIX_BYTES) as usize
        }
    }

    /// Whether a compact block of so many bytes can be sent: it has to fit the relay's
    /// frames, and the chunker has to take it.
    pub open spec fn preflight(
        self,
        serialized: usize,
        chunked: Result<(), Seq<char>>,
    ) -> Result<(), ErrorView> {
        if serialized > self.max_data_bytes() {
            Err(self.too_large(serialized))
        } else {
            match chunked {
                Ok(()) => Ok(()),
                Err(text) => Err(ErrorView::Relay(text)),
            }
        }
    }

    /// How a raw block of so many bytes is cut up, given what came of cutting it.
    pub open spec fn planned(
        self,
        block_len: usize,
        split: Result<usize, Seq<char>>,
    ) -> Result<RawBlockSegmentPlan, ErrorView> {
        match split {
            Ok(segment_count) => Ok(
                RawBlockSegmentPlan {
                    segment_count,
                    object_bytes: block_len,
                    max_segment_frame_bytes: self.frame_budget(),
                },
            ),
            Err(text) => Err(ErrorView::Relay(text)),
        }
    }

    /// The error of a compact block that is too large.
    pub open spec fn too_large(self, serialized: usize) -> ErrorView {
        ErrorView::Relay(
            too_large_text(
                serialized as nat,
                self.max_data_bytes() as nat,
                self.data_shards as nat,
                self.parity_shards as nat,
                self.max_payload_size as nat,
            ),
        )
    }
}

impl RelayBridge {
    /// The bridge that the configuration asks for.
    fn build(config: &Config, max_payload_size: usize) -> (bridge: RelayBridge)
        ensures
            bridge@ == BridgeView::of(*config, max_payload_size),
    {
        RelayBridge {
            data_shards: config.relay_data_shards,
            parity_shards: config.relay_parity_shards,
            max_payload_size,
            compact_from_tx_cache: config.relay_compact_from_tx_cache,
            skeleton_first: config.relay_skeleton_first,
            raw_fallback_with_tx_cache: config.relay_raw_fallback_with_tx_cache,
            raw_segment_send_rounds: config.relay_raw_segment_send_rounds,
            raw_segment_round_delay: config.relay_raw_segment_round_delay_millis as u128
                * 1_000_000,
            recent_forwarded: RecentForwardedHashes::new(
                config.relay_forward_dedup_capacity,
                config.relay_forward_dedup_window,
            ),
        }
    }

    /// The bridge that the configuration asks for: none where it names no relay peers.
    /// Peers without a key are an error, never a bridge that is silently off.
    pub fn from_config(config: &Config, max_payload_size: usize) -> (result: Result<
        Option<RelayBridge>,
        IngressError,
    >)
        ensures
            match result {
                Ok(None) => config.relay_peers@.len() == 0,
                Ok(Some(bridge)) => {
                    &&& config.relay_peers@.len() > 0
                    &&& config.relay_auth_key is Some
                    &&& bridge@ == BridgeView::of(*config, max_payload_size)
                },
                Err(error) => {
                    &&& config.relay_peers@.len() > 0
                    &&& config.relay_auth_key is None
                    &&& error@ == missing_auth_key()
                },
            },
    {
        if config.relay_peers.len() == 0 {
            return Ok(None);
        }
        if config.relay_auth_key.is_none() {
            return Err(
                IngressError::Config(
                    "relay auth key required; unauthenticated mode removed (set SOVRIGHT_P2P_RELAY_AUTH_KEY_HEX)".to_owned(),
                ),
            );
        }
        Ok(Some(Self::build(config, max_payload_size)))
    }

    /// The bridge that the configuration asks for, whether or not it names relay peers.
    pub fn new_for_config(config: &Config, max_payload_size: usize) -> (result: Result<
        RelayBridge,
        IngressError,
    >)
        ensures
            match result {
                Ok(bridge) => config.relay_auth_key is Some && bridge@ == BridgeView::of(
                    *config,
                    max_payload_size,
                ),
                Err(error) => config.relay_auth_key is None && error@ == ErrorView::Relay(
                    "missing relay auth key"@,
                ),
            },
    {
        if config.relay_auth_key.is_none() {
            return Err(IngressError::Relay("missing relay auth key".to_owned()));
        }
        Ok(Self::build(config, max_payload_size))
    }

    /// What the relay client is set up with. Authentication is always required.
    pub fn new_client_for_config(config: &Config, auth_key: Hash32) -> (settings:
        RelayClientSettings)
        ensures
            settings.peers@ == config.relay_peers@,
            settings.auth_key == auth_key,
            settings.bind_addr == config.relay_bind_addr,
            settings.data_shards == config.relay_data_shards,
            settings.parity_shards == config.relay_parity_shards,
            settings.adaptive_fec == config.relay_adaptive_fec,
            settings.send_burst_packets == config.relay_send_burst_packets,
            settings.send_burst_delay == config.relay_send_burst_delay_micros * 1_000,
            settings.auth_required,
    {
        let mut peers: Vec<PeerAddr> = Vec::new();
        let mut i: usize = 0;
        while i < config.relay_peers.len()
            invariant
                i <= config.relay_peers.len(),
                peers@ == config.relay_peers@.take(i as int),
            decreases config.relay_peers.len() - i,
        {
            peers.push(config.relay_peers[i]);
            i = i + 1;
        }
        RelayClientSettings {
            peers,
            auth_key,
            bind_addr: config.relay_bind_addr,
            data_shards: config.relay_data_shards,
            parity_shards: config.relay_parity_shards,
            adaptive_fec: config.relay_adaptive_fec,
            send_burst_packets: config.relay_send_burst_packets,
            send_burst_delay: config.relay_send_burst_delay_micros as u128 * 1_000,
            auth_required: true,
        }
    }

    /// Whether a compact block of so many bytes fits the relay's frames.
    fn check_size(&self, serialized_len: usize) -> (result: Result<(), IngressError>)
        ensures
            match result {
                Ok(()) => serialized_len <= self@.max_data_bytes(),
                Err(error) => serialized_len > self@.max_data_bytes() && error@ == self@.too_large(
                    serialized_len,
                ),
            },
    {
        if !self.is_too_large(serialized_len) {
            return Ok(());
        }
        let max_data_bytes = multiply(self.data_shards, self.max_payload_size);
        let mut text: String =
            "all-prefilled compact block too large for current relay frame budget: serialized_bytes=".to_owned();
        push_decimal(&mut text, serialized_len as u64);
        text.append(" max_data_bytes=");
        push_decimal(&mut text, max_data_bytes as u64);
        text.append(" data_shards=");
        push_decimal(&mut text, self.data_shards as u64);
        text.append(" parity_shards=");
        push_decimal(&mut text, self.parity_shards as u64);
        text.append(" max_payload=");
        push_decimal(&mut text, self.max_payload_size as u64);
        text.append(
            "; production full-block relay needs compact reconstruction or segmented object framing",
        );
        Err(IngressError::Relay(text))
    }

    /// Whether a compact block of so many bytes can be sent: it has to fit the relay's
    /// frames, and the relay's chunker, whose verdict is `chunked`, has to take it.
    pub fn preflight_chunks(&self, serialized_len: usize, chunked: Result<(), String>) -> (result:
        Result<(), IngressError>)
        ensures
            ({
                let verdict = self@.preflight(
                    serialized_len,
                    match chunked {
                        Ok(()) => Ok(()),
                        Err(text) => Err(text@),
                    },
                );
                match result {
                    Ok(()) => verdict is Ok,
                    Err(error) => verdict == Err::<(), ErrorView>(error@),
                }
            }),
    {
        match self.check_size(serialized_len) {
            Ok(()) => match chunked {
                Ok(()) => Ok(()),
                Err(text) => Err(map_transport_error(text)),
            },
            Err(error) => Err(error),
        }
    }

    /// Whether a compact block of so many bytes is too large for the relay's frames.
    pub(crate) fn is_too_large(&self, serialized_len: usize) -> (too_large: bool)
        ensures
            too_large == (serialized_len > self@.max_data_bytes()),
    {
        serialized_len > multiply(self.data_shards, self.max_payload_size)
    }

    /// How many bytes a frame of a raw segment may have.
    pub fn raw_segment_frame_budget(&self) -> (budget: usize)
        ensures
            budget == self@.frame_budget(),
    {
        multiply(self.data_shards, self.max_payload_size).saturating_sub(RELAY_LEN_PREFIX_BYTES)
    }

    /// How a raw block of so many bytes is cut up. `split` is what came of cutting it
    /// with frames of [`RelayBridge::raw_segment_frame_budget`] bytes.
    pub fn plan_raw_block_segments(&self, block_len: usize, split: Result<usize, String>) -> (result:
        Result<RawBlockSegmentPlan, IngressError>)
        ensures
            ({
                let planned = self@.planned(
                    block_len,
                    match split {
                        Ok(segment_count) => Ok(segment_count),
                        Err(text) => Err(text@),
                    },
                );
                match result {
                    Ok(plan) => planned == Ok::<RawBlockSegmentPlan, ErrorView>(plan),
                    Err(error) => planned == Err::<RawBlockSegmentPlan, ErrorView>(error@),
                }
            }),
    {
        match split {
            Ok(segment_count) => Ok(
                RawBlockSegmentPlan {
                    segment_count,
                    object_bytes: block_len,
                    max_segment_frame_bytes: self.raw_segment_frame_budget(),
                },
            ),
            Err(text) => Err(map_transport_error(text)),
        }
    }

    /// The error with a word on how the block could have been cut up, where it is the
    /// error of a block that is too large; any other error as it is.
    pub fn with_segment_plan(
        error: IngressError,
        plan: Result<RawBlockSegmentPlan, IngressError>,
    ) -> (explained: IngressError)
        ensures
            explained@ == explained_error(
                error@,
                match plan {
                    Ok(plan) => Ok(plan),
                    Err(cause) => Err(cause@),
                },
            ),
            !occurs_in(too_large_mark(), error@.text()) ==> explained == error,
    {
        if !is_marked_too_large(&error) {
            return error;
        }
        let mut text = error.text();
        match plan {
            Ok(plan) => {
                text.append("; segmented raw block plan: segments=");
                push_decimal(&mut text, plan.segment_count as u64);
                text.append(" object_bytes=");
                push_decimal(&mut text, plan.object_bytes as u64);
                text.append(" max_segment_frame_bytes=");
                push_decimal(&mut text, plan.max_segment_frame_bytes as u64);
                assert(text@ =~= error@.text() + plan_text(plan));
            },
            Err(cause) => {
                text.append("; segmented raw block plan unavailable: ");
                text.append(cause.text().as_str());
                assert(text@ =~= error@.text() + no_plan_text(cause@.text()));
            },
        }
        IngressError::Relay(text)
    }

    /// How many bytes go into the relay for segments of these lengths, with every
    /// round counted.
    pub fn raw_segments_wire_bytes(&self, segment_lens: &Vec<usize>) -> (bytes: usize)
        requires
            total_len(segment_lens@) <= usize::MAX,
            total_len(segment_lens@) * self.raw_segment_send_rounds <= usize::MAX,
        ensures
            bytes == total_len(segment_lens@) * self.raw_segment_send_rounds,
    {
        let mut sum: usize = 0;
        let mut i: usize = 0;
        assert(segment_lens@.take(0) =~= seq![]);
        while i < segment_lens.len()
            invariant
                i <= segment_lens.len(),
                sum == total_len(segment_lens@.take(i as int)),
                total_len(segment_lens@) <= usize::MAX,
            decreases segment_lens.len() - i,
        {
            proof {
                assert(segment_lens@.take(i + 1).drop_last() =~= segment_lens@.take(i as int));
                lemma_total_monotonic(segment_lens@, i + 1);
            }
            sum = sum + segment_lens[i];
            i = i + 1;
        }
        assert(segment_lens@.take(i as int) =~= segment_lens@);
        sum * self.raw_segment_send_rounds
    }

    /// Remembers a block that was forwarded.
    pub fn record_forwarded(&mut self, header_hash: Hash32, now: u128)
        ensures
            final(self)@ == (BridgeView {
                recent: old(self)@.recent.recorded(header_hash, now),
                ..old(self)@
            }),
    {
        self.recent_forwarded.record(header_hash, now);
    }
}

proof fn lemma_total_monotonic(lens: Seq<usize>, n: int)
    requires
        0 <= n <= lens.len(),
    ensures
        total_len(lens.take(n)) <= total_len(lens),
    decreases lens.len() - n,
{
    if n == lens.len() {
        assert(lens.take(n) =~= lens);
    } else {
        lemma_total_monotonic(lens, n + 1);
        assert(lens.take(n + 1).drop_last() =~= lens.take(n));
    }
}

/// The message of a block that is too large carries the mark by which it is told apart.
pub proof fn law_too_large_is_marked(bridge: BridgeView, serialized: usize)
    ensures
        occurs_in(too_large_mark(), bridge.too_large(serialized).text()),
{
    reveal_strlit("all-prefilled compact block too large");
    reveal_strlit(
        "all-prefilled compact block too large for current relay frame budget: serialized_bytes=",
    );
    let text = bridge.too_large(serialized).text();
    let mark = too_large_mark();
    assert(text.subrange(0, 0int + mark.len()) =~= mark);
}

/// Each setting of a bridge is the one of that name; the pause between two rounds is given
/// in milliseconds and kept in nanoseconds. Nothing is remembered at the start.
pub proof fn law_bridge_follows_the_settings(config: Config, max_payload_size: usize)
    ensures
        ({
            let bridge = BridgeView::of(config, max_payload_size);
            &&& bridge.data_shards == config.relay_data_shards
            &&& bridge.parity_shards == config.relay_parity_shards
            &&& bridge.max_payload_size == max_payload_size
            &&& bridge.compact_from_tx_cache == config.relay_compact_from_tx_cache
            &&& bridge.skeleton_first == config.relay_skeleton_first
            &&& bridge.raw_fallback_with_tx_cache == config.relay_raw_fallback_with_tx_cache
            &&& bridge.raw_segment_send_rounds == config.relay_raw_segment_send_rounds
            &&& bridge.raw_segment_round_delay == config.relay_raw_segment_round_delay_millis
                * 1_000_000
            &&& bridge.recent.capacity == config.relay_forward_dedup_capacity
            &&& bridge.recent.window == config.relay_forward_dedup_window
            &&& bridge.recent.entries.len() == 0
        }),
{
}

/// A frame of a raw segment may have as many bytes as fit into the data shards, but for
/// four that the relay takes for the length.
pub proof fn law_frame_budget(bridge: BridgeView)
    ensures
        ({
            let product = bridge.data_shards * bridge.max_payload_size;
            &&& product <= usize::MAX ==> bridge.max_data_bytes() == product
            &&& product > usize::MAX ==> bridge.max_data_bytes() == usize::MAX
            &&& 4 <= product <= usize::MAX ==> bridge.frame_budget() == product - 4
            &&& product < 4 ==> bridge.frame_budget() == 0
            &&& product > usize::MAX ==> bridge.frame_budget() == usize::MAX - 4
        }),
{
}

/// A compact block passes the preflight exactly where it has no more bytes than fit into
/// the data shards and the chunker takes it; where it fits and the chunker refuses it, the
/// error has the chunker's words.
pub proof fn law_preflight(bridge: BridgeView, serialized: usize, text: Seq<char>)
    ensures
        ({
            let fits = serialized <= bridge.data_shards * bridge.max_payload_size;
            &&& bridge.preflight(serialized, Ok(())) is Ok <==> fits
            &&& bridge.preflight(serialized, Err(text)) is Err
            &&& fits ==> bridge.preflight(serialized, Err(text)) == Err::<(), ErrorView>(
                ErrorView::Relay(text),
            )
            &&& !fits ==> bridge.preflight(serialized, Ok(())) == bridge.preflight(
                serialized,
                Err(text),
            )
            &&& !fits ==> (bridge.preflight(serialized, Ok(()))->Err_0) is Relay
        }),
{
}

/// A plan says how many segments the block was cut into, how many bytes it has and how many
/// a frame may have; a block that cannot be cut up has the cutter's words.
pub proof fn law_plan(bridge: BridgeView, block_len: usize, count: usize, text: Seq<char>)
    ensures
        bridge.planned(block_len, Ok(count)) matches Ok(plan) && plan.segment_count == count
            && plan.object_bytes == block_len && plan.max_segment_frame_bytes
            == bridge.frame_budget(),
        bridge.planned(block_len, Err(text)) == Err::<RawBlockSegmentPlan, ErrorView>(
            ErrorView::Relay(text),
        ),
{
}

/// The sum of lengths is nothing for none, the length for one, and what the parts come to
/// for a list in parts.
pub proof fn law_lengths_add_up(a: Seq<usize>, b: Seq<usize>, len: usize)
    ensures
        total_len(Seq::<usize>::empty()) == 0,
        total_len(seq![len]) == len,
        total_len(a + b) == total_len(a) + total_len(b),
    decreases b.len(),
{
    assert(seq![len].drop_last() =~= Seq::<usize>::empty());
    assert(total_len(seq![len].drop_last()) == 0);
    if b.len() == 0 {
        assert(a + b =~= a);
    } else {
        law_lengths_add_up(a, b.drop_last(), len);
        assert((a + b).drop_last() =~= a + b.drop_last());
    }
}

/// A text stands inside every text that it is a part of.
proof fn lemma_part_occurs(head: Seq<char>, part: Seq<char>, tail: Seq<char>)
    ensures
        occurs_in(part, head + part + tail),
{
    let whole = head + part + tail;
    let at = head.len() as int;
    assert(whole.subrange(at, at + part.len()) =~= part);
}

/// The message of a block that is too large names how many bytes it has and how many would
/// fit, with the settings that this comes from.
pub proof fn law_too_large_names_the_numbers(bridge: BridgeView, serialized: usize)
    ensures
        ({
            let text = bridge.too_large(serialized).text();
            &&& bridge.too_large(serialized) is Relay
            &&& occurs_in(decimal(serialized as nat), text)
            &&& occurs_in(" max_data_bytes="@ + decimal(bridge.max_data_bytes() as nat), text)
            &&& occurs_in(" data_shards="@ + decimal(bridge.data_shards as nat), text)
            &&& occurs_in(" parity_shards="@ + decimal(bridge.parity_shards as nat), text)
            &&& occurs_in(" max_payload="@ + decimal(bridge.max_payload_size as nat), text)
        }),
{
    let text = bridge.too_large(serialized).text();
    let a =
        "all-prefilled compact block too large for current relay frame budget: serialized_bytes="@;
    let b = decimal(serialized as nat);
    let c = " max_data_bytes="@ + decimal(bridge.max_data_bytes() as nat);
    let d = " data_shards="@ + decimal(bridge.data_shards as nat);
    let e = " parity_shards="@ + decimal(bridge.parity_shards as nat);
    let f = " max_payload="@ + decimal(bridge.max_payload_size as nat);
    let g =
        "; production full-block relay needs compact reconstruction or segmented object framing"@;
    assert(text =~= a + b + (c + d + e + f + g));
    assert(text =~= (a + b) + c + (d + e + f + g));
    assert(text =~= (a + b + c) + d + (e + f + g));
    assert(text =~= (a + b + c + d) + e + (f + g));
    assert(text =~= (a + b + c + d + e) + f + g);
    lemma_part_occurs(a, b, c + d + e + f + g);
    lemma_part_occurs(a + b, c, d + e + f + g);
    lemma_part_occurs(a + b + c, d, e + f + g);
    lemma_part_occurs(a + b + c + d, e, f + g);
    lemma_part_occurs(a + b + c + d + e, f, g);
}

/// An error that is not of a block that is too large stays as it is. One that is keeps its
/// words and says after them what the plan is, or why there is none.
pub proof fn law_explanation_follows_the_error(
    error: ErrorView,
    plan: RawBlockSegmentPlan,
    cause: ErrorView,
)
    ensures
        ({
            let planned = explained_error(error, Ok(plan));
            let unplanned = explained_error(error, Err(cause));
            if occurs_in("all-prefilled compact block too large"@, error.text()) {
                &&& planned is Relay && unplanned is Relay
                &&& error.text().is_prefix_of(planned.text())
                &&& error.text().is_prefix_of(unplanned.text())
                &&& occurs_in(" object_bytes="@ + decimal(plan.object_bytes as nat), planned.text())
                &&& occurs_in("segments="@ + decimal(plan.segment_count as nat), planned.text())
                &&& occurs_in(
                    " max_segment_frame_bytes="@ + decimal(plan.max_segment_frame_bytes as nat),
                    planned.text(),
                )
                &&& occurs_in(cause.text(), unplanned.text())
            } else {
                planned == error && unplanned == error
            }
        }),
{
    let planned = explained_error(error, Ok(plan)).text();
    let unplanned = explained_error(error, Err(cause)).text();
    if occurs_in(too_large_mark(), error.text()) {
        reveal_strlit("; segmented raw block plan: segments=");
        reveal_strlit("segments=");
        let lead = "; segmented raw block plan: "@;
        reveal_strlit("; segmented raw block plan: ");
        assert("; segmented raw block plan: segments="@ =~= lead + "segments="@);
        let a = "segments="@ + decimal(plan.segment_count as nat);
        let b = " object_bytes="@ + decimal(plan.object_bytes as nat);
        let c = " max_segment_frame_bytes="@ + decimal(plan.max_segment_frame_bytes as nat);
        assert(planned =~= (error.text() + lead) + a + (b + c));
        assert(planned =~= (error.text() + lead + a) + b + c);
        assert(planned =~= (error.text() + lead + a + b) + c + seq![]);
        lemma_part_occurs(error.text() + lead, a, b + c);
        lemma_part_occurs(error.text() + lead + a, b, c);
        lemma_part_occurs(error.text() + lead + a + b, c, seq![]);
        let why = error.text() + "; segmented raw block plan unavailable: "@;
        assert(unplanned =~= why + cause.text() + seq![]);
        lemma_part_occurs(why, cause.text(), seq![]);
    }
}

/// The words for the modes, by which reports tell them apart.
pub proof fn law_modes_have_words()
    ensures
        ForwardMode::CompactBlock.as_str()@ == "compact_block"@,
        ForwardMode::CompactBlockWithRawFallback.as_str()@ == "compact_block_with_raw_fallback"@,
        ForwardMode::RawBlockSegments.as_str()@ == "raw_block_segments"@,
        ForwardMode::Deduplicated.as_str()@ == "deduplicated"@,
{
}

} // verus!
