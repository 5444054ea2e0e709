use sovright_p2p_ingress::addr::PeerAddr;
use sovright_p2p_ingress::config::Config;
use sovright_p2p_ingress::error::IngressError;
use sovright_p2p_ingress::forward::{ForwardAction, ForwardEvent, ForwardPhase};
use sovright_p2p_ingress::recent::RecentForwardedHashes;
use sovright_p2p_ingress::relay_bridge::{
    map_transport_error, CompactSummary, ForwardMode, ForwardedBlock, RawBlockSegmentPlan,
    RelayBridge, SkeletonSummary, SKELETON_MAX_WIRE_BYTES,
};

const SECOND: u128 = 1_000_000_000;
const T0: u128 = 100 * SECOND;
const MAX_PAYLOAD: usize = 1_200;

fn bridge_with_default_fec() -> RelayBridge {
    RelayBridge {
        data_shards: 10,
        parity_shards: 3,
        max_payload_size: MAX_PAYLOAD,
        compact_from_tx_cache: false,
        skeleton_first: false,
        raw_fallback_with_tx_cache: false,
        raw_segment_send_rounds: 1,
        raw_segment_round_delay: 0,
        recent_forwarded: RecentForwardedHashes::new(64, 30 * SECOND),
    }
}

/// What stands around the bridge while one block is forwarded.
struct Surroundings {
    has_tx_cache: bool,
    compact: Result<CompactSummary, IngressError>,
    chunked: Result<(), String>,
    skeleton: Option<SkeletonSummary>,
    split: Result<Vec<usize>, String>,
    /// The number of the send that fails.
    failing_send: Option<usize>,
}

#[derive(Debug, PartialEq, Eq)]
enum Done {
    Build(bool),
    Skeleton,
    Compact,
    Cut(usize),
    Segment(usize),
    Pause(u128),
}

fn compact(wire_bytes: usize, short_ids: usize) -> CompactSummary {
    CompactSummary {
        tx_count: 2,
        wire_bytes,
        header_hash: [0x42; 32],
        short_ids,
    }
}

fn around(summary: CompactSummary) -> Surroundings {
    Surroundings {
        has_tx_cache: true,
        compact: Ok(summary),
        chunked: Ok(()),
        skeleton: None,
        split: Ok(vec![100, 100, 50]),
        failing_send: None,
    }
}

/// Runs the bridge to the end and says what it did.
fn forward(
    bridge: &mut RelayBridge,
    around: &Surroundings,
    now: u128,
) -> (Result<ForwardedBlock, IngressError>, Vec<Done>) {
    let mut done = Vec::new();
    let mut sends = 0;
    let mut phase = ForwardPhase::Waiting;
    let mut event = ForwardEvent::Start;
    loop {
        let (next, action) = bridge.forward_block(phase, around.has_tx_cache, event, now);
        phase = next;
        let mut send = |what: Done| {
            done.push(what);
            sends += 1;
            ForwardEvent::Sent(if around.failing_send == Some(sends) {
                Err("socket closed".to_string())
            } else {
                Ok(())
            })
        };
        event = match action {
            ForwardAction::SendSkeleton => send(Done::Skeleton),
            ForwardAction::SendCompact => send(Done::Compact),
            ForwardAction::SendSegment(i) => send(Done::Segment(i)),
            ForwardAction::BuildCompact { with_tx_cache } => {
                done.push(Done::Build(with_tx_cache));
                ForwardEvent::CompactBuilt(around.compact.clone())
            }
            ForwardAction::Chunk => ForwardEvent::Chunked(around.chunked.clone()),
            ForwardAction::BuildSkeleton => ForwardEvent::SkeletonBuilt(around.skeleton),
            ForwardAction::Split { max_segment_frame_bytes } => {
                done.push(Done::Cut(max_segment_frame_bytes));
                ForwardEvent::Split(around.split.clone())
            }
            ForwardAction::Pause(delay) => {
                done.push(Done::Pause(delay));
                ForwardEvent::PauseOver
            }
            ForwardAction::Finish(result) => return (result, done),
        };
    }
}

#[test]
fn forwarded_bytes_report_wire_bytes_per_mode() {
    let mut bridge = bridge_with_default_fec();
    bridge.compact_from_tx_cache = true;
    let block = around(compact(1_700, 2));

    let (forwarded, _) = forward(&mut bridge, &block, T0);
    let forwarded = forwarded.unwrap();
    assert_eq!(forwarded.mode, ForwardMode::CompactBlock);
    assert_eq!(forwarded.bytes, 1_700);

    // Dedup suppresses the send entirely: nothing goes on the wire.
    let (forwarded, done) = forward(&mut bridge, &block, T0);
    let forwarded = forwarded.unwrap();
    assert_eq!(forwarded.mode, ForwardMode::Deduplicated);
    assert_eq!(forwarded.bytes, 0);
    assert_eq!(forwarded.relay_objects, 0);
    assert_eq!(done, vec![Done::Build(true)]);
}

#[test]
fn forwarded_bytes_count_raw_fallback_segments_and_rounds() {
    let mut bridge = bridge_with_default_fec();
    bridge.compact_from_tx_cache = true;
    bridge.raw_fallback_with_tx_cache = true;
    bridge.raw_segment_send_rounds = 2;

    let (forwarded, _) = forward(&mut bridge, &around(compact(1_700, 2)), T0);

    let forwarded = forwarded.unwrap();
    assert_eq!(forwarded.mode, ForwardMode::CompactBlockWithRawFallback);
    assert_eq!(forwarded.bytes, 1_700 + 250 * 2);
    assert_eq!(forwarded.relay_objects, 7);
    assert_eq!(forwarded.tx_count, 2);
}

#[test]
fn preflight_reports_all_prefilled_frame_budget_for_large_blocks() {
    let err = bridge_with_default_fec()
        .preflight_chunks(21_500, Ok(()))
        .unwrap_err();

    assert!(
        err.text().contains("all-prefilled compact block too large"),
        "{err:?}"
    );
    assert!(err.text().contains("data_shards=10"), "{err:?}");
    assert_eq!(
        err,
        IngressError::Relay(
            "all-prefilled compact block too large for current relay frame budget: \
             serialized_bytes=21500 max_data_bytes=12000 data_shards=10 parity_shards=3 \
             max_payload=1200; production full-block relay needs compact reconstruction or \
             segmented object framing"
                .to_string()
        )
    );
}

#[test]
fn preflight_asks_the_chunker_about_what_fits() {
    let bridge = bridge_with_default_fec();
    assert_eq!(bridge.preflight_chunks(12_000, Ok(())), Ok(()));
    assert_eq!(
        bridge.preflight_chunks(12_000, Err("no codec".to_string())),
        Err(IngressError::Relay("no codec".to_string()))
    );
}

#[test]
fn raw_block_segment_plan_uses_current_fec_budget() {
    let bridge = bridge_with_default_fec();
    assert_eq!(bridge.raw_segment_frame_budget(), 10 * MAX_PAYLOAD - 4);

    let plan = bridge.plan_raw_block_segments(25_000, Ok(3)).unwrap();

    assert_eq!(plan.object_bytes, 25_000);
    assert!(plan.segment_count > 1);
    assert_eq!(plan.max_segment_frame_bytes, 10 * MAX_PAYLOAD - 4);
    assert_eq!(
        bridge.plan_raw_block_segments(25_000, Err("empty".to_string())),
        Err(IngressError::Relay("empty".to_string()))
    );
}

#[test]
fn the_frame_budget_stays_in_range() {
    let mut bridge = bridge_with_default_fec();
    bridge.data_shards = 0;
    assert_eq!(bridge.raw_segment_frame_budget(), 0);
    bridge.data_shards = usize::MAX;
    assert_eq!(bridge.raw_segment_frame_budget(), usize::MAX - 4);
}

#[test]
fn an_error_of_size_is_explained_by_a_plan() {
    let plan = RawBlockSegmentPlan {
        segment_count: 3,
        object_bytes: 25_000,
        max_segment_frame_bytes: 11_996,
    };
    let too_large = IngressError::Relay("all-prefilled compact block too large".to_string());
    assert_eq!(
        RelayBridge::with_segment_plan(too_large.clone(), Ok(plan)),
        IngressError::Relay(
            "all-prefilled compact block too large; segmented raw block plan: segments=3 \
             object_bytes=25000 max_segment_frame_bytes=11996"
                .to_string()
        )
    );
    assert_eq!(
        RelayBridge::with_segment_plan(too_large, Err(IngressError::Relay("empty".to_string()))),
        IngressError::Relay(
            "all-prefilled compact block too large; segmented raw block plan unavailable: empty"
                .to_string()
        )
    );
    let other = IngressError::Wire("x".to_string());
    assert_eq!(RelayBridge::with_segment_plan(other.clone(), Ok(plan)), other);
}

#[test]
fn forwards_raw_block_segments_when_compact_exceeds_current_fec_budget() {
    let mut bridge = bridge_with_default_fec();

    let (forwarded, done) = forward(&mut bridge, &around(compact(21_500, 0)), T0);

    let forwarded = forwarded.unwrap();
    assert_eq!(forwarded.mode, ForwardMode::RawBlockSegments);
    assert!(forwarded.relay_objects > 1);
    assert_eq!(forwarded.bytes, 250);
    assert_eq!(
        done,
        vec![
            Done::Build(false),
            Done::Cut(11_996),
            Done::Segment(0),
            Done::Segment(1),
            Done::Segment(2),
        ]
    );
}

#[test]
fn configured_raw_segment_send_rounds_retransmit_each_segment() {
    let mut bridge = bridge_with_default_fec();
    bridge.raw_segment_send_rounds = 3;

    let (forwarded, done) = forward(&mut bridge, &around(compact(21_500, 0)), T0);

    let forwarded = forwarded.unwrap();
    assert_eq!(forwarded.mode, ForwardMode::RawBlockSegments);
    assert_eq!(forwarded.relay_objects % 3, 0);
    let segments_per_round = forwarded.relay_objects / 3;
    assert!(segments_per_round > 1);
    assert_eq!(forwarded.bytes, 750);
    let sent: Vec<&Done> = done[2..].iter().collect();
    assert_eq!(sent.len(), forwarded.relay_objects);
    for round in sent.chunks_exact(segments_per_round) {
        assert_eq!(
            round,
            [&Done::Segment(0), &Done::Segment(1), &Done::Segment(2)]
        );
    }
}

#[test]
fn rounds_are_parted_by_a_pause() {
    let mut bridge = bridge_with_default_fec();
    bridge.raw_segment_send_rounds = 2;
    bridge.raw_segment_round_delay = 25_000_000;

    let (forwarded, done) = forward(&mut bridge, &around(compact(21_500, 0)), T0);

    assert_eq!(forwarded.unwrap().relay_objects, 6);
    assert_eq!(
        done[2..],
        [
            Done::Segment(0),
            Done::Segment(1),
            Done::Segment(2),
            Done::Pause(25_000_000),
            Done::Segment(0),
            Done::Segment(1),
            Done::Segment(2),
        ]
    );
}

#[test]
fn no_rounds_and_no_segments_send_nothing() {
    let mut bridge = bridge_with_default_fec();
    bridge.raw_segment_send_rounds = 0;
    let (forwarded, done) = forward(&mut bridge, &around(compact(21_500, 0)), T0);
    let forwarded = forwarded.unwrap();
    assert_eq!((forwarded.bytes, forwarded.relay_objects), (0, 0));
    assert_eq!(done.len(), 2);

    let mut bridge = bridge_with_default_fec();
    bridge.raw_segment_send_rounds = 3;
    bridge.raw_segment_round_delay = 7;
    let mut block = around(compact(21_500, 0));
    block.split = Ok(Vec::new());
    let (forwarded, done) = forward(&mut bridge, &block, T0);
    assert_eq!(forwarded.unwrap().relay_objects, 0);
    assert_eq!(done[2..], [Done::Pause(7), Done::Pause(7)]);
}

#[test]
fn tx_cache_compact_forwarding_can_send_raw_fallback_segments() {
    let mut bridge = bridge_with_default_fec();
    bridge.compact_from_tx_cache = true;
    bridge.raw_fallback_with_tx_cache = true;

    let (forwarded, done) = forward(&mut bridge, &around(compact(1_600, 1)), T0);

    let forwarded = forwarded.unwrap();
    assert_eq!(forwarded.mode, ForwardMode::CompactBlockWithRawFallback);
    assert!(forwarded.relay_objects > 1);
    assert_eq!(
        done,
        vec![
            Done::Build(true),
            Done::Compact,
            Done::Cut(11_996),
            Done::Segment(0),
            Done::Segment(1),
            Done::Segment(2),
        ]
    );
}

#[test]
fn the_raw_fallback_needs_short_ids_and_compaction() {
    let mut bridge = bridge_with_default_fec();
    bridge.raw_fallback_with_tx_cache = true;
    bridge.compact_from_tx_cache = true;
    let (forwarded, _) = forward(&mut bridge, &around(compact(1_600, 0)), T0);
    assert_eq!(forwarded.unwrap().mode, ForwardMode::CompactBlock);

    let mut bridge = bridge_with_default_fec();
    bridge.raw_fallback_with_tx_cache = true;
    let (forwarded, _) = forward(&mut bridge, &around(compact(1_600, 1)), T0);
    assert_eq!(forwarded.unwrap().mode, ForwardMode::CompactBlock);
}

#[test]
fn forward_block_flag_off_emits_no_skeleton() {
    let mut bridge = bridge_with_default_fec();
    bridge.compact_from_tx_cache = true;
    let mut block = around(compact(1_600, 1));
    block.skeleton = Some(SkeletonSummary { wire_bytes: 1_600, short_ids: 1 });

    let (forwarded, done) = forward(&mut bridge, &block, T0);

    assert_eq!(forwarded.unwrap().mode, ForwardMode::CompactBlock);
    assert_eq!(done, vec![Done::Build(true), Done::Compact]);
}

#[test]
fn forward_block_skeleton_first_sends_skeleton_then_compact() {
    let mut bridge = bridge_with_default_fec();
    bridge.compact_from_tx_cache = true;
    bridge.skeleton_first = true;
    let mut block = around(compact(1_600, 1));
    block.skeleton = Some(SkeletonSummary { wire_bytes: 1_600, short_ids: 1 });

    let (forwarded, done) = forward(&mut bridge, &block, T0);

    assert_eq!(forwarded.unwrap().mode, ForwardMode::CompactBlock);
    assert_eq!(done, vec![Done::Build(true), Done::Skeleton, Done::Compact]);
}

#[test]
fn a_skeleton_counts_among_the_bytes_that_the_relay_took() {
    let mut bridge = bridge_with_default_fec();
    bridge.compact_from_tx_cache = true;
    bridge.skeleton_first = true;
    let mut block = around(compact(1_600, 1));
    block.skeleton = Some(SkeletonSummary { wire_bytes: 1_500, short_ids: 1 });
    let (forwarded, _) = forward(&mut bridge, &block, T0);
    let forwarded = forwarded.unwrap();
    assert_eq!(forwarded.bytes, 1_500 + 1_600);
    assert_eq!(forwarded.relay_objects, 1);

    let mut bridge = bridge_with_default_fec();
    bridge.compact_from_tx_cache = true;
    bridge.skeleton_first = true;
    bridge.raw_fallback_with_tx_cache = true;
    let (forwarded, _) = forward(&mut bridge, &block, T0);
    let forwarded = forwarded.unwrap();
    assert_eq!(forwarded.mode, ForwardMode::CompactBlockWithRawFallback);
    assert_eq!(forwarded.bytes, 1_500 + 1_600 + 250);
    assert_eq!(forwarded.relay_objects, 4);
}

#[test]
fn a_skeleton_that_the_relay_refuses_does_not_suppress_the_compact_block() {
    let mut bridge = bridge_with_default_fec();
    bridge.compact_from_tx_cache = true;
    bridge.skeleton_first = true;
    let mut block = around(compact(1_600, 1));
    block.skeleton = Some(SkeletonSummary { wire_bytes: 1_500, short_ids: 1 });
    block.failing_send = Some(1);

    let (forwarded, done) = forward(&mut bridge, &block, T0);

    let forwarded = forwarded.unwrap();
    assert_eq!(done, vec![Done::Build(true), Done::Skeleton, Done::Compact]);
    assert_eq!(forwarded.mode, ForwardMode::CompactBlock);
    assert_eq!(forwarded.bytes, 1_600);

    // A compact block that the relay refuses is an error.
    let mut bridge = bridge_with_default_fec();
    bridge.compact_from_tx_cache = true;
    bridge.skeleton_first = true;
    block.failing_send = Some(2);
    assert_eq!(
        forward(&mut bridge, &block, T0).0.unwrap_err(),
        IngressError::Relay("socket closed".to_string())
    );
}

#[test]
fn forward_block_skeleton_guard_skips_all_prefilled() {
    let mut bridge = bridge_with_default_fec();
    bridge.compact_from_tx_cache = true;
    bridge.skeleton_first = true;
    let mut block = around(compact(1_600, 0));
    block.skeleton = Some(SkeletonSummary { wire_bytes: 1_600, short_ids: 0 });

    let (forwarded, done) = forward(&mut bridge, &block, T0);

    assert_eq!(forwarded.unwrap().mode, ForwardMode::CompactBlock);
    assert_eq!(done, vec![Done::Build(true), Done::Compact]);
}

#[test]
fn a_skeleton_that_is_large_or_missing_leaves_the_compact_block_alone() {
    for (skeleton, sent) in [
        (
            Some(SkeletonSummary { wire_bytes: SKELETON_MAX_WIRE_BYTES, short_ids: 1 }),
            3,
        ),
        (
            Some(SkeletonSummary { wire_bytes: SKELETON_MAX_WIRE_BYTES + 1, short_ids: 1 }),
            2,
        ),
        (None, 2),
    ] {
        let mut bridge = bridge_with_default_fec();
        bridge.compact_from_tx_cache = true;
        bridge.skeleton_first = true;
        let mut block = around(compact(1_600, 1));
        block.skeleton = skeleton;
        let (forwarded, done) = forward(&mut bridge, &block, T0);
        assert_eq!(forwarded.unwrap().mode, ForwardMode::CompactBlock);
        assert_eq!(done.len(), sent);
        assert_eq!(done.last(), Some(&Done::Compact));
    }
}

#[test]
fn without_a_tx_cache_there_is_no_compaction_and_no_skeleton() {
    let mut bridge = bridge_with_default_fec();
    bridge.compact_from_tx_cache = true;
    bridge.skeleton_first = true;
    let mut block = around(compact(1_600, 0));
    block.has_tx_cache = false;
    block.skeleton = Some(SkeletonSummary { wire_bytes: 10, short_ids: 1 });
    let (_, done) = forward(&mut bridge, &block, T0);
    assert_eq!(done, vec![Done::Build(false), Done::Compact]);
}

#[test]
fn a_forward_that_fails_is_tried_again() {
    let mut bridge = bridge_with_default_fec();
    bridge.compact_from_tx_cache = true;
    bridge.raw_fallback_with_tx_cache = true;
    let mut block = around(compact(1_600, 1));
    block.failing_send = Some(3);
    let (result, done) = forward(&mut bridge, &block, T0);
    assert_eq!(
        result.unwrap_err(),
        IngressError::Relay("socket closed".to_string())
    );
    assert_eq!(done.last(), Some(&Done::Segment(1)));

    block.failing_send = None;
    let (result, _) = forward(&mut bridge, &block, T0);
    assert_eq!(result.unwrap().mode, ForwardMode::CompactBlockWithRawFallback);
    let (result, _) = forward(&mut bridge, &block, T0 + 30 * SECOND);
    assert_eq!(result.unwrap().mode, ForwardMode::Deduplicated);
    let (result, _) = forward(&mut bridge, &block, T0 + 30 * SECOND + 1);
    assert_eq!(result.unwrap().mode, ForwardMode::CompactBlockWithRawFallback);
}

#[test]
fn errors_of_the_surroundings_come_through() {
    let mut bridge = bridge_with_default_fec();
    let mut block = around(compact(1_600, 0));
    block.compact = Err(IngressError::Wire("bad block".to_string()));
    assert_eq!(
        forward(&mut bridge, &block, T0).0.unwrap_err(),
        IngressError::Wire("bad block".to_string())
    );

    let mut block = around(compact(1_600, 0));
    block.chunked = Err("no codec".to_string());
    assert_eq!(
        forward(&mut bridge, &block, T0).0.unwrap_err(),
        IngressError::Relay("no codec".to_string())
    );

    // The chunker may say itself that the block is too large.
    block.chunked = Err("x: all-prefilled compact block too large, y".to_string());
    assert_eq!(
        forward(&mut bridge, &block, T0).0.unwrap().mode,
        ForwardMode::RawBlockSegments
    );

    let mut block = around(CompactSummary { header_hash: [9; 32], ..compact(21_500, 0) });
    block.split = Err("empty block".to_string());
    assert_eq!(
        forward(&mut bridge, &block, T0).0.unwrap_err(),
        IngressError::Relay("empty block".to_string())
    );
    assert_eq!(
        map_transport_error("gone".to_string()),
        IngressError::Relay("gone".to_string())
    );
}

fn test_config() -> Config {
    Config {
        connect_timeout: SECOND,
        crawler_enabled: false,
        crawler_max_known_peers: 1,
        crawler_max_addr_per_message: 1,
        rotation_enabled: false,
        rotation_cooldown: SECOND,
        rotation_failure_cooldown: SECOND,
        accept_nonstandard_ports: false,
        excluded_peer_ips: Vec::new(),
        peer_scoring_enabled: false,
        peer_score_block_received: 25,
        peer_score_relay_forwarded: 10,
        tx_request_limit_per_inv: 256,
        relay_peers: vec![PeerAddr::v4(127, 0, 0, 1, 1)],
        relay_bind_addr: PeerAddr::v4(127, 0, 0, 1, 0),
        relay_auth_key: Some([0x42; 32]),
        relay_data_shards: 96,
        relay_parity_shards: 32,
        relay_adaptive_fec: false,
        relay_send_burst_packets: 0,
        relay_send_burst_delay_micros: 0,
        relay_compact_from_tx_cache: false,
        relay_skeleton_first: false,
        relay_raw_fallback_with_tx_cache: false,
        relay_raw_segment_send_rounds: 1,
        relay_raw_segment_round_delay_millis: 0,
        relay_forward_dedup_window: 30 * SECOND,
        relay_forward_dedup_capacity: 64,
    }
}

#[test]
fn from_config_errors_when_peers_configured_without_auth_key() {
    let mut config = test_config();
    config.relay_auth_key = None;

    let result = RelayBridge::from_config(&config, MAX_PAYLOAD);
    let err = match result {
        Ok(_) => panic!("missing auth key with configured peers must error"),
        Err(err) => err,
    };
    assert!(
        err.text().contains("unauthenticated mode removed"),
        "unexpected error: {err:?}"
    );
    assert_eq!(
        err,
        IngressError::Config(
            "relay auth key required; unauthenticated mode removed \
             (set SOVRIGHT_P2P_RELAY_AUTH_KEY_HEX)"
                .to_string()
        )
    );
}

#[test]
fn from_config_disabled_when_no_relay_peers_configured() {
    let mut config = test_config();
    config.relay_peers = Vec::new();
    config.relay_auth_key = None;

    let result = RelayBridge::from_config(&config, MAX_PAYLOAD);
    assert!(matches!(result, Ok(None)));
}

#[test]
fn from_config_builds_the_bridge_that_is_asked_for() {
    let bridge = RelayBridge::from_config(&test_config(), MAX_PAYLOAD).unwrap().unwrap();
    assert_eq!(bridge.data_shards, 96);
    assert_eq!(bridge.max_payload_size, MAX_PAYLOAD);
}

#[test]
fn bridge_uses_configured_relay_fec_profile() {
    let bridge = RelayBridge::new_for_config(&test_config(), MAX_PAYLOAD).unwrap();

    assert_eq!(bridge.data_shards, 96);
    assert_eq!(bridge.parity_shards, 32);
}

#[test]
fn bridge_keeps_tx_cache_compaction_disabled_by_default() {
    let bridge = RelayBridge::new_for_config(&test_config(), MAX_PAYLOAD).unwrap();

    assert!(!bridge.compact_from_tx_cache);
}

#[test]
fn bridge_keeps_raw_fallback_disabled_by_default() {
    let bridge = RelayBridge::new_for_config(&test_config(), MAX_PAYLOAD).unwrap();

    assert!(!bridge.raw_fallback_with_tx_cache);
}

#[test]
fn bridge_uses_configured_raw_segment_retransmission_profile() {
    let mut config = test_config();
    config.relay_raw_segment_send_rounds = 3;
    config.relay_raw_segment_round_delay_millis = 25;

    let bridge = RelayBridge::new_for_config(&config, MAX_PAYLOAD).unwrap();

    assert_eq!(bridge.raw_segment_send_rounds, 3);
    assert_eq!(bridge.raw_segment_round_delay, 25_000_000);
}

#[test]
fn a_bridge_without_a_key_is_an_error() {
    let mut config = test_config();
    config.relay_auth_key = None;
    assert_eq!(
        RelayBridge::new_for_config(&config, MAX_PAYLOAD).unwrap_err(),
        IngressError::Relay("missing relay auth key".to_string())
    );
}

#[test]
fn the_relay_client_always_authenticates() {
    let mut config = test_config();
    config.relay_send_burst_packets = 8;
    config.relay_send_burst_delay_micros = 250;
    config.relay_adaptive_fec = true;
    let settings = RelayBridge::new_client_for_config(&config, [7; 32]);
    assert!(settings.auth_required);
    assert_eq!(settings.auth_key, [7; 32]);
    assert_eq!(settings.peers, config.relay_peers);
    assert_eq!(settings.bind_addr, config.relay_bind_addr);
    assert_eq!(settings.send_burst_packets, 8);
    assert_eq!(settings.send_burst_delay, 250_000);
    assert!(settings.adaptive_fec);
}

#[test]
fn modes_have_words() {
    assert_eq!(ForwardMode::CompactBlock.as_str(), "compact_block");
    assert_eq!(
        ForwardMode::CompactBlockWithRawFallback.as_str(),
        "compact_block_with_raw_fallback"
    );
    assert_eq!(ForwardMode::RawBlockSegments.as_str(), "raw_block_segments");
    assert_eq!(ForwardMode::Deduplicated.as_str(), "deduplicated");
}
