use sovright_p2p_ingress::addr::{PeerAddr, PeerIp};
use sovright_p2p_ingress::config::Config;
use sovright_p2p_ingress::crawler::{Crawler, PeerOutcome};
use sovright_p2p_ingress::event::{EventRecord, FieldValue};

const SECOND: u128 = 1_000_000_000;
const START: u128 = 1_000 * SECOND;

fn config(rotation_enabled: bool) -> Config {
    Config {
        connect_timeout: 5 * SECOND,
        crawler_enabled: true,
        crawler_max_known_peers: 100,
        crawler_max_addr_per_message: 100,
        rotation_enabled,
        rotation_cooldown: 0,
        rotation_failure_cooldown: 30 * SECOND,
        accept_nonstandard_ports: false,
        excluded_peer_ips: Vec::new(),
        peer_scoring_enabled: false,
        peer_score_block_received: 25,
        peer_score_relay_forwarded: 10,
        tx_request_limit_per_inv: 256,
        relay_peers: Vec::new(),
        relay_bind_addr: PeerAddr::v4(0, 0, 0, 0, 0),
        relay_auth_key: None,
        relay_data_shards: 10,
        relay_parity_shards: 3,
        relay_adaptive_fec: false,
        relay_send_burst_packets: 0,
        relay_send_burst_delay_micros: 0,
        relay_compact_from_tx_cache: false,
        relay_skeleton_first: false,
        relay_raw_fallback_with_tx_cache: false,
        relay_raw_segment_send_rounds: 1,
        relay_raw_segment_round_delay_millis: 0,
        relay_forward_dedup_window: 30 * SECOND,
        relay_forward_dedup_capacity: 64,
    }
}

fn local(d: u8, port: u16) -> PeerAddr {
    PeerAddr::v4(127, 0, 0, d, port)
}

fn name(peer: &PeerAddr) -> String {
    match peer {
        PeerAddr::V4 { host, port } => {
            let [a, b, c, d] = host.to_be_bytes();
            format!("{a}.{b}.{c}.{d}:{port}")
        }
        PeerAddr::V6 { host, port, .. } => format!("[{host:x}]:{port}"),
    }
}

fn discover(crawler: &mut Crawler, source: &str, peers: Vec<PeerAddr>) -> Vec<EventRecord> {
    let names = peers.iter().map(name).collect();
    crawler.add_discovered(source, &peers, &names, START)
}

fn field<'a>(record: &'a EventRecord, key: &str) -> &'a FieldValue {
    &record.fields.iter().find(|f| f.key == key).unwrap().value
}

fn text(value: &str) -> FieldValue {
    FieldValue::Text(value.to_string())
}

#[test]
fn active_peer_is_not_selected_until_released() {
    let peer = local(1, 8233);
    let mut crawler = Crawler::new(&config(true), &vec![peer], START);

    assert_eq!(crawler.next_peer(START), Some(peer));
    assert_eq!(crawler.next_peer(START), None);

    crawler
        .release_peer(peer, PeerOutcome::Rotated, START, &name(&peer))
        .unwrap();

    assert_eq!(crawler.next_peer(START), Some(peer));
}

#[test]
fn released_peer_is_not_requeued_when_rotation_is_disabled() {
    let peer = local(1, 8233);
    let mut crawler = Crawler::new(&config(false), &vec![peer], START);

    assert_eq!(crawler.next_peer(START), Some(peer));
    crawler
        .release_peer(peer, PeerOutcome::Rotated, START, &name(&peer))
        .unwrap();

    assert_eq!(crawler.next_peer(START), None);
    assert_eq!(crawler.next_peer(START + 1_000 * SECOND), None);
}

#[test]
fn failed_peer_observes_failure_cooldown_before_retry() {
    let peer = local(1, 8233);
    let mut crawler = Crawler::new(&config(true), &vec![peer], START);

    assert_eq!(crawler.next_peer(START), Some(peer));
    crawler
        .release_peer(peer, PeerOutcome::Errored, START, &name(&peer))
        .unwrap();

    assert_eq!(crawler.next_peer(START), None);
    assert_eq!(crawler.next_peer(START + 30 * SECOND - 1), None);
    assert_eq!(crawler.next_peer(START + 30 * SECOND), Some(peer));
}

#[test]
fn discovered_peers_do_not_duplicate_active_peer() {
    let peer = local(1, 8233);
    let discovered = local(2, 8233);
    let mut crawler = Crawler::new(&config(true), &vec![peer], START);

    assert_eq!(crawler.next_peer(START), Some(peer));
    let accepted = discover(&mut crawler, "127.0.0.9:8233", vec![peer, discovered]);

    assert_eq!(accepted.len(), 1);
    assert_eq!(crawler.next_peer(START), Some(discovered));
    assert_eq!(crawler.next_peer(START), None);
}

#[test]
fn crawler_rejects_known_zcash_fork_ports() {
    let zcash_peer = local(1, 8233);
    let flux_peer = local(2, 16125);
    let flux_alt_peer = local(3, 26125);
    let mut crawler = Crawler::new(&config(true), &vec![zcash_peer, flux_peer], START);

    assert_eq!(crawler.known_len(), 1);
    assert_eq!(crawler.next_peer(START), Some(zcash_peer));

    let accepted = discover(&mut crawler, "127.0.0.9:8233", vec![flux_peer, flux_alt_peer]);

    assert_eq!(accepted.len(), 0);
    assert_eq!(crawler.known_len(), 1);
}

#[test]
fn crawler_rejects_excluded_peer_ips() {
    let external_peer = local(1, 8233);
    let own_zebra = local(2, 8233);
    let mut cfg = config(true);
    cfg.excluded_peer_ips = vec![local(2, 0).ip()];

    let mut crawler = Crawler::new(&cfg, &vec![external_peer, own_zebra], START);

    assert_eq!(crawler.known_len(), 1);
    assert_eq!(crawler.next_peer(START), Some(external_peer));

    let accepted = discover(&mut crawler, "127.0.0.9:8233", vec![own_zebra]);

    assert_eq!(accepted.len(), 0);
    assert_eq!(crawler.known_len(), 1);
}

#[test]
fn excluded_peer_ip_is_rejected_on_every_port() {
    let own_zebra_alt_port = local(2, 18233);
    let mut cfg = config(true);
    cfg.accept_nonstandard_ports = true;
    cfg.excluded_peer_ips = vec![PeerIp::V4(0x7f00_0002)];

    let mut crawler = Crawler::new(&cfg, &vec![own_zebra_alt_port], START);

    assert_eq!(crawler.known_len(), 0);
    assert_eq!(crawler.next_peer(START), None);
}

#[test]
fn empty_exclusion_set_keeps_every_peer() {
    let crawler = Crawler::new(&config(true), &vec![local(1, 8233), local(2, 8233)], START);

    assert_eq!(crawler.known_len(), 2);
}

#[test]
fn crawler_rejects_nonstandard_ports_by_default() {
    let zcash_peer = local(1, 8233);
    let nonstandard_peer = local(2, 34567);
    let mut crawler = Crawler::new(&config(true), &vec![zcash_peer, nonstandard_peer], START);

    assert_eq!(crawler.known_len(), 1);
    assert_eq!(crawler.next_peer(START), Some(zcash_peer));

    let accepted = discover(&mut crawler, "127.0.0.9:8233", vec![nonstandard_peer]);

    assert_eq!(accepted.len(), 0);
    assert_eq!(crawler.known_len(), 1);
}

#[test]
fn scored_scheduler_prefers_higher_score() {
    let first = local(1, 8233);
    let second = local(2, 8233);
    let third = local(3, 8233);
    let mut cfg = config(true);
    cfg.peer_scoring_enabled = true;
    let mut crawler = Crawler::new(&cfg, &vec![first, second, third], START);

    crawler
        .score_peer(third, 20, "block_received", &name(&third))
        .unwrap();
    crawler
        .score_peer(second, 10, "block_inv", &name(&second))
        .unwrap();

    assert_eq!(crawler.next_peer(START), Some(third));
    assert_eq!(crawler.next_peer(START), Some(second));
    assert_eq!(crawler.next_peer(START), Some(first));
}

#[test]
fn scored_scheduler_keeps_fifo_for_equal_scores() {
    let first = local(1, 8233);
    let second = local(2, 8233);
    let mut cfg = config(true);
    cfg.peer_scoring_enabled = true;
    let mut crawler = Crawler::new(&cfg, &vec![first, second], START);

    assert_eq!(crawler.next_peer(START), Some(first));
    assert_eq!(crawler.next_peer(START), Some(second));
}

#[test]
fn scored_scheduler_skips_ineligible_high_score_peer() {
    let high_score = local(1, 8233);
    let low_score = local(2, 8233);
    let mut cfg = config(true);
    cfg.peer_scoring_enabled = true;
    cfg.rotation_cooldown = 30 * SECOND;
    let mut crawler = Crawler::new(&cfg, &vec![high_score, low_score], START);

    crawler
        .score_peer(high_score, 20, "block_received", &name(&high_score))
        .unwrap();
    assert_eq!(crawler.next_peer(START), Some(high_score));
    crawler
        .release_peer(high_score, PeerOutcome::Rotated, START, &name(&high_score))
        .unwrap();

    assert_eq!(crawler.next_peer(START), Some(low_score));
}

#[test]
fn a_seed_that_is_listed_twice_counts_once() {
    let peer = local(1, 8233);
    let other = local(2, 8233);
    let mut crawler = Crawler::new(&config(true), &vec![peer, other, peer], START);

    assert_eq!(crawler.known_len(), 2);
    assert_eq!(crawler.queue_len(), 2);
    assert_eq!(crawler.next_peer(START), Some(peer));
    assert_eq!(crawler.next_peer(START), Some(other));
    assert_eq!(crawler.next_peer(START), None);
}

#[test]
fn a_seed_that_is_listed_again_keeps_its_place() {
    // With equal scores the peer that has been known longest goes first.
    let repeated = local(1, 8233);
    let other = local(2, 8233);
    let mut cfg = config(true);
    cfg.peer_scoring_enabled = true;
    let mut crawler = Crawler::new(&cfg, &vec![repeated, other, repeated], START);

    assert_eq!(crawler.next_peer(START), Some(repeated));
    assert_eq!(crawler.next_peer(START), Some(other));
}

#[test]
fn a_list_that_comes_again_adds_nothing() {
    let mut crawler = Crawler::new(&config(true), &vec![local(1, 8233)], START);
    let list = vec![local(2, 8233), local(3, 8233), local(4, 9)];
    assert_eq!(discover(&mut crawler, "x", list.clone()).len(), 2);
    assert_eq!(discover(&mut crawler, "x", list).len(), 0);
    assert_eq!(crawler.known_len(), 3);
}

#[test]
fn a_peer_that_is_passed_over_moves_behind_the_others() {
    let resting = local(1, 8233);
    let a = local(2, 8233);
    let b = local(3, 8233);
    let mut crawler = Crawler::new(&config(true), &vec![resting, a, b], START);
    assert_eq!(crawler.next_peer(START), Some(resting));
    crawler
        .release_peer(resting, PeerOutcome::Errored, START, "r")
        .unwrap();
    assert_eq!(crawler.next_peer(START), Some(a));
    crawler.release_peer(a, PeerOutcome::Rotated, START, "a").unwrap();
    // The queue is now b, resting, a.
    assert_eq!(crawler.next_peer(START), Some(b));
    assert_eq!(crawler.next_peer(START), Some(a));
    assert_eq!(crawler.next_peer(START), None);
    assert_eq!(crawler.queue_len(), 1);
    assert_eq!(crawler.next_peer(START + 30 * SECOND), Some(resting));
}

#[test]
fn discovery_stops_at_the_limit() {
    let mut cfg = config(true);
    cfg.crawler_max_known_peers = 3;
    let mut crawler = Crawler::new(&cfg, &vec![local(1, 8233)], START);

    let reports = discover(
        &mut crawler,
        "127.0.0.9:8233",
        vec![
            local(2, 9999),
            local(2, 8233),
            local(2, 8233),
            local(3, 8233),
            local(4, 8233),
        ],
    );

    assert_eq!(reports.len(), 2);
    assert_eq!(field(&reports[0], "event"), &text("p2p_peer_discovered"));
    assert_eq!(field(&reports[0], "source_peer"), &text("127.0.0.9:8233"));
    assert_eq!(field(&reports[0], "peer"), &text("127.0.0.2:8233"));
    assert_eq!(field(&reports[1], "peer"), &text("127.0.0.3:8233"));
    assert_eq!(crawler.known_len(), 3);
    assert_eq!(crawler.queue_len(), 3);
}

#[test]
fn a_crawler_that_is_off_discovers_nothing() {
    let mut cfg = config(true);
    cfg.crawler_enabled = false;
    let mut crawler = Crawler::new(&cfg, &vec![local(1, 8233)], START);

    assert_eq!(discover(&mut crawler, "x", vec![local(2, 8233)]).len(), 0);
    assert_eq!(crawler.known_len(), 1);
}

#[test]
fn releases_and_scores_of_unknown_peers_are_ignored() {
    let mut cfg = config(true);
    cfg.peer_scoring_enabled = true;
    let mut crawler = Crawler::new(&cfg, &vec![local(1, 8233)], START);

    assert_eq!(
        crawler.release_peer(local(2, 8233), PeerOutcome::Rotated, START, "x"),
        None
    );
    assert_eq!(crawler.score_peer(local(2, 8233), 5, "block_inv", "x"), None);
    assert_eq!(crawler.score_peer(local(1, 8233), 0, "block_inv", "x"), None);
    assert_eq!(crawler.queue_len(), 1);
}

#[test]
fn a_release_is_reported_with_its_cooldown_and_the_queue() {
    let peer = local(1, 8233);
    let mut crawler = Crawler::new(&config(true), &vec![peer, local(2, 8233)], START);
    assert_eq!(crawler.next_peer(START), Some(peer));

    let report = crawler
        .release_peer(peer, PeerOutcome::Errored, START, "127.0.0.1:8233")
        .unwrap();

    assert_eq!(field(&report, "event"), &text("p2p_peer_rotation"));
    assert_eq!(field(&report, "peer"), &text("127.0.0.1:8233"));
    assert_eq!(field(&report, "outcome"), &text("errored"));
    assert_eq!(field(&report, "cooldown_ms"), &FieldValue::Unsigned(30_000));
    assert_eq!(field(&report, "queue_len"), &FieldValue::Unsigned(2));
}

#[test]
fn scores_add_up_and_stay_in_range() {
    let peer = local(1, 8233);
    let mut cfg = config(true);
    cfg.peer_scoring_enabled = true;
    let mut crawler = Crawler::new(&cfg, &vec![peer], START);

    let first = crawler.score_peer(peer, 25, "block_received", "p").unwrap();
    assert_eq!(field(&first, "event"), &text("p2p_peer_score"));
    assert_eq!(field(&first, "score"), &FieldValue::Signed(25));
    assert_eq!(field(&first, "reason"), &text("block_received"));
    let second = crawler.score_peer(peer, -50, "error", "p").unwrap();
    assert_eq!(field(&second, "score"), &FieldValue::Signed(-25));
    crawler.score_peer(peer, i64::MAX, "x", "p").unwrap();
    let top = crawler.score_peer(peer, i64::MAX, "x", "p").unwrap();
    assert_eq!(field(&top, "score"), &FieldValue::Signed(i64::MAX));
    crawler.score_peer(peer, i64::MIN, "x", "p").unwrap();
    let low = crawler.score_peer(peer, i64::MIN, "x", "p").unwrap();
    assert_eq!(field(&low, "score"), &FieldValue::Signed(i64::MIN));
}

#[test]
fn outcomes_have_words() {
    assert_eq!(PeerOutcome::Rotated.as_str(), "rotated");
    assert_eq!(PeerOutcome::Errored.as_str(), "errored");
}

#[test]
fn what_a_list_adds_is_queued_in_the_order_of_the_list() {
    let known = local(1, 8233);
    let list = vec![local(5, 8233), known, local(3, 16125), local(2, 8233), local(5, 8233)];
    let mut crawler = Crawler::new(&config(true), &vec![known], START);
    let accepted = discover(&mut crawler, "127.0.0.9:8233", list);
    assert_eq!(accepted.len(), 2);
    assert_eq!(field(&accepted[0], "peer"), &text(&name(&local(5, 8233))));
    assert_eq!(field(&accepted[1], "peer"), &text(&name(&local(2, 8233))));
    assert_eq!(crawler.known_len(), 3);
    assert_eq!(crawler.queue_len(), 3);
    assert_eq!(crawler.next_peer(START), Some(known));
    assert_eq!(crawler.next_peer(START), Some(local(5, 8233)));
    assert_eq!(crawler.next_peer(START), Some(local(2, 8233)));
    assert_eq!(crawler.next_peer(START), None);
}
