use sovright_p2p_ingress::addr::{encode_network_address, PeerAddr};
use sovright_p2p_ingress::error::IngressError;
use sovright_p2p_ingress::event::{EventRecord, EventSink};
use sovright_p2p_ingress::hash::{
    display_hash_from_header, raw_hash_from_header, ZCASH_FULL_HEADER_SIZE,
};
use sovright_p2p_ingress::relay_bridge::{ForwardMode, ForwardedBlock};
use sovright_p2p_ingress::session::{
    connect_timeout_error, read_timeout_error, PeerAction, PeerSession, SessionSettings,
    TxCacheOutcome, TxCacheSnapshot,
};
use sovright_p2p_ingress::tx_inventory::{TxInventoryKey, WtxId};
use sovright_p2p_ingress::wire::{
    encode_compact_size, encode_inventory, Inventory, MSG_BLOCK, MSG_TX,
};

const MILLI: u128 = 1_000_000;
const T0: u128 = 1_000_000 * MILLI;
const PEER: &str = "10.0.0.7:8233";

fn settings() -> SessionSettings {
    SessionSettings {
        max_addr_per_message: 10,
        tx_request_limit_per_inv: 2,
        score_block_received: 25,
        score_relay_forwarded: 10,
        has_relay: true,
        has_tx_cache: true,
        has_tx_feed: true,
    }
}

fn open(settings: SessionSettings) -> PeerSession {
    PeerSession::start(PEER, PeerAddr::v4(10, 0, 0, 7, 8233), settings, 12, T0, 1_700_000_000, 9).0
}

fn say(session: &mut PeerSession, command: &str, payload: &[u8]) -> Vec<String> {
    show(session.on_message(command, payload, "cc", T0 + 34 * MILLI, 42))
}

fn ready(settings: SessionSettings) -> PeerSession {
    let mut session = open(settings);
    say(&mut session, "verack", &[]);
    session.on_sent("ping", T0 + 40 * MILLI);
    session
}

fn json(record: EventRecord) -> serde_json::Value {
    serde_json::from_str(&EventSink::write(record, 0).unwrap()).unwrap()
}

/// Actions in a short form: events as their line without the time.
fn show(actions: Vec<PeerAction>) -> Vec<String> {
    actions
        .into_iter()
        .map(|action| match action {
            PeerAction::Send { command, payload } => {
                format!("send {command} {}", hex::encode(payload))
            }
            PeerAction::Emit(record) => {
                let mut value = json(record);
                let fields = value.as_object_mut().unwrap();
                fields.remove("observed_at_unix_ms");
                assert_eq!(fields.remove("peer").unwrap(), PEER);
                let event = fields.remove("event").unwrap();
                format!("{} {value}", event.as_str().unwrap())
            }
            PeerAction::Discover(addrs) => format!("discover {}", addrs.len()),
            PeerAction::ScoreAnnouncement(hash) => format!("announced {:02x}", hash[0]),
            PeerAction::ScorePeer { delta, reason } => format!("score {delta} {reason}"),
            PeerAction::ForwardBlock(display) => format!("forward {display}"),
            PeerAction::CacheTx(id) => format!("cache {:02x}", id.txid[0]),
            PeerAction::FeedTx(id) => format!("feed {:02x}", id.txid[0]),
            PeerAction::Fail(error) => format!("fail {error:?}"),
        })
        .collect()
}

fn block_inv(tag: u8) -> Inventory {
    Inventory { inv_type: MSG_BLOCK, hash: [tag; 32], auth_digest: None }
}

fn tx_inv(tag: u8) -> Inventory {
    Inventory { inv_type: MSG_TX, hash: [tag; 32], auth_digest: None }
}

#[test]
fn a_session_opens_with_the_version_message() {
    let (_, actions) = PeerSession::start(
        PEER,
        PeerAddr::v4(10, 0, 0, 7, 8233),
        settings(),
        12,
        T0,
        1_700_000_000,
        9,
    );
    let shown = show(actions);
    assert_eq!(shown[0], "p2p_connect_timing {\"connect_ms\":12}");
    assert_eq!(shown[1], "p2p_peer_connected {}");
    assert!(shown[2].starts_with("send version b0980200"));
    assert_eq!(shown.len(), 3);
}

#[test]
fn the_handshake_is_confirmed_once() {
    let mut session = open(settings());
    let version = 170_160i32.to_le_bytes();
    assert_eq!(
        say(&mut session, "version", &version),
        vec!["p2p_peer_version {\"remote_version\":170160}", "send verack "]
    );
    assert_eq!(
        say(&mut session, "version", &version),
        vec!["p2p_peer_version {\"remote_version\":170160}"]
    );
}

#[test]
fn a_version_that_is_too_old_ends_the_session() {
    let mut session = open(settings());
    assert_eq!(
        say(&mut session, "version", &170_119i32.to_le_bytes()),
        vec![
            "p2p_peer_version {\"remote_version\":170119}",
            "fail Wire(\"remote protocol version too old: 170119 < 170120\")",
        ]
    );
    // A message that is too short counts as version zero.
    assert_eq!(
        say(&mut session, "version", &[1, 2]),
        vec![
            "p2p_peer_version {\"remote_version\":0}",
            "fail Wire(\"remote protocol version too old: 0 < 170120\")",
        ]
    );
}

#[test]
fn a_verack_starts_the_exchange() {
    let mut session = open(settings());
    assert_eq!(
        say(&mut session, "verack", &[]),
        vec![
            "p2p_handshake_complete {}",
            "p2p_handshake_timing {\"handshake_ms\":34}",
            "send ping 2a00000000000000",
            "send getaddr ",
        ]
    );
}

#[test]
fn the_handshake_counts_from_when_the_version_message_was_out() {
    let mut session = open(settings());
    session.on_sent("version", T0 + 30 * MILLI);
    session.on_sent("verack", T0 + 33 * MILLI);
    assert_eq!(
        say(&mut session, "verack", &[])[1],
        "p2p_handshake_timing {\"handshake_ms\":4}"
    );
}

#[test]
fn a_pong_counts_once() {
    let mut session = ready(settings());
    assert!(say(&mut session, "pong", &41u64.to_le_bytes()).is_empty());
    assert!(say(&mut session, "pong", &[42]).is_empty());
    let rtt = show(session.on_message("pong", &42u64.to_le_bytes(), "", T0 + 96 * MILLI, 0));
    assert_eq!(rtt, vec!["p2p_ping_rtt {\"nonce\":42,\"rtt_ms\":56}"]);
    assert!(say(&mut session, "pong", &42u64.to_le_bytes()).is_empty());
}

#[test]
fn a_ping_is_answered_and_a_reject_reported() {
    let mut session = open(settings());
    assert_eq!(say(&mut session, "ping", &[1, 2, 3]), vec!["send pong 010203"]);
    assert_eq!(
        say(&mut session, "reject", &[0; 5]),
        vec!["p2p_reject {\"bytes\":5}"]
    );
    assert!(say(&mut session, "sendheaders", &[0; 5]).is_empty());
}

#[test]
fn nothing_counts_before_the_verack() {
    let mut session = open(settings());
    let invs = encode_inventory(&vec![block_inv(1)]);
    assert!(say(&mut session, "inv", &invs).is_empty());
    assert!(say(&mut session, "addr", &[0]).is_empty());
    assert!(say(&mut session, "block", &[0]).is_empty());
    assert!(say(&mut session, "tx", &[0]).is_empty());
    say(&mut session, "verack", &[]);
    assert_eq!(say(&mut session, "inv", &invs).len(), 4);
}

#[test]
fn addresses_go_to_the_crawler() {
    let mut session = ready(settings());
    let mut payload = Vec::new();
    encode_compact_size(1, &mut payload);
    payload.extend_from_slice(&[0; 4]);
    encode_network_address(PeerAddr::v4(10, 0, 0, 8, 8233), &mut payload);
    assert_eq!(say(&mut session, "addr", &payload), vec!["discover 1"]);
    assert!(say(&mut session, "addr", &payload[..9])[0].starts_with("fail Wire"));
    let report = json(session.on_discovered(5, 2));
    assert_eq!(report["event"], "p2p_addr_received");
    assert_eq!(report["count"], 5);
    assert_eq!(report["accepted"], 2);
}

#[test]
fn announced_blocks_are_asked_for_once() {
    let mut session = ready(settings());
    let first = encode_inventory(&vec![block_inv(1), block_inv(2), block_inv(1)]);
    let request = encode_inventory(&vec![block_inv(1), block_inv(2)]);
    let h1 = "01".repeat(32);
    let h2 = "02".repeat(32);
    assert_eq!(
        say(&mut session, "inv", &first),
        vec![
            format!("p2p_block_inv {{\"hash\":\"{h1}\"}}"),
            "announced 01".to_string(),
            format!("p2p_block_inv {{\"hash\":\"{h2}\"}}"),
            "announced 02".to_string(),
            format!("send getdata {}", hex::encode(&request)),
            format!("p2p_getdata_sent {{\"hash\":\"{h1}\"}}"),
            format!("p2p_getdata_sent {{\"hash\":\"{h2}\"}}"),
        ]
    );
    assert!(say(&mut session, "inv", &first).is_empty());
    assert!(say(&mut session, "inv", &first[..20])[0].starts_with("fail Wire"));
}

#[test]
fn transactions_are_asked_for_up_to_the_limit() {
    let mut session = ready(settings());
    let invs = encode_inventory(&vec![tx_inv(1), tx_inv(1), tx_inv(2), tx_inv(3)]);
    let request = encode_inventory(&vec![tx_inv(1), tx_inv(2)]);
    let h1 = "01".repeat(32);
    let h2 = "02".repeat(32);
    assert_eq!(
        say(&mut session, "inv", &invs),
        vec![
            format!("p2p_tx_inv {{\"hash\":\"{h1}\",\"kind\":\"tx\"}}"),
            format!("p2p_tx_inv {{\"hash\":\"{h2}\",\"kind\":\"tx\"}}"),
            format!("send getdata {}", hex::encode(&request)),
            format!("p2p_tx_getdata_sent {{\"hash\":\"{h1}\",\"kind\":\"tx\"}}"),
            format!("p2p_tx_getdata_sent {{\"hash\":\"{h2}\",\"kind\":\"tx\"}}"),
        ]
    );
    // What did not fit was not seen, so it is asked for when it is told of again.
    let again = say(&mut session, "inv", &invs);
    assert_eq!(again.len(), 3);
    assert!(again[0].contains(&"03".repeat(32)));
}

#[test]
fn transactions_are_not_asked_for_where_nobody_wants_them() {
    let mut quiet = settings();
    quiet.has_tx_cache = false;
    quiet.has_tx_feed = false;
    let mut session = ready(quiet);
    let invs = encode_inventory(&vec![tx_inv(1)]);
    assert!(say(&mut session, "inv", &invs).is_empty());
    assert!(say(&mut session, "tx", &[0xff]).is_empty());
}

#[test]
fn a_block_is_reported_credited_and_forwarded() {
    let mut session = ready(settings());
    let block = vec![0u8; ZCASH_FULL_HEADER_SIZE];
    let display = display_hash_from_header(&block).unwrap();
    assert_eq!(
        say(&mut session, "block", &block),
        vec![
            format!(
                "p2p_block_received {{\"bytes\":1487,\"consensus_hash\":\"cc\",\"hash\":\"{display}\"}}"
            ),
            "score 25 block_received".to_string(),
            format!("forward {display}"),
        ]
    );
    assert!(say(&mut session, "block", &block[1..])[0].starts_with("fail Wire"));

    let mut no_relay = settings();
    no_relay.has_relay = false;
    let mut session = ready(no_relay);
    assert_eq!(say(&mut session, "block", &block).len(), 2);
    assert_eq!(raw_hash_from_header(&block).unwrap().len(), 32);
}

#[test]
fn what_the_relay_did_is_reported() {
    let session = ready(settings());
    let forwarded = ForwardedBlock {
        tx_count: 2,
        bytes: 1_700,
        relay_objects: 1,
        mode: ForwardMode::CompactBlock,
    };
    assert_eq!(
        show(session.on_forwarded("abcd", &Ok(forwarded))),
        vec![
            "p2p_relay_block_forwarded {\"bytes\":1700,\"hash\":\"abcd\",\
             \"mode\":\"compact_block\",\"relay_objects\":1,\"tx_count\":2}",
            "score 10 relay_forwarded",
        ]
    );
    assert_eq!(
        show(session.on_forwarded("abcd", &Err(IngressError::Relay("gone".to_string())))),
        vec!["p2p_peer_error {\"error\":\"relay forward failed: gone\"}"]
    );
}

const V6_TX_HEX: &str = "0600008098b684d85b16a53700000000f55a3400010000000000000000000000000000000000\
     000000000000000000000000000000ffffffff0903f55a3404f09fa693ffffffff02d8047607\
     000000001976a91425db9091e9786867e536f70089a5102523ab1d6a88ac20bcbe0000000000\
     17a914c20cd5bdf7964ca61764db66bc2531b1792a084d8700000000";

#[test]
fn a_transaction_is_kept_and_handed_on_under_its_own_identity() {
    let tx = hex::decode(V6_TX_HEX).unwrap();
    let mut session = ready(settings());
    let actions = session.on_message("tx", &tx, "", T0, 0);
    let ids: Vec<WtxId> = actions
        .iter()
        .map(|action| match action {
            PeerAction::CacheTx(id) => *id,
            PeerAction::FeedTx(id) => *id,
            other => panic!("unexpected {other:?}"),
        })
        .collect();
    assert_eq!(ids.len(), 2);
    assert_eq!(ids[0], ids[1]);
    assert_ne!(ids[0].txid, ids[0].auth_digest);
    assert_eq!(
        say(&mut session, "tx", &[0xff]),
        vec!["p2p_peer_error {\"error\":\"received tx with no derivable wtxid; not cached\"}"]
    );
}

#[test]
fn what_the_cache_and_the_feed_did_is_reported() {
    let session = ready(settings());
    let id = TxInventoryKey::wtx([1; 32], [2; 32]).to_wtxid();
    let outcome = TxCacheOutcome {
        entries: 1,
        bytes: 3,
        evicted_entries: 4,
        evicted_bytes: 5,
        dropped_too_large: 6,
    };
    let snapshot = TxCacheSnapshot {
        entries: 1,
        bytes: 3,
        max_entries: 8,
        max_bytes: 1_024,
        max_tx_bytes: 512,
        evicted_entries_total: 4,
        evicted_bytes_total: 5,
        dropped_too_large_total: 6,
    };
    let mut reports = Vec::new();
    for action in session.on_cached(&id, 3, &outcome, &snapshot) {
        match action {
            PeerAction::Emit(record) => reports.push(json(record)),
            other => panic!("unexpected {other:?}"),
        }
    }
    assert_eq!(reports[0]["event"], "p2p_tx_received");
    assert_eq!(reports[0]["kind"], "wtx");
    assert_eq!(reports[0]["hash"], "01".repeat(32));
    assert_eq!(reports[0]["evicted_bytes"], 5);
    assert_eq!(reports[1]["event"], "p2p_tx_cache_snapshot");
    assert_eq!(reports[1]["max_tx_bytes"], 512);

    let fed = json(session.on_fed(&id, 3, &Ok(())));
    assert_eq!(fed["event"], "p2p_tx_feed_forwarded");
    assert_eq!(fed["bytes"], 3);
    let refused = json(session.on_fed(&id, 3, &Err("gone".to_string())));
    assert_eq!(refused["error"], "tx feed forward failed: gone");
}

#[test]
fn silence_is_an_error() {
    assert_eq!(
        connect_timeout_error(PEER),
        IngressError::Timeout("connect to 10.0.0.7:8233".to_string())
    );
    assert_eq!(
        read_timeout_error(PEER),
        IngressError::Timeout("read from 10.0.0.7:8233".to_string())
    );
}

#[test]
fn what_is_awaited_keeps_the_order_of_the_requests() {
    let mut session = open(settings());
    assert!(!session.is_confirmed());
    say(&mut session, "verack", &[]);
    assert!(session.is_confirmed());
    assert_eq!(session.next_awaited_block(), None);

    let block = vec![0u8; ZCASH_FULL_HEADER_SIZE];
    let hash = raw_hash_from_header(&block).unwrap();
    let asked = Inventory { inv_type: MSG_BLOCK, hash, auth_digest: None };
    say(&mut session, "inv", &encode_inventory(&vec![block_inv(1), asked, block_inv(2)]));
    assert_eq!(session.next_awaited_block(), Some([1; 32]));
    assert_eq!(session.awaited_block(&hash), Some(1));
    assert_eq!(session.awaited_block(&[2; 32]), Some(2));
    say(&mut session, "block", &block);
    assert_eq!(session.awaited_block(&hash), None);
    assert_eq!(session.awaited_block(&[2; 32]), Some(1));

    say(&mut session, "inv", &encode_inventory(&vec![tx_inv(4), tx_inv(5)]));
    assert_eq!(session.awaited_tx(&TxInventoryKey::tx([4; 32]).to_wtxid()), Some(0));
    assert_eq!(session.awaited_tx(&TxInventoryKey::tx([5; 32]).to_wtxid()), Some(1));
    assert_eq!(session.awaited_tx(&TxInventoryKey::tx([6; 32]).to_wtxid()), None);
}
