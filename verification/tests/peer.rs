use std::collections::VecDeque;

use sovright_p2p_ingress::addr::{encode_network_address, PeerAddr};
use sovright_p2p_ingress::event::EventSink;
use sovright_p2p_ingress::hash::{
    display_hash_from_header, inventory_hash_to_display, sha256d, ZCASH_FULL_HEADER_SIZE,
};
use sovright_p2p_ingress::peer::{
    encode_var_str, is_acceptable_remote_version, nonce, pong_nonce, queue_tx_request,
    received_block_display_hash, remote_version, version_payload, wtxid_for_received_tx,
    PROTOCOL_VERSION, USER_AGENT,
};
use sovright_p2p_ingress::session::{emit_tx_cache_snapshot, TxCacheSnapshot};
use sovright_p2p_ingress::transaction::SOVRIGHT_P2P_CONSENSUS_BRANCH_ID;
use sovright_p2p_ingress::tx_inventory::{wtxid_from_tx_bytes, TxInventoryKey, WtxId};
use sovright_p2p_ingress::wire::{
    decode_compact_size, encode_compact_size, encode_inventory, parse_addr, parse_inventory,
    read_i32_le, Inventory, MSG_BLOCK, MSG_TX, MSG_WTX,
};
use zcash_primitives::transaction::Transaction;
use zcash_protocol::consensus::BranchId;

fn inventory_hash_from_display(display: &str) -> [u8; 32] {
    let mut bytes: Vec<u8> = hex::decode(display).unwrap();
    bytes.reverse();
    let mut out = [0u8; 32];
    out.copy_from_slice(&bytes);
    out
}

#[test]
fn advertised_protocol_version_matches_current_network_upgrade() {
    assert_eq!(PROTOCOL_VERSION, 170_160);
}

#[test]
fn version_payload_contains_user_agent() {
    let payload = version_payload(PeerAddr::v4(127, 0, 0, 1, 8233), 1_700_000_000, 42);
    assert!(payload
        .windows(USER_AGENT.len())
        .any(|w| w == USER_AGENT.as_bytes()));
}

#[test]
fn the_exact_bytes_of_a_version_payload() {
    let payload = version_payload(
        PeerAddr::v4(1, 2, 3, 4, 8233),
        0x0102_0304_0506_0708,
        0x1112_1314_1516_1718,
    );
    let mut expected = vec![0xb0, 0x98, 0x02, 0x00];
    expected.extend_from_slice(&[0; 8]);
    expected.extend_from_slice(&[8, 7, 6, 5, 4, 3, 2, 1]);
    expected.extend_from_slice(&[0; 18]);
    expected.extend_from_slice(&[0xff, 0xff, 1, 2, 3, 4, 0x20, 0x29]);
    expected.extend_from_slice(&[0; 18]);
    expected.extend_from_slice(&[0xff, 0xff, 0, 0, 0, 0, 0, 0]);
    expected.extend_from_slice(&[0x18, 0x17, 0x16, 0x15, 0x14, 0x13, 0x12, 0x11]);
    expected.push(28);
    expected.extend_from_slice(b"/sovright-p2p-ingress:0.2.0/");
    expected.extend_from_slice(&[0; 5]);
    assert_eq!(payload, expected);
}

#[test]
fn the_nonce_mixes_time_and_process() {
    for (secs, pid) in [(0u64, 0u32), (1_700_000_000, 4242), (u64::MAX, u32::MAX)] {
        assert_eq!(
            nonce(secs, pid),
            secs.rotate_left(17) ^ pid as u64 ^ 0xbed0_c202_6052_1001
        );
    }
}

#[test]
fn rejects_remote_versions_below_zcash_mainnet_floor() {
    assert!(!is_acceptable_remote_version(170_020));
    assert!(!is_acceptable_remote_version(170_119));
    assert!(is_acceptable_remote_version(170_120));
    assert!(is_acceptable_remote_version(PROTOCOL_VERSION));
}

#[test]
fn reads_the_version_that_a_message_starts_with() {
    assert_eq!(remote_version(&170_160i32.to_le_bytes()).unwrap(), 170_160);
    assert_eq!(remote_version(&[0xff, 0xff, 0xff, 0xff, 9]).unwrap(), -1);
    assert!(remote_version(&[1, 2, 3]).is_err());
    let mut cursor = 1;
    assert_eq!(
        read_i32_le(&[0, 0, 0, 0, 0x80, 7], &mut cursor).unwrap(),
        i32::MIN
    );
    assert_eq!(cursor, 5);
}

#[test]
fn network_addr_encodes_ipv4_mapped_ipv6() {
    let mut out = Vec::new();
    encode_network_address(PeerAddr::v4(1, 2, 3, 4, 8233), &mut out);
    assert_eq!(&out[8..20], &[0, 0, 0, 0, 0, 0, 0, 0, 0, 0, 0xff, 0xff]);
    assert_eq!(&out[20..24], &[1, 2, 3, 4]);
    assert_eq!(&out[24..26], &8233u16.to_be_bytes());
}

#[test]
fn a_text_carries_its_length_in_front() {
    let mut out = vec![9];
    encode_var_str("abc", &mut out);
    assert_eq!(out, vec![9, 3, b'a', b'b', b'c']);
}

#[test]
fn received_block_display_uses_actual_header_hash_when_pending_mismatches() {
    let mut pending = VecDeque::new();
    let mut hash = [0u8; 32];
    hash[0] = 0x5c;
    hash[31] = 0x01;
    pending.push_back(hash);
    let block_payload = vec![0u8; ZCASH_FULL_HEADER_SIZE];
    let expected = display_hash_from_header(&block_payload).unwrap();

    let display = received_block_display_hash(&mut pending, &block_payload).unwrap();

    assert_eq!(display, expected);
    assert_eq!(pending.len(), 1);
    assert_eq!(pending[0], hash);
}

#[test]
fn received_block_display_removes_matching_out_of_order_pending_hash() {
    let mut pending = VecDeque::new();
    pending.push_back([0x5c; 32]);

    let block_payload = vec![0u8; ZCASH_FULL_HEADER_SIZE];
    let actual_display = display_hash_from_header(&block_payload).unwrap();
    let actual_inventory = inventory_hash_from_display(&actual_display);
    pending.push_back(actual_inventory);

    let display = received_block_display_hash(&mut pending, &block_payload).unwrap();

    assert_eq!(display, actual_display);
    assert_eq!(pending.len(), 1);
    assert_eq!(pending[0], [0x5c; 32]);
}

#[test]
fn received_block_display_falls_back_to_payload_header_hash_without_pending_request() {
    let mut pending = VecDeque::new();
    let block_payload = vec![0u8; ZCASH_FULL_HEADER_SIZE];
    let expected = display_hash_from_header(&block_payload).unwrap();

    let display = received_block_display_hash(&mut pending, &block_payload).unwrap();

    assert_eq!(display, expected);
}

#[test]
fn a_block_without_a_whole_header_is_an_error() {
    let mut pending = VecDeque::from(vec![[0x5c; 32]]);
    let error = received_block_display_hash(&mut pending, &[0; 100]).unwrap_err();
    assert_eq!(error.text(), "block payload is shorter than its header");
    assert_eq!(pending.len(), 1);
}

#[test]
fn hashes_are_sha256_twice_and_shown_in_reverse() {
    let digest = sha256d(b"hello");
    assert_eq!(
        hex::encode(digest),
        "9595c9df90075148eb06860365df33584b75bff782a510c6cd4883a419833d50"
    );
    assert_eq!(
        inventory_hash_to_display(&digest),
        "503d8319a48348cdc610a582f7bf754b5833df65038606eb48510790dfc99595"
    );
}

#[test]
fn parses_pong_nonce() {
    let nonce = 42u64;
    assert_eq!(pong_nonce(&nonce.to_le_bytes()), Some(42));
    assert_eq!(pong_nonce(&[1, 2, 3]), None);
}

#[test]
fn queues_transaction_inventory_for_getdata_when_cache_enabled() {
    let inv = Inventory {
        inv_type: MSG_WTX,
        hash: [0x11; 32],
        auth_digest: Some([0x22; 32]),
    };
    let mut seen = Vec::new();
    let mut requested = Vec::new();
    let mut pending = VecDeque::new();
    let mut requests = Vec::new();

    let queued = queue_tx_request(
        inv,
        true,
        1,
        &mut seen,
        &mut requested,
        &mut pending,
        &mut requests,
    );

    let key = TxInventoryKey::wtx([0x11; 32], [0x22; 32]);
    assert_eq!(queued, Some(key));
    assert!(seen.contains(&key));
    assert!(requested.contains(&key));
    assert_eq!(pending.pop_front(), Some(key));
    assert_eq!(requests, vec![inv]);
}

#[test]
fn skips_transaction_inventory_when_cache_disabled_or_limit_reached() {
    let inv = Inventory {
        inv_type: MSG_TX,
        hash: [0x33; 32],
        auth_digest: None,
    };
    let mut seen = Vec::new();
    let mut requested = Vec::new();
    let mut pending = VecDeque::new();
    let mut requests = Vec::new();

    assert_eq!(
        queue_tx_request(
            inv,
            false,
            1,
            &mut seen,
            &mut requested,
            &mut pending,
            &mut requests,
        ),
        None
    );
    assert_eq!(
        queue_tx_request(
            inv,
            true,
            0,
            &mut seen,
            &mut requested,
            &mut pending,
            &mut requests,
        ),
        None
    );
    assert!(seen.is_empty() && requested.is_empty() && pending.is_empty() && requests.is_empty());
}

#[test]
fn a_transaction_is_asked_for_once() {
    let inv = Inventory {
        inv_type: MSG_TX,
        hash: [0x33; 32],
        auth_digest: None,
    };
    let key = TxInventoryKey::tx([0x33; 32]);
    let mut seen = Vec::new();
    let mut requested = Vec::new();
    let mut pending = VecDeque::new();
    let mut requests = Vec::new();

    assert_eq!(
        queue_tx_request(inv, true, 9, &mut seen, &mut requested, &mut pending, &mut requests),
        Some(key)
    );
    assert_eq!(
        queue_tx_request(inv, true, 9, &mut seen, &mut requested, &mut pending, &mut requests),
        None
    );
    // Asked for before, though not seen: remembered as seen, not asked for again.
    seen.clear();
    assert_eq!(
        queue_tx_request(inv, true, 9, &mut seen, &mut requested, &mut pending, &mut requests),
        None
    );
    assert_eq!(seen, vec![key]);
    assert_eq!(requests.len(), 1);
    // A block is no transaction.
    let block = Inventory { inv_type: MSG_BLOCK, ..inv };
    assert_eq!(
        queue_tx_request(block, true, 9, &mut seen, &mut requested, &mut pending, &mut requests),
        None
    );
}

#[test]
fn emits_tx_cache_snapshot_event_from_cache_state() {
    let record = emit_tx_cache_snapshot(&TxCacheSnapshot {
        entries: 1,
        bytes: 3,
        max_entries: 8,
        max_bytes: 1_024,
        max_tx_bytes: 512,
        evicted_entries_total: 0,
        evicted_bytes_total: 0,
        dropped_too_large_total: 0,
    });

    let row: serde_json::Value =
        serde_json::from_str(&EventSink::write(record, 0).unwrap()).unwrap();
    assert_eq!(row["event"], "p2p_tx_cache_snapshot");
    assert_eq!(row["entries"], 1);
    assert_eq!(row["bytes"], 3);
    assert_eq!(row["max_entries"], 8);
    assert_eq!(row["max_bytes"], 1_024);
    assert_eq!(row["max_tx_bytes"], 512);
}

/// A mainnet transaction of version 6.
const V6_TX_HEX: &str = "0600008098b684d85b16a53700000000f55a3400010000000000000000000000000000000000\
     000000000000000000000000000000ffffffff0903f55a3404f09fa693ffffffff02d8047607\
     000000001976a91425db9091e9786867e536f70089a5102523ab1d6a88ac20bcbe0000000000\
     17a914c20cd5bdf7964ca61764db66bc2531b1792a084d8700000000";

fn v6_tx() -> Vec<u8> {
    hex::decode(V6_TX_HEX.trim()).expect("v6 fixture hex")
}

fn v6_wtxid() -> WtxId {
    wtxid_from_tx_bytes(&v6_tx(), SOVRIGHT_P2P_CONSENSUS_BRANCH_ID).expect("v6 resolves")
}

#[test]
fn identities_are_those_of_the_transaction() {
    let branch = BranchId::try_from(SOVRIGHT_P2P_CONSENSUS_BRANCH_ID).unwrap();
    let tx = Transaction::read(&v6_tx()[..], branch).unwrap();
    assert_eq!(&v6_wtxid().txid, tx.txid().as_ref());
    assert_eq!(&v6_wtxid().auth_digest[..], tx.auth_commitment().as_bytes());
    // What follows the transaction is ignored, and an unknown branch reads nothing.
    let mut longer = v6_tx();
    longer.push(7);
    assert_eq!(
        wtxid_from_tx_bytes(&longer, SOVRIGHT_P2P_CONSENSUS_BRANCH_ID),
        Some(v6_wtxid())
    );
    assert_eq!(wtxid_from_tx_bytes(&v6_tx(), 1), None);
}

#[test]
fn a_tx_is_keyed_by_its_own_payload_not_the_front_of_the_queue() {
    let other = TxInventoryKey::tx([0x77; 32]);
    let mut pending = VecDeque::from(vec![other, TxInventoryKey::from_wtxid(&v6_wtxid())]);

    let keyed = wtxid_for_received_tx(&mut pending, &v6_tx()).expect("v6 keys");

    assert_eq!(keyed, v6_wtxid(), "payload must decide the key");
    assert_ne!(
        keyed,
        other.to_wtxid(),
        "the queue front must not decide it"
    );
}

#[test]
fn an_out_of_order_tx_removes_its_own_pending_entry() {
    let still_outstanding = TxInventoryKey::tx([0x77; 32]);
    let mut pending = VecDeque::from(vec![
        still_outstanding,
        TxInventoryKey::from_wtxid(&v6_wtxid()),
    ]);

    wtxid_for_received_tx(&mut pending, &v6_tx()).expect("v6 keys");

    assert_eq!(
        pending.iter().copied().collect::<Vec<_>>(),
        vec![still_outstanding],
        "only the matching request should be consumed"
    );
}

#[test]
fn a_skipped_response_does_not_desynchronise_later_ones() {
    let never_answered = TxInventoryKey::tx([0x99; 32]);
    let mut pending = VecDeque::from(vec![
        never_answered,
        TxInventoryKey::from_wtxid(&v6_wtxid()),
    ]);

    let keyed = wtxid_for_received_tx(&mut pending, &v6_tx()).expect("v6 keys");

    assert_eq!(keyed, v6_wtxid());
    assert_eq!(pending.len(), 1, "the unanswered request stays outstanding");
}

#[test]
fn a_pre_v5_payload_is_not_cached_under_a_guess() {
    let mut pending = VecDeque::from(vec![TxInventoryKey::tx([0x77; 32])]);
    // v4 transaction prefix: parses, but carries no auth digest.
    let v4 = vec![0x04, 0x00, 0x00, 0x80, 0x01, 0x02, 0x03];
    assert!(wtxid_for_received_tx(&mut pending, &v4).is_none());
    assert_eq!(pending.len(), 1, "the request stays outstanding");
}

#[test]
fn a_whole_version_1_transaction_has_no_witnessed_identity() {
    let mut tx = vec![1, 0, 0, 0];
    encode_compact_size(0, &mut tx);
    encode_compact_size(0, &mut tx);
    tx.extend_from_slice(&7u32.to_le_bytes());
    assert_eq!(
        wtxid_from_tx_bytes(&tx, SOVRIGHT_P2P_CONSENSUS_BRANCH_ID),
        None
    );
}

#[test]
fn a_malformed_payload_is_not_cached_under_a_guess() {
    let mut pending = VecDeque::from(vec![TxInventoryKey::tx([0x77; 32])]);
    assert!(wtxid_for_received_tx(&mut pending, &[0xff, 0xff, 0xff]).is_none());
    assert_eq!(pending.len(), 1);
}

#[test]
fn an_unsolicited_tx_is_still_keyed_by_its_payload() {
    let mut pending = VecDeque::new();
    let keyed = wtxid_for_received_tx(&mut pending, &v6_tx()).expect("v6 keys");
    assert_eq!(keyed, v6_wtxid());
}

#[test]
fn keys_and_identities_stand_for_each_other() {
    let wtx = TxInventoryKey::wtx([1; 32], [2; 32]);
    assert_eq!(TxInventoryKey::from_inventory(&wtx.to_inventory()), Some(wtx));
    assert_eq!(TxInventoryKey::from_wtxid(&wtx.to_wtxid()), wtx);
    assert_eq!(wtx.kind(), "wtx");
    let tx = TxInventoryKey::tx([1; 32]);
    assert_eq!(tx.to_wtxid().auth_digest, [0xff; 32]);
    assert_eq!(TxInventoryKey::from_wtxid(&tx.to_wtxid()), tx);
    assert_eq!(tx.kind(), "tx");
    assert_eq!(tx.display_hash(), "01".repeat(32));
}

#[test]
fn inventories_survive_the_wire() {
    let invs = vec![
        Inventory { inv_type: MSG_BLOCK, hash: [3; 32], auth_digest: None },
        Inventory { inv_type: MSG_WTX, hash: [4; 32], auth_digest: Some([5; 32]) },
        Inventory { inv_type: 77, hash: [6; 32], auth_digest: None },
    ];
    let bytes = encode_inventory(&invs);
    assert_eq!(bytes.len(), 1 + 36 + 68 + 36);
    assert_eq!(parse_inventory(&bytes).unwrap(), invs);
    assert!(parse_inventory(&bytes[..bytes.len() - 1]).is_err());
    assert!(parse_inventory(&[]).is_err());
}

#[test]
fn compact_sizes_have_four_forms() {
    for (value, bytes) in [
        (0u64, vec![0u8]),
        (0xfc, vec![0xfc]),
        (0xfd, vec![0xfd, 0xfd, 0]),
        (0xffff, vec![0xfd, 0xff, 0xff]),
        (0x1_0000, vec![0xfe, 0, 0, 1, 0]),
        (u64::MAX, vec![0xff; 9]),
    ] {
        let mut out = Vec::new();
        encode_compact_size(value, &mut out);
        assert_eq!(out, bytes);
        let mut cursor = 0;
        assert_eq!(decode_compact_size(&out, &mut cursor).unwrap(), value);
        assert_eq!(cursor, out.len());
    }
    let mut cursor = 0;
    assert!(decode_compact_size(&[0xfd, 1], &mut cursor).is_err());
    assert_eq!(cursor, 0);
}

#[test]
fn addresses_are_read_up_to_the_limit() {
    let mut payload = Vec::new();
    encode_compact_size(2, &mut payload);
    for d in [7u8, 8] {
        payload.extend_from_slice(&[0; 4]);
        encode_network_address(PeerAddr::v4(10, 0, 0, d, 8233), &mut payload);
    }
    assert_eq!(
        parse_addr(&payload, 5).unwrap(),
        vec![PeerAddr::v4(10, 0, 0, 7, 8233), PeerAddr::v4(10, 0, 0, 8, 8233)]
    );
    assert_eq!(
        parse_addr(&payload, 1).unwrap(),
        vec![PeerAddr::v4(10, 0, 0, 7, 8233)]
    );
    assert!(parse_addr(&payload[..40], 5).is_err());
}
