use sovright_p2p_ingress::coinbase::{
    coinbase_miner_script, coinbase_text, script_tag, MAX_COINBASE_TEXT,
};
use sovright_p2p_ingress::hash::ZCASH_FULL_HEADER_SIZE;
use sovright_p2p_ingress::wire::encode_compact_size;

const OVERWINTERED_FLAG: u32 = 1 << 31;
const TX_V5_VERSION_GROUP_ID: u32 = 0x26A7_270A;
const NU5_CONSENSUS_BRANCH_ID: u32 = 0xC2D6_D0B4;

/// The coinbase of mainnet block 3431157, a version 6 transaction.
const REAL_MAINNET_V6_COINBASE_HEX: &str = "0600008098b684d85b16a53700000000f55a3400010000000000000000000000000000000000\
     000000000000000000000000000000ffffffff0903f55a3404f09fa693ffffffff02d8047607\
     000000001976a91425db9091e9786867e536f70089a5102523ab1d6a88ac20bcbe0000000000\
     17a914c20cd5bdf7964ca61764db66bc2531b1792a084d8700000000";

/// The script of its largest transparent output.
const REAL_MAINNET_V6_MINER_SCRIPT: &str = "76a91425db9091e9786867e536f70089a5102523ab1d6a88ac";

#[test]
fn extracts_miner_script_from_a_real_v6_coinbase() {
    let cb = hex::decode(
        REAL_MAINNET_V6_COINBASE_HEX
            .chars()
            .filter(|c| c.is_ascii_hexdigit())
            .collect::<String>(),
    )
    .expect("fixture is hex");

    // coinbase_miner_script takes a BLOCK payload: header, tx count, then txs.
    let mut block = vec![0u8; ZCASH_FULL_HEADER_SIZE];
    encode_compact_size(1, &mut block);
    block.extend_from_slice(&cb);

    assert_eq!(
        coinbase_miner_script(&block).as_deref(),
        Some(REAL_MAINNET_V6_MINER_SCRIPT),
        "v6 coinbase must yield the miner payout script"
    );
}

/// Build a minimal but valid v5 coinbase transaction with two transparent
/// outputs: a large "miner" output and a small "funding stream" output,
/// each carrying a distinct script. `zcash_primitives::Transaction::read`
/// parses this into a transparent bundle with both outputs.
fn v5_coinbase_two_outputs(
    miner_value: u64,
    miner_script: &[u8],
    funding_value: u64,
    funding_script: &[u8],
) -> Vec<u8> {
    let mut tx = Vec::new();
    // v5 header + version group + consensus branch id + lock_time + expiry.
    tx.extend_from_slice(&(OVERWINTERED_FLAG | 5).to_le_bytes());
    tx.extend_from_slice(&TX_V5_VERSION_GROUP_ID.to_le_bytes());
    tx.extend_from_slice(&NU5_CONSENSUS_BRANCH_ID.to_le_bytes());
    tx.extend_from_slice(&0u32.to_le_bytes()); // lock_time
    tx.extend_from_slice(&0u32.to_le_bytes()); // expiry_height

    // Transparent inputs: a single coinbase input (null prevout).
    encode_compact_size(1, &mut tx);
    tx.extend_from_slice(&[0u8; 32]); // prevout hash
    tx.extend_from_slice(&0xffff_ffffu32.to_le_bytes()); // prevout index
    encode_compact_size(3, &mut tx); // script_sig (BIP34 height-ish filler)
    tx.extend_from_slice(&[0x03, 0x01, 0x02]);
    tx.extend_from_slice(&0xffff_ffffu32.to_le_bytes()); // sequence

    // Transparent outputs: funding stream first, then the larger miner
    // output, to prove the parser picks by MAX value, not position.
    encode_compact_size(2, &mut tx);
    tx.extend_from_slice(&funding_value.to_le_bytes());
    encode_compact_size(funding_script.len() as u64, &mut tx);
    tx.extend_from_slice(funding_script);
    tx.extend_from_slice(&miner_value.to_le_bytes());
    encode_compact_size(miner_script.len() as u64, &mut tx);
    tx.extend_from_slice(miner_script);

    // Empty sapling + orchard bundles.
    encode_compact_size(0, &mut tx); // sapling spends
    encode_compact_size(0, &mut tx); // sapling outputs
    encode_compact_size(0, &mut tx); // orchard actions
    tx
}

fn block_from_coinbase(coinbase: &[u8]) -> Vec<u8> {
    let mut block = vec![0u8; ZCASH_FULL_HEADER_SIZE];
    encode_compact_size(1, &mut block);
    block.extend_from_slice(coinbase);
    block
}

/// A minimal valid v5 coinbase whose single input carries `script_sig`.
/// Same shape as `v5_coinbase_two_outputs`, but the input script -- where a
/// pool stamps its tag -- is caller-supplied instead of fixed filler.
fn v5_coinbase_with_script_sig(script_sig: &[u8]) -> Vec<u8> {
    let mut tx = Vec::new();
    tx.extend_from_slice(&(OVERWINTERED_FLAG | 5).to_le_bytes());
    tx.extend_from_slice(&TX_V5_VERSION_GROUP_ID.to_le_bytes());
    tx.extend_from_slice(&NU5_CONSENSUS_BRANCH_ID.to_le_bytes());
    tx.extend_from_slice(&0u32.to_le_bytes()); // lock_time
    tx.extend_from_slice(&0u32.to_le_bytes()); // expiry_height

    encode_compact_size(1, &mut tx); // one coinbase input
    tx.extend_from_slice(&[0u8; 32]); // prevout hash
    tx.extend_from_slice(&0xffff_ffffu32.to_le_bytes()); // prevout index
    encode_compact_size(script_sig.len() as u64, &mut tx);
    tx.extend_from_slice(script_sig);
    tx.extend_from_slice(&0xffff_ffffu32.to_le_bytes()); // sequence

    encode_compact_size(1, &mut tx); // one output
    tx.extend_from_slice(&625_000_000u64.to_le_bytes());
    let script = [0x76, 0xa9, 0x14, 0xde, 0xad, 0xbe, 0xef, 0x88, 0xac];
    encode_compact_size(script.len() as u64, &mut tx);
    tx.extend_from_slice(&script);

    encode_compact_size(0, &mut tx); // sapling spends
    encode_compact_size(0, &mut tx); // sapling outputs
    encode_compact_size(0, &mut tx); // orchard actions
    tx
}

#[test]
fn coinbase_text_is_none_for_a_real_v6_coinbase_with_no_printable_tag() {
    // The same real mainnet block-3431157 fixture the miner-script test
    // uses. Its scriptSig is `03 f5 5a 34 04 f0 9f a6 93`: a BIP34 push of
    // the block height (f5 5a 34, little-endian for 3431157) followed by a
    // 4-byte push (f0 9f a6 93) that is a single UTF-8 emoji codepoint --
    // not ASCII. After skipping the mandatory height push, nothing in this
    // particular block's extranonce is printable, so it legitimately
    // carries no coinbase tag.
    let cb = hex::decode(
        REAL_MAINNET_V6_COINBASE_HEX
            .chars()
            .filter(|c| c.is_ascii_hexdigit())
            .collect::<String>(),
    )
    .expect("fixture is hex");
    let block = block_from_coinbase(&cb);
    assert_eq!(coinbase_text(&block), None);
}

#[test]
fn coinbase_text_drops_non_printable_bytes() {
    // The BIP34 height and nonce live in the same script as any pool tag,
    // so a raw read is mostly control characters. Only printable ASCII
    // survives, which is what leaves a readable tag.
    let script = [
        0x03, 0x8c, 0x11, 0x35, b'2', b'M', b'i', b'n', 0x00, 0x1b, b'e', b'r',
    ];
    let block = block_from_coinbase(&v5_coinbase_with_script_sig(&script));
    assert_eq!(coinbase_text(&block).as_deref(), Some("2Miner"));
}

#[test]
fn coinbase_text_is_truncated_to_the_cap() {
    // The leading 0x00 is deliberately OUTSIDE the BIP34-push guard's
    // `1..=75` range, so this exercises the plain "long tag, no push"
    // path rather than the skip branch. `b'A'` (0x41 = 65) would have
    // fallen inside that range and been misread as a push-length byte --
    // this test would still have passed (the run is homogeneous, so
    // skipping a prefix of it changes nothing observable), but for the
    // wrong reason, silently exercising BIP34-skip instead of the
    // no-push path its name promises.
    let mut script = vec![0x00];
    script.extend(vec![b'A'; 200]);
    let block = block_from_coinbase(&v5_coinbase_with_script_sig(&script));
    assert_eq!(coinbase_text(&block).unwrap().len(), MAX_COINBASE_TEXT);
}

#[test]
fn coinbase_text_is_always_valid_ascii_even_across_the_cap() {
    // The cap counts retained characters, and only ASCII is retained, so a
    // multi-byte sequence can never be split across the boundary.
    //
    // This script's first byte, b'A' (0x41 = 65), DOES fall inside the
    // BIP34-push guard's `1..=75` range, but the guard also requires the
    // script to be longer than the claimed push (65 bytes need a 66-byte
    // script) -- and this script is exactly 65 bytes ((MAX_COINBASE_TEXT
    // - 1) 'A's + the 2-byte UTF-8 encoding of 'e'-acute), so the guard
    // is false and the skip correctly
    // does not fire. That is by construction here, not luck: any change
    // to MAX_COINBASE_TEXT that alters this length must re-check it.
    let mut script = vec![b'A'; MAX_COINBASE_TEXT - 1];
    script.extend_from_slice("é".as_bytes());
    let block = block_from_coinbase(&v5_coinbase_with_script_sig(&script));
    assert!(coinbase_text(&block).unwrap().is_ascii());
}

#[test]
fn coinbase_text_returns_none_on_garbage() {
    // Same failure discipline as coinbase_miner_script: this runs on the
    // block-relay hot path and must never fail or panic.
    assert_eq!(coinbase_text(&[]), None);
    assert_eq!(coinbase_text(&[0u8; 10]), None);
    assert_eq!(coinbase_text(&vec![0u8; ZCASH_FULL_HEADER_SIZE]), None);
}

#[test]
fn coinbase_text_returns_none_when_nothing_printable_remains() {
    let script = [0x03, 0x8c, 0x11, 0x35, 0x04, 0xf0, 0x9f, 0xa6];
    let block = block_from_coinbase(&v5_coinbase_with_script_sig(&script));
    assert_eq!(coinbase_text(&block), None);
}

#[test]
fn extracts_largest_value_output_script() {
    let miner_script = [0x76, 0xa9, 0x14, 0xde, 0xad, 0xbe, 0xef, 0x88, 0xac];
    let funding_script = [0xa9, 0x14, 0x01, 0x02, 0x87];
    let coinbase =
        v5_coinbase_two_outputs(625_000_000, &miner_script, 156_250_000, &funding_script);
    let block = block_from_coinbase(&coinbase);

    let script = coinbase_miner_script(&block).expect("coinbase must parse");
    assert_eq!(script, hex::encode(miner_script));
}

#[test]
fn ignores_output_order_when_picking_max() {
    // Same as above but with the miner output SMALLER than the funding one:
    // the funding script (now the largest) must be the one returned.
    let small_script = [0x11, 0x22];
    let large_script = [0x33, 0x44, 0x55];
    let coinbase = v5_coinbase_two_outputs(10, &small_script, 999, &large_script);
    let block = block_from_coinbase(&coinbase);

    let script = coinbase_miner_script(&block).expect("coinbase must parse");
    assert_eq!(script, hex::encode(large_script));
}

#[test]
fn short_payload_returns_none_without_panicking() {
    assert_eq!(coinbase_miner_script(&[]), None);
    assert_eq!(coinbase_miner_script(&[0u8; 10]), None);
    // Header present but truncated right after: no tx count / coinbase.
    assert_eq!(
        coinbase_miner_script(&vec![0u8; ZCASH_FULL_HEADER_SIZE]),
        None
    );
}

#[test]
fn coinbase_without_transparent_outputs_returns_none() {
    // A v5 tx with zero transparent inputs AND outputs has NO transparent
    // bundle, so there is no miner output to report.
    let mut tx = Vec::new();
    tx.extend_from_slice(&(OVERWINTERED_FLAG | 5).to_le_bytes());
    tx.extend_from_slice(&TX_V5_VERSION_GROUP_ID.to_le_bytes());
    tx.extend_from_slice(&NU5_CONSENSUS_BRANCH_ID.to_le_bytes());
    tx.extend_from_slice(&0u32.to_le_bytes()); // lock_time
    tx.extend_from_slice(&0u32.to_le_bytes()); // expiry_height
    encode_compact_size(0, &mut tx); // no transparent inputs
    encode_compact_size(0, &mut tx); // no transparent outputs
    encode_compact_size(0, &mut tx); // sapling spends
    encode_compact_size(0, &mut tx); // sapling outputs
    encode_compact_size(0, &mut tx); // orchard actions

    let block = block_from_coinbase(&tx);
    assert_eq!(coinbase_miner_script(&block), None);
}

#[test]
fn zero_tx_count_returns_none() {
    let mut block = vec![0u8; ZCASH_FULL_HEADER_SIZE];
    encode_compact_size(0, &mut block);
    assert_eq!(coinbase_miner_script(&block), None);
}

#[test]
fn of_equal_largest_outputs_the_last_is_the_miners() {
    let first = [0x33, 0x44];
    let last = [0x11, 0x22, 0x55];
    let coinbase = v5_coinbase_two_outputs(500, &last, 500, &first);
    let block = block_from_coinbase(&coinbase);

    assert_eq!(coinbase_miner_script(&block).as_deref(), Some("112255"));
}

#[test]
fn the_height_push_is_skipped_only_where_it_is_complete() {
    assert_eq!(script_tag(&[2, b'X', b'Y', b'a', b'b']).as_deref(), Some("ab"));
    assert_eq!(script_tag(&[75, b'X', b'Y']).as_deref(), Some("KXY"));
    assert_eq!(script_tag(&[76, b'X']).as_deref(), Some("LX"));
    assert_eq!(script_tag(&[2, b'X', b'Y']), None);
    assert_eq!(script_tag(&[]), None);
}

#[test]
fn the_tag_is_printable_and_bounded_whatever_the_miner_writes() {
    let script: Vec<u8> = (0u8..=255).collect();
    let tag = script_tag(&script).unwrap();
    assert_eq!(tag.len(), MAX_COINBASE_TEXT);
    assert!(tag.bytes().all(|b| (0x20..0x7f).contains(&b)));
    assert!(tag.starts_with(" !\"#$"));
}

#[test]
fn what_follows_the_coinbase_has_no_say() {
    let block = block_from_coinbase(&v5_coinbase_with_script_sig(b"\x03\x01\x02\x03/pool/"));
    let script = coinbase_miner_script(&block);
    let tag = coinbase_text(&block);
    assert_eq!(script.as_deref(), Some("76a914deadbeef88ac"));
    assert_eq!(tag.as_deref(), Some("/pool/"));
    for rest in [vec![0u8], vec![0xff; 40], block.clone()] {
        let mut longer = block.clone();
        longer.extend_from_slice(&rest);
        assert_eq!(coinbase_miner_script(&longer), script);
        assert_eq!(coinbase_text(&longer), tag);
    }
}
