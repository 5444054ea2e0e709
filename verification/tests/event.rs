use sovright_p2p_ingress::event::{EventField, EventRecord, EventSink, FieldValue};

fn row(record: EventRecord) -> serde_json::Value {
    let line = EventSink::write(record, 1_700_000_000_123).unwrap();
    serde_json::from_str(&line).unwrap()
}

#[test]
fn writes_peer_timing_events() {
    let rows = vec![
        row(EventSink::p2p_connect_timing("127.0.0.1:8233", 12)),
        row(EventSink::p2p_handshake_timing("127.0.0.1:8233", 34)),
        row(EventSink::p2p_ping_rtt("127.0.0.1:8233", 42, 56)),
        row(EventSink::p2p_peer_score("127.0.0.1:8233", 100, "first_block")),
        row(EventSink::p2p_peer_rotation("127.0.0.1:8233", "rotated", 78, 9)),
        row(EventSink::p2p_relay_block_forwarded(
            "127.0.0.1:8233",
            "abcd",
            1234,
            2,
            "compact_block",
            1,
        )),
        row(EventSink::p2p_tx_cache_snapshot(7, 700, 10, 1_000, 100, 2, 200, 1)),
        row(EventSink::p2p_tx_feed_forwarded("127.0.0.1:8233", "wtx", "feedhash", 321)),
    ];

    assert_eq!(rows[0]["event"], "p2p_connect_timing");
    assert_eq!(rows[0]["connect_ms"], 12);
    assert_eq!(rows[1]["event"], "p2p_handshake_timing");
    assert_eq!(rows[1]["handshake_ms"], 34);
    assert_eq!(rows[2]["event"], "p2p_ping_rtt");
    assert_eq!(rows[2]["nonce"], 42);
    assert_eq!(rows[2]["rtt_ms"], 56);
    assert_eq!(rows[3]["event"], "p2p_peer_score");
    assert_eq!(rows[3]["score"], 100);
    assert_eq!(rows[3]["reason"], "first_block");
    assert_eq!(rows[4]["event"], "p2p_peer_rotation");
    assert_eq!(rows[4]["outcome"], "rotated");
    assert_eq!(rows[4]["cooldown_ms"], 78);
    assert_eq!(rows[4]["queue_len"], 9);
    assert_eq!(rows[5]["event"], "p2p_relay_block_forwarded");
    assert_eq!(rows[5]["hash"], "abcd");
    assert_eq!(rows[5]["bytes"], 1234);
    assert_eq!(rows[5]["tx_count"], 2);
    assert_eq!(rows[5]["mode"], "compact_block");
    assert_eq!(rows[5]["relay_objects"], 1);
    assert_eq!(rows[6]["event"], "p2p_tx_cache_snapshot");
    assert_eq!(rows[6]["entries"], 7);
    assert_eq!(rows[6]["bytes"], 700);
    assert_eq!(rows[6]["max_entries"], 10);
    assert_eq!(rows[6]["max_bytes"], 1_000);
    assert_eq!(rows[6]["max_tx_bytes"], 100);
    assert_eq!(rows[6]["evicted_entries_total"], 2);
    assert_eq!(rows[6]["evicted_bytes_total"], 200);
    assert_eq!(rows[6]["dropped_too_large_total"], 1);
    assert_eq!(rows[7]["event"], "p2p_tx_feed_forwarded");
    assert_eq!(rows[7]["kind"], "wtx");
    assert_eq!(rows[7]["hash"], "feedhash");
    assert_eq!(rows[7]["bytes"], 321);
}

#[test]
fn writes_miner_tag_on_block_received() {
    let lines = vec![
        row(EventSink::p2p_block_received(
            "127.0.0.1:8233",
            "abcd",
            "ef01",
            1234,
            Some("76a914aa"),
            Some("/NiceHash/"),
        )),
        // Absent, not null: a missing key and a null mean the same thing to the
        // consumer, and omitting keeps the hot-path log line smaller.
        row(EventSink::p2p_block_received(
            "127.0.0.1:8233",
            "abcd",
            "ef01",
            1234,
            Some("76a914aa"),
            None,
        )),
    ];

    assert_eq!(lines[0]["miner_tag"], "/NiceHash/");
    assert_eq!(lines[0]["miner_script"], "76a914aa");
    assert!(lines[1].get("miner_tag").is_none());
}

#[test]
fn every_event_is_one_line_that_carries_its_time() {
    let line = EventSink::write(
        EventSink::p2p_peer_error("1.2.3.4:8233", "broken\npipe \"x\""),
        1_700_000_000_123,
    )
    .unwrap();
    assert!(!line.contains('\n'));
    let value: serde_json::Value = serde_json::from_str(&line).unwrap();
    assert_eq!(value["event"], "p2p_peer_error");
    assert_eq!(value["peer"], "1.2.3.4:8233");
    assert_eq!(value["error"], "broken\npipe \"x\"");
    assert_eq!(value["observed_at_unix_ms"], 1_700_000_000_123u64);
}

#[test]
fn the_exact_line_of_a_short_event() {
    let line = EventSink::write(EventSink::p2p_reject("p", 3), 7).unwrap();
    assert_eq!(
        line,
        "{\"bytes\":3,\"event\":\"p2p_reject\",\"observed_at_unix_ms\":7,\"peer\":\"p\"}"
    );
}

#[test]
fn the_other_events_name_their_fields() {
    let version = row(EventSink::p2p_peer_version("p", -7));
    assert_eq!(version["event"], "p2p_peer_version");
    assert_eq!(version["remote_version"], -7);
    let addr = row(EventSink::p2p_addr_received("p", 5, 2));
    assert_eq!(addr["count"], 5);
    assert_eq!(addr["accepted"], 2);
    let found = row(EventSink::p2p_peer_discovered("s", "p"));
    assert_eq!(found["source_peer"], "s");
    assert_eq!(found["peer"], "p");
    let tx = row(EventSink::p2p_tx_received("p", "wtx", "h", 1, 2, 3, 4, 5, 6));
    assert_eq!(tx["event"], "p2p_tx_received");
    assert_eq!(tx["bytes"], 1);
    assert_eq!(tx["cache_entries"], 2);
    assert_eq!(tx["cache_bytes"], 3);
    assert_eq!(tx["evicted_entries"], 4);
    assert_eq!(tx["evicted_bytes"], 5);
    assert_eq!(tx["dropped_too_large"], 6);
    assert_eq!(row(EventSink::p2p_peer_connected("p"))["event"], "p2p_peer_connected");
    assert_eq!(row(EventSink::p2p_handshake_complete("p"))["event"], "p2p_handshake_complete");
    assert_eq!(row(EventSink::p2p_block_inv("p", "h"))["event"], "p2p_block_inv");
    assert_eq!(row(EventSink::p2p_getdata_sent("p", "h"))["hash"], "h");
    assert_eq!(row(EventSink::p2p_tx_inv("p", "tx", "h"))["kind"], "tx");
    assert_eq!(
        row(EventSink::p2p_tx_getdata_sent("p", "tx", "h"))["event"],
        "p2p_tx_getdata_sent"
    );
}

#[test]
fn each_event_adds_one_line_to_the_log() {
    let mut log = "what was there\n".to_string();
    EventSink::append(&mut log, EventSink::p2p_peer_error("p", "a\nb"), 1).unwrap();
    EventSink::append(&mut log, EventSink::p2p_reject("p", 2), 3).unwrap();
    assert!(log.ends_with('\n'));
    let lines: Vec<&str> = log.lines().collect();
    assert_eq!(lines.len(), 3);
    assert_eq!(lines[0], "what was there");
    let first: serde_json::Value = serde_json::from_str(lines[1]).unwrap();
    assert_eq!(first["error"], "a\nb");
    assert_eq!(first["observed_at_unix_ms"], 1);
    let second: serde_json::Value = serde_json::from_str(lines[2]).unwrap();
    assert_eq!(second["event"], "p2p_reject");
    assert_eq!(second["bytes"], 2);
}

#[test]
fn events_that_differ_have_lines_that_differ() {
    let lines = [
        EventSink::write(EventSink::p2p_peer_error("a\"", "b"), 1).unwrap(),
        EventSink::write(EventSink::p2p_peer_error("a", "\"b"), 1).unwrap(),
        EventSink::write(EventSink::p2p_peer_error("a\\\"", "b"), 1).unwrap(),
        EventSink::write(EventSink::p2p_peer_error("a\"", "b"), 2).unwrap(),
    ];
    for i in 0..lines.len() {
        for j in 0..i {
            assert_ne!(lines[i], lines[j]);
        }
    }
}

#[test]
fn of_fields_with_the_same_name_the_last_counts() {
    let mut record = EventSink::p2p_reject("first", 3);
    record.fields.push(EventField {
        key: "peer".to_string(),
        value: FieldValue::Text("last".to_string()),
    });
    assert_eq!(row(record)["peer"], "last");
    let empty = EventRecord { fields: vec![] };
    assert_eq!(EventSink::write(empty, 1).unwrap(), "{\"observed_at_unix_ms\":1}");
}
