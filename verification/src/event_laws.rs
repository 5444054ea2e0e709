//! What each event says, and what becomes of it in the log.

use vstd::prelude::*;

use crate::event::{
    addr_received_record, block_inv_record, block_received_record, connect_timing_record,
    getdata_sent_record, handshake_complete_record, handshake_timing_record, object_of,
    peer_connected_record, peer_discovered_record, peer_error_record, peer_rotation_record,
    peer_score_record, peer_version_record, ping_rtt_record, reject_record,
    relay_block_forwarded_record, stamped, tx_cache_snapshot_record, tx_feed_forwarded_record,
    tx_getdata_sent_record, tx_inv_record, tx_received_record, FieldView, RecordView,
};

verus! {

/// What a `p2p_peer_connected` event says.
pub proof fn law_peer_connected_says(peer: Seq<char>)
    ensures
        ({
            let record = peer_connected_record(peer);
            &&& record.len() == 2
            &&& record.contains(("event"@, FieldView::Text("p2p_peer_connected"@)))
            &&& record.contains(("peer"@, FieldView::Text(peer)))
        }),
{
    let record = peer_connected_record(peer);
    assert(record[0] == ("event"@, FieldView::Text("p2p_peer_connected"@)));
    assert(record[1] == ("peer"@, FieldView::Text(peer)));
}

/// What a `p2p_connect_timing` event says.
pub proof fn law_connect_timing_says(
    peer: Seq<char>,
    connect_ms: int,
)
    ensures
        ({
            let record = connect_timing_record(peer, connect_ms);
            &&& record.len() == 3
            &&& record.contains(("event"@, FieldView::Text("p2p_connect_timing"@)))
            &&& record.contains(("peer"@, FieldView::Text(peer)))
            &&& record.contains(("connect_ms"@, FieldView::Number(connect_ms)))
        }),
{
    let record = connect_timing_record(peer, connect_ms);
    assert(record[0] == ("event"@, FieldView::Text("p2p_connect_timing"@)));
    assert(record[1] == ("peer"@, FieldView::Text(peer)));
    assert(record[2] == ("connect_ms"@, FieldView::Number(connect_ms)));
}

/// What a `p2p_handshake_timing` event says.
pub proof fn law_handshake_timing_says(
    peer: Seq<char>,
    handshake_ms: int,
)
    ensures
        ({
            let record = handshake_timing_record(peer, handshake_ms);
            &&& record.len() == 3
            &&& record.contains(("event"@, FieldView::Text("p2p_handshake_timing"@)))
            &&& record.contains(("peer"@, FieldView::Text(peer)))
            &&& record.contains(("handshake_ms"@, FieldView::Number(handshake_ms)))
        }),
{
    let record = handshake_timing_record(peer, handshake_ms);
    assert(record[0] == ("event"@, FieldView::Text("p2p_handshake_timing"@)));
    assert(record[1] == ("peer"@, FieldView::Text(peer)));
    assert(record[2] == ("handshake_ms"@, FieldView::Number(handshake_ms)));
}

/// What a `p2p_ping_rtt` event says.
pub proof fn law_ping_rtt_says(
    peer: Seq<char>,
    nonce: int,
    rtt_ms: int,
)
    ensures
        ({
            let record = ping_rtt_record(peer, nonce, rtt_ms);
            &&& record.len() == 4
            &&& record.contains(("event"@, FieldView::Text("p2p_ping_rtt"@)))
            &&& record.contains(("peer"@, FieldView::Text(peer)))
            &&& record.contains(("nonce"@, FieldView::Number(nonce)))
            &&& record.contains(("rtt_ms"@, FieldView::Number(rtt_ms)))
        }),
{
    let record = ping_rtt_record(peer, nonce, rtt_ms);
    assert(record[0] == ("event"@, FieldView::Text("p2p_ping_rtt"@)));
    assert(record[1] == ("peer"@, FieldView::Text(peer)));
    assert(record[2] == ("nonce"@, FieldView::Number(nonce)));
    assert(record[3] == ("rtt_ms"@, FieldView::Number(rtt_ms)));
}

/// What a `p2p_peer_score` event says.
pub proof fn law_peer_score_says(
    peer: Seq<char>,
    score: int,
    reason: Seq<char>,
)
    ensures
        ({
            let record = peer_score_record(peer, score, reason);
            &&& record.len() == 4
            &&& record.contains(("event"@, FieldView::Text("p2p_peer_score"@)))
            &&& record.contains(("peer"@, FieldView::Text(peer)))
            &&& record.contains(("score"@, FieldView::Number(score)))
            &&& record.contains(("reason"@, FieldView::Text(reason)))
        }),
{
    let record = peer_score_record(peer, score, reason);
    assert(record[0] == ("event"@, FieldView::Text("p2p_peer_score"@)));
    assert(record[1] == ("peer"@, FieldView::Text(peer)));
    assert(record[2] == ("score"@, FieldView::Number(score)));
    assert(record[3] == ("reason"@, FieldView::Text(reason)));
}

/// What a `p2p_peer_version` event says.
pub proof fn law_peer_version_says(
    peer: Seq<char>,
    remote_version: int,
)
    ensures
        ({
            let record = peer_version_record(peer, remote_version);
            &&& record.len() == 3
            &&& record.contains(("event"@, FieldView::Text("p2p_peer_version"@)))
            &&& record.contains(("peer"@, FieldView::Text(peer)))
            &&& record.contains(("remote_version"@, FieldView::Number(remote_version)))
        }),
{
    let record = peer_version_record(peer, remote_version);
    assert(record[0] == ("event"@, FieldView::Text("p2p_peer_version"@)));
    assert(record[1] == ("peer"@, FieldView::Text(peer)));
    assert(record[2] == ("remote_version"@, FieldView::Number(remote_version)));
}

/// What a `p2p_handshake_complete` event says.
pub proof fn law_handshake_complete_says(peer: Seq<char>)
    ensures
        ({
            let record = handshake_complete_record(peer);
            &&& record.len() == 2
            &&& record.contains(("event"@, FieldView::Text("p2p_handshake_complete"@)))
            &&& record.contains(("peer"@, FieldView::Text(peer)))
        }),
{
    let record = handshake_complete_record(peer);
    assert(record[0] == ("event"@, FieldView::Text("p2p_handshake_complete"@)));
    assert(record[1] == ("peer"@, FieldView::Text(peer)));
}

/// What a `p2p_addr_received` event says.
pub proof fn law_addr_received_says(
    peer: Seq<char>,
    count: int,
    accepted: int,
)
    ensures
        ({
            let record = addr_received_record(peer, count, accepted);
            &&& record.len() == 4
            &&& record.contains(("event"@, FieldView::Text("p2p_addr_received"@)))
            &&& record.contains(("peer"@, FieldView::Text(peer)))
            &&& record.contains(("count"@, FieldView::Number(count)))
            &&& record.contains(("accepted"@, FieldView::Number(accepted)))
        }),
{
    let record = addr_received_record(peer, count, accepted);
    assert(record[0] == ("event"@, FieldView::Text("p2p_addr_received"@)));
    assert(record[1] == ("peer"@, FieldView::Text(peer)));
    assert(record[2] == ("count"@, FieldView::Number(count)));
    assert(record[3] == ("accepted"@, FieldView::Number(accepted)));
}

/// What a `p2p_peer_discovered` event says.
pub proof fn law_peer_discovered_says(
    source_peer: Seq<char>,
    peer: Seq<char>,
)
    ensures
        ({
            let record = peer_discovered_record(source_peer, peer);
            &&& record.len() == 3
            &&& record.contains(("event"@, FieldView::Text("p2p_peer_discovered"@)))
            &&& record.contains(("source_peer"@, FieldView::Text(source_peer)))
            &&& record.contains(("peer"@, FieldView::Text(peer)))
        }),
{
    let record = peer_discovered_record(source_peer, peer);
    assert(record[0] == ("event"@, FieldView::Text("p2p_peer_discovered"@)));
    assert(record[1] == ("source_peer"@, FieldView::Text(source_peer)));
    assert(record[2] == ("peer"@, FieldView::Text(peer)));
}

/// What a `p2p_peer_rotation` event says.
pub proof fn law_peer_rotation_says(
    peer: Seq<char>,
    outcome: Seq<char>,
    cooldown_ms: int,
    queue_len: int,
)
    ensures
        ({
            let record = peer_rotation_record(peer, outcome, cooldown_ms, queue_len);
            &&& record.len() == 5
            &&& record.contains(("event"@, FieldView::Text("p2p_peer_rotation"@)))
            &&& record.contains(("peer"@, FieldView::Text(peer)))
            &&& record.contains(("outcome"@, FieldView::Text(outcome)))
            &&& record.contains(("cooldown_ms"@, FieldView::Number(cooldown_ms)))
            &&& record.contains(("queue_len"@, FieldView::Number(queue_len)))
        }),
{
    let record = peer_rotation_record(peer, outcome, cooldown_ms, queue_len);
    assert(record[0] == ("event"@, FieldView::Text("p2p_peer_rotation"@)));
    assert(record[1] == ("peer"@, FieldView::Text(peer)));
    assert(record[2] == ("outcome"@, FieldView::Text(outcome)));
    assert(record[3] == ("cooldown_ms"@, FieldView::Number(cooldown_ms)));
    assert(record[4] == ("queue_len"@, FieldView::Number(queue_len)));
}

/// What a `p2p_reject` event says.
pub proof fn law_reject_says(
    peer: Seq<char>,
    bytes: int,
)
    ensures
        ({
            let record = reject_record(peer, bytes);
            &&& record.len() == 3
            &&& record.contains(("event"@, FieldView::Text("p2p_reject"@)))
            &&& record.contains(("peer"@, FieldView::Text(peer)))
            &&& record.contains(("bytes"@, FieldView::Number(bytes)))
        }),
{
    let record = reject_record(peer, bytes);
    assert(record[0] == ("event"@, FieldView::Text("p2p_reject"@)));
    assert(record[1] == ("peer"@, FieldView::Text(peer)));
    assert(record[2] == ("bytes"@, FieldView::Number(bytes)));
}

/// What a `p2p_block_inv` event says.
pub proof fn law_block_inv_says(
    peer: Seq<char>,
    hash: Seq<char>,
)
    ensures
        ({
            let record = block_inv_record(peer, hash);
            &&& record.len() == 3
            &&& record.contains(("event"@, FieldView::Text("p2p_block_inv"@)))
            &&& record.contains(("peer"@, FieldView::Text(peer)))
            &&& record.contains(("hash"@, FieldView::Text(hash)))
        }),
{
    let record = block_inv_record(peer, hash);
    assert(record[0] == ("event"@, FieldView::Text("p2p_block_inv"@)));
    assert(record[1] == ("peer"@, FieldView::Text(peer)));
    assert(record[2] == ("hash"@, FieldView::Text(hash)));
}

/// What a `p2p_getdata_sent` event says.
pub proof fn law_getdata_sent_says(
    peer: Seq<char>,
    hash: Seq<char>,
)
    ensures
        ({
            let record = getdata_sent_record(peer, hash);
            &&& record.len() == 3
            &&& record.contains(("event"@, FieldView::Text("p2p_getdata_sent"@)))
            &&& record.contains(("peer"@, FieldView::Text(peer)))
            &&& record.contains(("hash"@, FieldView::Text(hash)))
        }),
{
    let record = getdata_sent_record(peer, hash);
    assert(record[0] == ("event"@, FieldView::Text("p2p_getdata_sent"@)));
    assert(record[1] == ("peer"@, FieldView::Text(peer)));
    assert(record[2] == ("hash"@, FieldView::Text(hash)));
}

/// What a `p2p_tx_inv` event says.
pub proof fn law_tx_inv_says(
    peer: Seq<char>,
    kind: Seq<char>,
    hash: Seq<char>,
)
    ensures
        ({
            let record = tx_inv_record(peer, kind, hash);
            &&& record.len() == 4
            &&& record.contains(("event"@, FieldView::Text("p2p_tx_inv"@)))
            &&& record.contains(("peer"@, FieldView::Text(peer)))
            &&& record.contains(("kind"@, FieldView::Text(kind)))
            &&& record.contains(("hash"@, FieldView::Text(hash)))
        }),
{
    let record = tx_inv_record(peer, kind, hash);
    assert(record[0] == ("event"@, FieldView::Text("p2p_tx_inv"@)));
    assert(record[1] == ("peer"@, FieldView::Text(peer)));
    assert(record[2] == ("kind"@, FieldView::Text(kind)));
    assert(record[3] == ("hash"@, FieldView::Text(hash)));
}

/// What a `p2p_tx_getdata_sent` event says.
pub proof fn law_tx_getdata_sent_says(
    peer: Seq<char>,
    kind: Seq<char>,
    hash: Seq<char>,
)
    ensures
        ({
            let record = tx_getdata_sent_record(peer, kind, hash);
            &&& record.len() == 4
            &&& record.contains(("event"@, FieldView::Text("p2p_tx_getdata_sent"@)))
            &&& record.contains(("peer"@, FieldView::Text(peer)))
            &&& record.contains(("kind"@, FieldView::Text(kind)))
            &&& record.contains(("hash"@, FieldView::Text(hash)))
        }),
{
    let record = tx_getdata_sent_record(peer, kind, hash);
    assert(record[0] == ("event"@, FieldView::Text("p2p_tx_getdata_sent"@)));
    assert(record[1] == ("peer"@, FieldView::Text(peer)));
    assert(record[2] == ("kind"@, FieldView::Text(kind)));
    assert(record[3] == ("hash"@, FieldView::Text(hash)));
}

/// What a `p2p_tx_feed_forwarded` event says.
pub proof fn law_tx_feed_forwarded_says(
    peer: Seq<char>,
    kind: Seq<char>,
    hash: Seq<char>,
    bytes: int,
)
    ensures
        ({
            let record = tx_feed_forwarded_record(peer, kind, hash, bytes);
            &&& record.len() == 5
            &&& record.contains(("event"@, FieldView::Text("p2p_tx_feed_forwarded"@)))
            &&& record.contains(("peer"@, FieldView::Text(peer)))
            &&& record.contains(("kind"@, FieldView::Text(kind)))
            &&& record.contains(("hash"@, FieldView::Text(hash)))
            &&& record.contains(("bytes"@, FieldView::Number(bytes)))
        }),
{
    let record = tx_feed_forwarded_record(peer, kind, hash, bytes);
    assert(record[0] == ("event"@, FieldView::Text("p2p_tx_feed_forwarded"@)));
    assert(record[1] == ("peer"@, FieldView::Text(peer)));
    assert(record[2] == ("kind"@, FieldView::Text(kind)));
    assert(record[3] == ("hash"@, FieldView::Text(hash)));
    assert(record[4] == ("bytes"@, FieldView::Number(bytes)));
}

/// What a `p2p_tx_received` event says.
pub proof fn law_tx_received_says(
    peer: Seq<char>,
    kind: Seq<char>,
    hash: Seq<char>,
    bytes: int,
    cache_entries: int,
    cache_bytes: int,
    evicted_entries: int,
    evicted_bytes: int,
    dropped_too_large: int,
)
    ensures
        ({
            let record = tx_received_record(
                peer,
                kind,
                hash,
                bytes,
                cache_entries,
                cache_bytes,
                evicted_entries,
                evicted_bytes,
                dropped_too_large,
            );
            &&& record.len() == 10
            &&& record.contains(("event"@, FieldView::Text("p2p_tx_received"@)))
            &&& record.contains(("peer"@, FieldView::Text(peer)))
            &&& record.contains(("kind"@, FieldView::Text(kind)))
            &&& record.contains(("hash"@, FieldView::Text(hash)))
            &&& record.contains(("bytes"@, FieldView::Number(bytes)))
            &&& record.contains(("cache_entries"@, FieldView::Number(cache_entries)))
            &&& record.contains(("cache_bytes"@, FieldView::Number(cache_bytes)))
            &&& record.contains(("evicted_entries"@, FieldView::Number(evicted_entries)))
            &&& record.contains(("evicted_bytes"@, FieldView::Number(evicted_bytes)))
            &&& record.contains(("dropped_too_large"@, FieldView::Number(dropped_too_large)))
        }),
{
    let record = tx_received_record(
        peer,
        kind,
        hash,
        bytes,
        cache_entries,
        cache_bytes,
        evicted_entries,
        evicted_bytes,
        dropped_too_large,
    );
    assert(record[0] == ("event"@, FieldView::Text("p2p_tx_received"@)));
    assert(record[1] == ("peer"@, FieldView::Text(peer)));
    assert(record[2] == ("kind"@, FieldView::Text(kind)));
    assert(record[3] == ("hash"@, FieldView::Text(hash)));
    assert(record[4] == ("bytes"@, FieldView::Number(bytes)));
    assert(record[5] == ("cache_entries"@, FieldView::Number(cache_entries)));
    assert(record[6] == ("cache_bytes"@, FieldView::Number(cache_bytes)));
    assert(record[7] == ("evicted_entries"@, FieldView::Number(evicted_entries)));
    assert(record[8] == ("evicted_bytes"@, FieldView::Number(evicted_bytes)));
    assert(record[9] == ("dropped_too_large"@, FieldView::Number(dropped_too_large)));
}

/// What a `p2p_tx_cache_snapshot` event says.
pub proof fn law_tx_cache_snapshot_says(
    entries: int,
    bytes: int,
    max_entries: int,
    max_bytes: int,
    max_tx_bytes: int,
    evicted_entries_total: int,
    evicted_bytes_total: int,
    dropped_too_large_total: int,
)
    ensures
        ({
            let record = tx_cache_snapshot_record(
                entries,
                bytes,
                max_entries,
                max_bytes,
                max_tx_bytes,
                evicted_entries_total,
                evicted_bytes_total,
                dropped_too_large_total,
            );
            &&& record.len() == 9
            &&& record.contains(("event"@, FieldView::Text("p2p_tx_cache_snapshot"@)))
            &&& record.contains(("entries"@, FieldView::Number(entries)))
            &&& record.contains(("bytes"@, FieldView::Number(bytes)))
            &&& record.contains(("max_entries"@, FieldView::Number(max_entries)))
            &&& record.contains(("max_bytes"@, FieldView::Number(max_bytes)))
            &&& record.contains(("max_tx_bytes"@, FieldView::Number(max_tx_bytes)))
            &&& record.contains(
                ("evicted_entries_total"@, FieldView::Number(evicted_entries_total)),
            )
            &&& record.contains(("evicted_bytes_total"@, FieldView::Number(evicted_bytes_total)))
            &&& record.contains(
                ("dropped_too_large_total"@, FieldView::Number(dropped_too_large_total)),
            )
        }),
{
    let record = tx_cache_snapshot_record(
        entries,
        bytes,
        max_entries,
        max_bytes,
        max_tx_bytes,
        evicted_entries_total,
        evicted_bytes_total,
        dropped_too_large_total,
    );
    assert(record[0] == ("event"@, FieldView::Text("p2p_tx_cache_snapshot"@)));
    assert(record[1] == ("entries"@, FieldView::Number(entries)));
    assert(record[2] == ("bytes"@, FieldView::Number(bytes)));
    assert(record[3] == ("max_entries"@, FieldView::Number(max_entries)));
    assert(record[4] == ("max_bytes"@, FieldView::Number(max_bytes)));
    assert(record[5] == ("max_tx_bytes"@, FieldView::Number(max_tx_bytes)));
    assert(record[6] == ("evicted_entries_total"@, FieldView::Number(evicted_entries_total)));
    assert(record[7] == ("evicted_bytes_total"@, FieldView::Number(evicted_bytes_total)));
    assert(record[8] == ("dropped_too_large_total"@, FieldView::Number(dropped_too_large_total)));
}

/// What a `p2p_block_received` event says.
pub proof fn law_block_received_says(
    peer: Seq<char>,
    hash: Seq<char>,
    consensus_hash: Seq<char>,
    bytes: int,
    miner_script: Option<Seq<char>>,
    miner_tag: Option<Seq<char>>,
)
    ensures
        ({
            let record = block_received_record(
                peer,
                hash,
                consensus_hash,
                bytes,
                miner_script,
                miner_tag,
            );
            &&& record.len() == 5 + (if miner_script is Some {
                1int
            } else {
                0
            }) + (if miner_tag is Some {
                1int
            } else {
                0
            })
            &&& record.contains(("event"@, FieldView::Text("p2p_block_received"@)))
            &&& record.contains(("peer"@, FieldView::Text(peer)))
            &&& record.contains(("hash"@, FieldView::Text(hash)))
            &&& record.contains(("consensus_hash"@, FieldView::Text(consensus_hash)))
            &&& record.contains(("bytes"@, FieldView::Number(bytes)))
            &&& miner_script is Some ==> record.contains(
                ("miner_script"@, FieldView::Text(miner_script->0)),
            )
            &&& miner_tag is Some ==> record.contains(
                ("miner_tag"@, FieldView::Text(miner_tag->0)),
            )
        }),
{
    let record = block_received_record(peer, hash, consensus_hash, bytes, miner_script, miner_tag);
    assert(record[0] == ("event"@, FieldView::Text("p2p_block_received"@)));
    assert(record[1] == ("peer"@, FieldView::Text(peer)));
    assert(record[2] == ("hash"@, FieldView::Text(hash)));
    assert(record[3] == ("consensus_hash"@, FieldView::Text(consensus_hash)));
    assert(record[4] == ("bytes"@, FieldView::Number(bytes)));
    if let Some(script) = miner_script {
        assert(record[5] == ("miner_script"@, FieldView::Text(script)));
    }
    if let Some(tag) = miner_tag {
        assert(record.last() == ("miner_tag"@, FieldView::Text(tag)));
    }
}

/// What a `p2p_relay_block_forwarded` event says.
pub proof fn law_relay_block_forwarded_says(
    peer: Seq<char>,
    hash: Seq<char>,
    bytes: int,
    tx_count: int,
    mode: Seq<char>,
    relay_objects: int,
)
    ensures
        ({
            let record = relay_block_forwarded_record(
                peer,
                hash,
                bytes,
                tx_count,
                mode,
                relay_objects,
            );
            &&& record.len() == 7
            &&& record.contains(("event"@, FieldView::Text("p2p_relay_block_forwarded"@)))
            &&& record.contains(("peer"@, FieldView::Text(peer)))
            &&& record.contains(("hash"@, FieldView::Text(hash)))
            &&& record.contains(("bytes"@, FieldView::Number(bytes)))
            &&& record.contains(("tx_count"@, FieldView::Number(tx_count)))
            &&& record.contains(("mode"@, FieldView::Text(mode)))
            &&& record.contains(("relay_objects"@, FieldView::Number(relay_objects)))
        }),
{
    let record = relay_block_forwarded_record(peer, hash, bytes, tx_count, mode, relay_objects);
    assert(record[0] == ("event"@, FieldView::Text("p2p_relay_block_forwarded"@)));
    assert(record[1] == ("peer"@, FieldView::Text(peer)));
    assert(record[2] == ("hash"@, FieldView::Text(hash)));
    assert(record[3] == ("bytes"@, FieldView::Number(bytes)));
    assert(record[4] == ("tx_count"@, FieldView::Number(tx_count)));
    assert(record[5] == ("mode"@, FieldView::Text(mode)));
    assert(record[6] == ("relay_objects"@, FieldView::Number(relay_objects)));
}

/// What a `p2p_peer_error` event says.
pub proof fn law_peer_error_says(
    peer: Seq<char>,
    error: Seq<char>,
)
    ensures
        ({
            let record = peer_error_record(peer, error);
            &&& record.len() == 3
            &&& record.contains(("event"@, FieldView::Text("p2p_peer_error"@)))
            &&& record.contains(("peer"@, FieldView::Text(peer)))
            &&& record.contains(("error"@, FieldView::Text(error)))
        }),
{
    let record = peer_error_record(peer, error);
    assert(record[0] == ("event"@, FieldView::Text("p2p_peer_error"@)));
    assert(record[1] == ("peer"@, FieldView::Text(peer)));
    assert(record[2] == ("error"@, FieldView::Text(error)));
}

/// An event in the log is the object of its fields and of the time at which it was
/// observed, in milliseconds: each field has the value that was added last under its name,
/// and no other name is there.
pub proof fn law_logged_event_keeps_its_fields(
    record: RecordView,
    observed_at_unix_ms: int,
    key: Seq<char>,
)
    ensures
        ({
            let object = object_of(stamped(record, observed_at_unix_ms));
            &&& object.contains_key("observed_at_unix_ms"@)
            &&& object["observed_at_unix_ms"@] == FieldView::Number(observed_at_unix_ms)
            &&& key != "observed_at_unix_ms"@ ==> (object.contains_key(key)
                <==> object_of(record).contains_key(key))
            &&& key != "observed_at_unix_ms"@ && object.contains_key(key) ==> object[key]
                == object_of(record)[key]
        }),
{
    let whole = stamped(record, observed_at_unix_ms);
    assert(whole.drop_last() =~= record);
    assert(whole.last() == ("observed_at_unix_ms"@, FieldView::Number(observed_at_unix_ms)));
}

/// Of fields with the same name the last one counts.
pub proof fn law_last_field_of_a_name_counts(fields: RecordView, i: int)
    requires
        0 <= i < fields.len(),
        forall|j: int| i < j < fields.len() ==> (#[trigger] fields[j]).0 != fields[i].0,
    ensures
        object_of(fields).contains_key(fields[i].0),
        object_of(fields)[fields[i].0] == fields[i].1,
    decreases fields.len(),
{
    let front = fields.drop_last();
    if i < front.len() {
        assert(front[i] == fields[i]);
        assert(fields[fields.len() - 1].0 != fields[i].0);
        assert forall|j: int| i < j < front.len() implies (#[trigger] front[j]).0
            != front[i].0 by {
            assert(fields[j].0 != fields[i].0);
        }
        law_last_field_of_a_name_counts(front, i);
    }
}

/// The object of some fields has no other names than the fields.
pub proof fn law_object_has_no_other_names(fields: RecordView, key: Seq<char>)
    requires
        forall|i: int| 0 <= i < fields.len() ==> (#[trigger] fields[i]).0 != key,
    ensures
        !object_of(fields).contains_key(key),
    decreases fields.len(),
{
    if fields.len() > 0 {
        let front = fields.drop_last();
        assert forall|i: int| 0 <= i < front.len() implies (#[trigger] front[i]).0 != key by {
            assert(fields[i].0 != key);
        }
        law_object_has_no_other_names(front, key);
        assert(fields[fields.len() - 1].0 != key);
    }
}

} // verus!
