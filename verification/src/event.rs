//! The events that the ingress reports, one JSON object for each.

use vstd::prelude::*;
use vstd::string::StringExecFns;

use crate::bytes::lemma_first_index;
use crate::error::IngressError;
use crate::text::str_view;

verus! {

/// The value of one field of an event.
#[derive(Debug, Clone, PartialEq, Eq)]
pub enum FieldValue {
    Text(String),
    Unsigned(u64),
    Signed(i64),
}

/// The mathematical value of a [`FieldValue`].
pub enum FieldView {
    Text(Seq<char>),
    Number(int),
}

impl View for FieldValue {
    type V = FieldView;

    open spec fn view(&self) -> FieldView {
        match self {
            FieldValue::Text(text) => FieldView::Text(text@),
            FieldValue::Unsigned(n) => FieldView::Number(*n as int),
            FieldValue::Signed(n) => FieldView::Number(*n as int),
        }
    }
}

/// One field of an event: a name and a value.
#[derive(Debug, Clone, PartialEq, Eq)]
pub struct EventField {
    pub key: String,
    pub value: FieldValue,
}

/// One event: its fields, in the order in which they were added.
#[derive(Debug, Clone, PartialEq, Eq)]
pub struct EventRecord {
    pub fields: Vec<EventField>,
}

/// The mathematical value of an [`EventRecord`].
pub type RecordView = Seq<(Seq<char>, FieldView)>;

impl View for EventRecord {
    type V = RecordView;

    open spec fn view(&self) -> RecordView {
        Seq::new(self.fields@.len(), |i: int| (self.fields@[i].key@, self.fields@[i].value@))
    }
}

/// A field that holds text.
pub open spec fn text_field(key: &str, value: Seq<char>) -> (Seq<char>, FieldView) {
    (key@, FieldView::Text(value))
}

/// A field that holds a number.
pub open spec fn number_field(key: &str, value: int) -> (Seq<char>, FieldView) {
    (key@, FieldView::Number(value))
}

/// The fields that an optional text adds: one where it is there, none where it is not.
pub open spec fn optional_text_field(key: &str, value: Option<Seq<char>>) -> RecordView {
    match value {
        Some(text) => seq![text_field(key, text)],
        None => seq![],
    }
}

impl EventRecord {
    /// An event of the given kind, with no other field yet.
    fn new(event: &str) -> (record: EventRecord)
        ensures
            record@ == seq![text_field("event", event@)],
    {
        let record = EventRecord { fields: Vec::new() };
        assert(record@ =~= seq![]);
        record.text("event", event)
    }

    /// The event with one more field.
    fn field(self, key: &str, value: FieldValue) -> (record: EventRecord)
        ensures
            record@ == self@.push((key@, value@)),
    {
        let mut fields = self.fields;
        fields.push(EventField { key: key.to_owned(), value });
        let record = EventRecord { fields };
        assert(record@ =~= self@.push((key@, value@)));
        record
    }

    /// The event with one more field, which holds text.
    fn text(self, key: &str, value: &str) -> (record: EventRecord)
        ensures
            record@ == self@.push(text_field(key, value@)),
    {
        self.field(key, FieldValue::Text(value.to_owned()))
    }

    /// The event with one more field, which holds a number.
    fn number(self, key: &str, value: u64) -> (record: EventRecord)
        ensures
            record@ == self@.push(number_field(key, value as int)),
    {
        self.field(key, FieldValue::Unsigned(value))
    }

    /// The event with one more field, which holds a number with a sign.
    fn signed(self, key: &str, value: i64) -> (record: EventRecord)
        ensures
            record@ == self@.push(number_field(key, value as int)),
    {
        self.field(key, FieldValue::Signed(value))
    }

    /// The event with the text as a field, where there is a text.
    fn optional_text(self, key: &str, value: Option<&str>) -> (record: EventRecord)
        ensures
            record@ == self@ + optional_text_field(key, str_view(value)),
    {
        match value {
            Some(text) => {
                let record = self.text(key, text);
                assert(record@ =~= self@ + optional_text_field(key, str_view(value)));
                record
            },
            None => {
                assert(self@ =~= self@ + optional_text_field(key, str_view(value)));
                self
            },
        }
    }
}

/// The object that the fields make up. Of fields with the same name the last one counts.
pub open spec fn object_of(fields: Seq<(Seq<char>, FieldView)>) -> Map<Seq<char>, FieldView>
    decreases fields.len(),
{
    if fields.len() == 0 {
        Map::empty()
    } else {
        object_of(fields.drop_last()).insert(fields.last().0, fields.last().1)
    }
}

/// The JSON text of an object with these fields.
pub uninterp spec fn json_text(fields: Seq<(Seq<char>, FieldView)>) -> Seq<char>;

/// The error of the JSON encoder.
#[verifier::external_type_specification]
#[verifier::external_body]
pub struct ExJsonError(serde_json::Error);

/// Calls `serde_json::to_string` on an object into which the fields of `record` were
/// inserted in their order, so that of fields with the same name the last one counts.
/// Encoding fails only where a value refuses it or a key is no text; objects of texts and
/// integers are always encoded. The result is a function of the fields. The encoder
/// escapes control characters inside texts and writes none between fields, so no line
/// break is in it. Quotes and backslashes inside texts are escaped too, so a reader of the
/// text gets the object back: no event with another object has the same text.
#[verifier::external_body]
fn json_encode(record: &EventRecord) -> (result: Result<String, serde_json::Error>)
    ensures
        match result {
            Ok(line) => {
                &&& line@ == json_text(record@)
                &&& !line@.contains('\n')
                &&& forall|other: EventRecord| #[trigger]
                    json_text(other@) == line@ ==> object_of(other@) == object_of(record@)
            },
            Err(_) => false,
        },
{
    let mut object: serde_json::Map<String, serde_json::Value> = serde_json::Map::new();
    for f in &record.fields {
        let value = match &f.value {
            FieldValue::Text(text) => serde_json::Value::from(text.as_str()),
            FieldValue::Unsigned(n) => serde_json::Value::from(*n),
            FieldValue::Signed(n) => serde_json::Value::from(*n),
        };
        object.insert(f.key.clone(), value);
    }
    serde_json::to_string(&serde_json::Value::Object(object))
}

/// Calls `to_string` of the encoder's error, which nothing is promised of.
#[verifier::external_body]
fn json_error_text(error: &serde_json::Error) -> (text: String)
{
    error.to_string()
}

/// The fields of an event together with the time at which it was observed.
pub open spec fn stamped(record: RecordView, observed_at_unix_ms: int) -> RecordView {
    record.push(number_field("observed_at_unix_ms", observed_at_unix_ms))
}

/// The text of a log with these lines.
pub open spec fn log_text(lines: Seq<Seq<char>>) -> Seq<char>
    decreases lines.len(),
{
    if lines.len() == 0 {
        seq![]
    } else {
        log_text(lines.drop_last()) + lines.last().push('\n')
    }
}

/// The lines that a reader finds in a log.
pub open spec fn log_lines(text: Seq<char>) -> Seq<Seq<char>>
    decreases text.len(),
{
    match text.index_of_first('\n') {
        Some(k) if 0 <= k < text.len() => seq![text.take(k)] + log_lines(text.skip(k + 1)),
        _ => if text.len() == 0 {
            seq![]
        } else {
            seq![text]
        },
    }
}

/// The fields of a `p2p_peer_connected` event.
pub open spec fn peer_connected_record(peer: Seq<char>) -> RecordView {
    seq![
        text_field("event", "p2p_peer_connected"@),
        text_field("peer", peer),
    ]
}

/// The fields of a `p2p_connect_timing` event.
pub open spec fn connect_timing_record(peer: Seq<char>, connect_ms: int) -> RecordView {
    seq![
        text_field("event", "p2p_connect_timing"@),
        text_field("peer", peer),
        number_field("connect_ms", connect_ms),
    ]
}

/// The fields of a `p2p_handshake_timing` event.
pub open spec fn handshake_timing_record(peer: Seq<char>, handshake_ms: int) -> RecordView {
    seq![
        text_field("event", "p2p_handshake_timing"@),
        text_field("peer", peer),
        number_field("handshake_ms", handshake_ms),
    ]
}

/// The fields of a `p2p_ping_rtt` event.
pub open spec fn ping_rtt_record(peer: Seq<char>, nonce: int, rtt_ms: int) -> RecordView {
    seq![
        text_field("event", "p2p_ping_rtt"@),
        text_field("peer", peer),
        number_field("nonce", nonce),
        number_field("rtt_ms", rtt_ms),
    ]
}

/// The fields of a `p2p_peer_score` event.
pub open spec fn peer_score_record(peer: Seq<char>, score: int, reason: Seq<char>) -> RecordView {
    seq![
        text_field("event", "p2p_peer_score"@),
        text_field("peer", peer),
        number_field("score", score),
        text_field("reason", reason),
    ]
}

/// The fields of a `p2p_peer_version` event.
pub open spec fn peer_version_record(peer: Seq<char>, remote_version: int) -> RecordView {
    seq![
        text_field("event", "p2p_peer_version"@),
        text_field("peer", peer),
        number_field("remote_version", remote_version),
    ]
}

/// The fields of a `p2p_handshake_complete` event.
pub open spec fn handshake_complete_record(peer: Seq<char>) -> RecordView {
    seq![
        text_field("event", "p2p_handshake_complete"@),
        text_field("peer", peer),
    ]
}

/// The fields of a `p2p_addr_received` event.
pub open spec fn addr_received_record(peer: Seq<char>, count: int, accepted: int) -> RecordView {
    seq![
        text_field("event", "p2p_addr_received"@),
        text_field("peer", peer),
        number_field("count", count),
        number_field("accepted", accepted),
    ]
}

/// The fields of a `p2p_peer_discovered` event.
pub open spec fn peer_discovered_record(source_peer: Seq<char>, peer: Seq<char>) -> RecordView {
    seq![
        text_field("event", "p2p_peer_discovered"@),
        text_field("source_peer", source_peer),
        text_field("peer", peer),
    ]
}

/// The fields of a `p2p_peer_rotation` event.
pub open spec fn peer_rotation_record(
    peer: Seq<char>,
    outcome: Seq<char>,
    cooldown_ms: int,
    queue_len: int,
) -> RecordView {
    seq![
        text_field("event", "p2p_peer_rotation"@),
        text_field("peer", peer),
        text_field("outcome", outcome),
        number_field("cooldown_ms", cooldown_ms),
        number_field("queue_len", queue_len),
    ]
}

/// The fields of a `p2p_reject` event.
pub open spec fn reject_record(peer: Seq<char>, bytes: int) -> RecordView {
    seq![
        text_field("event", "p2p_reject"@),
        text_field("peer", peer),
        number_field("bytes", bytes),
    ]
}

/// The fields of a `p2p_block_inv` event.
pub open spec fn block_inv_record(peer: Seq<char>, hash: Seq<char>) -> RecordView {
    seq![
        text_field("event", "p2p_block_inv"@),
        text_field("peer", peer),
        text_field("hash", hash),
    ]
}

/// The fields of a `p2p_getdata_sent` event.
pub open spec fn getdata_sent_record(peer: Seq<char>, hash: Seq<char>) -> RecordView {
    seq![
        text_field("event", "p2p_getdata_sent"@),
        text_field("peer", peer),
        text_field("hash", hash),
    ]
}

/// The fields of a `p2p_tx_inv` event.
pub open spec fn tx_inv_record(peer: Seq<char>, kind: Seq<char>, hash: Seq<char>) -> RecordView {
    seq![
        text_field("event", "p2p_tx_inv"@),
        text_field("peer", peer),
        text_field("kind", kind),
        text_field("hash", hash),
    ]
}

/// The fields of a `p2p_tx_getdata_sent` event.
pub open spec fn tx_getdata_sent_record(
    peer: Seq<char>,
    kind: Seq<char>,
    hash: Seq<char>,
) -> RecordView {
    seq![
        text_field("event", "p2p_tx_getdata_sent"@),
        text_field("peer", peer),
        text_field("kind", kind),
        text_field("hash", hash),
    ]
}

/// The fields of a `p2p_tx_feed_forwarded` event.
pub open spec fn tx_feed_forwarded_record(
    peer: Seq<char>,
    kind: Seq<char>,
    hash: Seq<char>,
    bytes: int,
) -> RecordView {
    seq![
        text_field("event", "p2p_tx_feed_forwarded"@),
        text_field("peer", peer),
        text_field("kind", kind),
        text_field("hash", hash),
        number_field("bytes", bytes),
    ]
}

/// The fields of a `p2p_tx_received` event.
pub open spec fn tx_received_record(
    peer: Seq<char>,
    kind: Seq<char>,
    hash: Seq<char>,
    bytes: int,
    cache_entries: int,
    cache_bytes: int,
    evicted_entries: int,
    evicted_bytes: int,
    dropped_too_large: int,
) -> RecordView {
    seq![
        text_field("event", "p2p_tx_received"@),
        text_field("peer", peer),
        text_field("kind", kind),
        text_field("hash", hash),
        number_field("bytes", bytes),
        number_field("cache_entries", cache_entries),
        number_field("cache_bytes", cache_bytes),
        number_field("evicted_entries", evicted_entries),
        number_field("evicted_bytes", evicted_bytes),
        number_field("dropped_too_large", dropped_too_large),
    ]
}

/// The fields of a `p2p_tx_cache_snapshot` event.
pub open spec fn tx_cache_snapshot_record(
    entries: int,
    bytes: int,
    max_entries: int,
    max_bytes: int,
    max_tx_bytes: int,
    evicted_entries_total: int,
    evicted_bytes_total: int,
    dropped_too_large_total: int,
) -> RecordView {
    seq![
        text_field("event", "p2p_tx_cache_snapshot"@),
        number_field("entries", entries),
        number_field("bytes", bytes),
        number_field("max_entries", max_entries),
        number_field("max_bytes", max_bytes),
        number_field("max_tx_bytes", max_tx_bytes),
        number_field("evicted_entries_total", evicted_entries_total),
        number_field("evicted_bytes_total", evicted_bytes_total),
        number_field("dropped_too_large_total", dropped_too_large_total),
    ]
}

/// The fields of a `p2p_block_received` event.
pub open spec fn block_received_record(
    peer: Seq<char>,
    hash: Seq<char>,
    consensus_hash: Seq<char>,
    bytes: int,
    miner_script: Option<Seq<char>>,
    miner_tag: Option<Seq<char>>,
) -> RecordView {
    seq![
        text_field("event", "p2p_block_received"@),
        text_field("peer", peer),
        text_field("hash", hash),
        text_field("consensus_hash", consensus_hash),
        number_field("bytes", bytes),
    ] + optional_text_field("miner_script", miner_script) + optional_text_field("miner_tag", miner_tag)
}

/// The fields of a `p2p_relay_block_forwarded` event.
pub open spec fn relay_block_forwarded_record(
    peer: Seq<char>,
    hash: Seq<char>,
    bytes: int,
    tx_count: int,
    mode: Seq<char>,
    relay_objects: int,
) -> RecordView {
    seq![
        text_field("event", "p2p_relay_block_forwarded"@),
        text_field("peer", peer),
        text_field("hash", hash),
        number_field("bytes", bytes),
        number_field("tx_count", tx_count),
        text_field("mode", mode),
        number_field("relay_objects", relay_objects),
    ]
}

/// The fields of a `p2p_peer_error` event.
pub open spec fn peer_error_record(peer: Seq<char>, error: Seq<char>) -> RecordView {
    seq![
        text_field("event", "p2p_peer_error"@),
        text_field("peer", peer),
        text_field("error", error),
    ]
}

/// The vocabulary of the event log: one function for each kind of event, and
/// `write`, which gives the line of the log.
#[derive(Debug, Clone, Copy)]
pub struct EventSink;

impl EventSink {
    /// A connection to a peer stands.
    pub fn p2p_peer_connected(peer: &str) -> (record: EventRecord)
        ensures
            record@ == peer_connected_record(peer@),
    {
        EventRecord::new("p2p_peer_connected").text("peer", peer)
    }

    /// How long it took to connect to a peer.
    pub fn p2p_connect_timing(peer: &str, connect_ms: u128) -> (record: EventRecord)
        requires
            connect_ms <= u64::MAX,
        ensures
            record@ == connect_timing_record(peer@, connect_ms as int),
    {
        EventRecord::new("p2p_connect_timing")
            .text("peer", peer)
            .number("connect_ms", connect_ms as u64)
    }

    /// How long the handshake with a peer took.
    pub fn p2p_handshake_timing(peer: &str, handshake_ms: u128) -> (record: EventRecord)
        requires
            handshake_ms <= u64::MAX,
        ensures
            record@ == handshake_timing_record(peer@, handshake_ms as int),
    {
        EventRecord::new("p2p_handshake_timing")
            .text("peer", peer)
            .number("handshake_ms", handshake_ms as u64)
    }

    /// How long a peer took to answer a ping.
    pub fn p2p_ping_rtt(peer: &str, nonce: u64, rtt_ms: u128) -> (record: EventRecord)
        requires
            rtt_ms <= u64::MAX,
        ensures
            record@ == ping_rtt_record(peer@, nonce as int, rtt_ms as int),
    {
        EventRecord::new("p2p_ping_rtt")
            .text("peer", peer)
            .number("nonce", nonce)
            .number("rtt_ms", rtt_ms as u64)
    }

    /// The score of a peer changed.
    pub fn p2p_peer_score(peer: &str, score: i64, reason: &str) -> (record: EventRecord)
        ensures
            record@ == peer_score_record(peer@, score as int, reason@),
    {
        EventRecord::new("p2p_peer_score")
            .text("peer", peer)
            .signed("score", score)
            .text("reason", reason)
    }

    /// The protocol version that a peer speaks.
    pub fn p2p_peer_version(peer: &str, remote_version: i32) -> (record: EventRecord)
        ensures
            record@ == peer_version_record(peer@, remote_version as int),
    {
        EventRecord::new("p2p_peer_version")
            .text("peer", peer)
            .signed("remote_version", remote_version as i64)
    }

    /// The handshake with a peer is complete.
    pub fn p2p_handshake_complete(peer: &str) -> (record: EventRecord)
        ensures
            record@ == handshake_complete_record(peer@),
    {
        EventRecord::new("p2p_handshake_complete").text("peer", peer)
    }

    /// A peer sent addresses, and so many of them were new.
    pub fn p2p_addr_received(peer: &str, count: usize, accepted: usize) -> (record: EventRecord)
        ensures
            record@ == addr_received_record(peer@, count as int, accepted as int),
    {
        EventRecord::new("p2p_addr_received")
            .text("peer", peer)
            .number("count", count as u64)
            .number("accepted", accepted as u64)
    }

    /// A peer told of another one.
    pub fn p2p_peer_discovered(source_peer: &str, peer: &str) -> (record: EventRecord)
        ensures
            record@ == peer_discovered_record(source_peer@, peer@),
    {
        EventRecord::new("p2p_peer_discovered").text("source_peer", source_peer).text("peer", peer)
    }

    /// A peer was given back to the crawler.
    pub fn p2p_peer_rotation(
        peer: &str,
        outcome: &str,
        cooldown_ms: u128,
        queue_len: usize,
    ) -> (record: EventRecord)
        requires
            cooldown_ms <= u64::MAX,
        ensures
            record@ == peer_rotation_record(peer@, outcome@, cooldown_ms as int, queue_len as int),
    {
        EventRecord::new("p2p_peer_rotation")
            .text("peer", peer)
            .text("outcome", outcome)
            .number("cooldown_ms", cooldown_ms as u64)
            .number("queue_len", queue_len as u64)
    }

    /// A peer rejected a message.
    pub fn p2p_reject(peer: &str, bytes: usize) -> (record: EventRecord)
        ensures
            record@ == reject_record(peer@, bytes as int),
    {
        EventRecord::new("p2p_reject").text("peer", peer).number("bytes", bytes as u64)
    }

    /// A peer announced a block.
    pub fn p2p_block_inv(peer: &str, hash: &str) -> (record: EventRecord)
        ensures
            record@ == block_inv_record(peer@, hash@),
    {
        EventRecord::new("p2p_block_inv").text("peer", peer).text("hash", hash)
    }

    /// A block was asked for.
    pub fn p2p_getdata_sent(peer: &str, hash: &str) -> (record: EventRecord)
        ensures
            record@ == getdata_sent_record(peer@, hash@),
    {
        EventRecord::new("p2p_getdata_sent").text("peer", peer).text("hash", hash)
    }

    /// A peer announced a transaction that is then asked for.
    pub fn p2p_tx_inv(peer: &str, kind: &str, hash: &str) -> (record: EventRecord)
        ensures
            record@ == tx_inv_record(peer@, kind@, hash@),
    {
        EventRecord::new("p2p_tx_inv").text("peer", peer).text("kind", kind).text("hash", hash)
    }

    /// A transaction was asked for.
    pub fn p2p_tx_getdata_sent(peer: &str, kind: &str, hash: &str) -> (record: EventRecord)
        ensures
            record@ == tx_getdata_sent_record(peer@, kind@, hash@),
    {
        EventRecord::new("p2p_tx_getdata_sent")
            .text("peer", peer)
            .text("kind", kind)
            .text("hash", hash)
    }

    /// A transaction was handed to the feed.
    pub fn p2p_tx_feed_forwarded(
        peer: &str,
        kind: &str,
        hash: &str,
        bytes: usize,
    ) -> (record: EventRecord)
        ensures
            record@ == tx_feed_forwarded_record(peer@, kind@, hash@, bytes as int),
    {
        EventRecord::new("p2p_tx_feed_forwarded")
            .text("peer", peer)
            .text("kind", kind)
            .text("hash", hash)
            .number("bytes", bytes as u64)
    }

    /// A transaction arrived and was offered to the cache.
    pub fn p2p_tx_received(
        peer: &str,
        kind: &str,
        hash: &str,
        bytes: usize,
        cache_entries: usize,
        cache_bytes: usize,
        evicted_entries: usize,
        evicted_bytes: usize,
        dropped_too_large: usize,
    ) -> (record: EventRecord)
        ensures
            record@ == tx_received_record(
                peer@,
                kind@,
                hash@,
                bytes as int,
                cache_entries as int,
                cache_bytes as int,
                evicted_entries as int,
                evicted_bytes as int,
                dropped_too_large as int,
            ),
    {
        EventRecord::new("p2p_tx_received")
            .text("peer", peer)
            .text("kind", kind)
            .text("hash", hash)
            .number("bytes", bytes as u64)
            .number("cache_entries", cache_entries as u64)
            .number("cache_bytes", cache_bytes as u64)
            .number("evicted_entries", evicted_entries as u64)
            .number("evicted_bytes", evicted_bytes as u64)
            .number("dropped_too_large", dropped_too_large as u64)
    }

    /// The state of the transaction cache.
    pub fn p2p_tx_cache_snapshot(
        entries: usize,
        bytes: usize,
        max_entries: usize,
        max_bytes: usize,
        max_tx_bytes: usize,
        evicted_entries_total: usize,
        evicted_bytes_total: usize,
        dropped_too_large_total: usize,
    ) -> (record: EventRecord)
        ensures
            record@ == tx_cache_snapshot_record(
                entries as int,
                bytes as int,
                max_entries as int,
                max_bytes as int,
                max_tx_bytes as int,
                evicted_entries_total as int,
                evicted_bytes_total as int,
                dropped_too_large_total as int,
            ),
    {
        EventRecord::new("p2p_tx_cache_snapshot")
            .number("entries", entries as u64)
            .number("bytes", bytes as u64)
            .number("max_entries", max_entries as u64)
            .number("max_bytes", max_bytes as u64)
            .number("max_tx_bytes", max_tx_bytes as u64)
            .number("evicted_entries_total", evicted_entries_total as u64)
            .number("evicted_bytes_total", evicted_bytes_total as u64)
            .number("dropped_too_large_total", dropped_too_large_total as u64)
    }

    /// A block arrived. `miner_script` and `miner_tag` are left out, not null, where the
    /// coinbase did not tell.
    pub fn p2p_block_received(
        peer: &str,
        hash: &str,
        consensus_hash: &str,
        bytes: usize,
        miner_script: Option<&str>,
        miner_tag: Option<&str>,
    ) -> (record: EventRecord)
        ensures
            record@ == block_received_record(
                peer@,
                hash@,
                consensus_hash@,
                bytes as int,
                str_view(miner_script),
                str_view(miner_tag),
            ),
    {
        let record = EventRecord::new("p2p_block_received")
            .text("peer", peer)
            .text("hash", hash)
            .text("consensus_hash", consensus_hash)
            .number("bytes", bytes as u64);
        assert(record@ =~= seq![
            text_field("event", "p2p_block_received"@),
            text_field("peer", peer@),
            text_field("hash", hash@),
            text_field("consensus_hash", consensus_hash@),
            number_field("bytes", bytes as int),
        ]);
        record.optional_text("miner_script", miner_script).optional_text("miner_tag", miner_tag)
    }

    /// A block was handed to the relay; `bytes` is what the relay took.
    pub fn p2p_relay_block_forwarded(
        peer: &str,
        hash: &str,
        bytes: usize,
        tx_count: usize,
        mode: &str,
        relay_objects: usize,
    ) -> (record: EventRecord)
        ensures
            record@ == relay_block_forwarded_record(
                peer@,
                hash@,
                bytes as int,
                tx_count as int,
                mode@,
                relay_objects as int,
            ),
    {
        EventRecord::new("p2p_relay_block_forwarded")
            .text("peer", peer)
            .text("hash", hash)
            .number("bytes", bytes as u64)
            .number("tx_count", tx_count as u64)
            .text("mode", mode)
            .number("relay_objects", relay_objects as u64)
    }

    /// Something went wrong with a peer.
    pub fn p2p_peer_error(peer: &str, error: &str) -> (record: EventRecord)
        ensures
            record@ == peer_error_record(peer@, error@),
    {
        EventRecord::new("p2p_peer_error").text("peer", peer).text("error", error)
    }

    /// The line of the log that reports `record` as observed at the given time, in
    /// milliseconds since the Unix epoch. Every event can be written.
    pub fn write(record: EventRecord, observed_at_unix_ms: u128) -> (result: Result<
        String,
        IngressError,
    >)
        requires
            observed_at_unix_ms <= u64::MAX,
        ensures
            match result {
                Ok(line) => {
                    &&& line@ == json_text(stamped(record@, observed_at_unix_ms as int))
                    &&& !line@.contains('\n')
                    &&& forall|other: EventRecord| #[trigger]
                        json_text(other@) == line@ ==> object_of(other@) == object_of(
                            stamped(record@, observed_at_unix_ms as int),
                        )
                },
                Err(_) => false,
            },
    {
        let complete = record.number("observed_at_unix_ms", observed_at_unix_ms as u64);
        match json_encode(&complete) {
            Ok(line) => Ok(line),
            Err(cause) => {
                let mut text: String = "event serialization failed: ".to_owned();
                text.append(json_error_text(&cause).as_str());
                Err(IngressError::Wire(text))
            },
        }
    }

    /// Appends the line that reports `record` to the text of the log. What was there
    /// stays, and every event can be appended.
    pub fn append(log: &mut String, record: EventRecord, observed_at_unix_ms: u128) -> (result:
        Result<(), IngressError>)
        requires
            observed_at_unix_ms <= u64::MAX,
        ensures
            result is Ok,
            final(log)@ == old(log)@ + json_text(
                stamped(record@, observed_at_unix_ms as int),
            ).push('\n'),
            !json_text(stamped(record@, observed_at_unix_ms as int)).contains('\n'),
            forall|other: EventRecord| #[trigger]
                json_text(other@) == json_text(stamped(record@, observed_at_unix_ms as int))
                    ==> object_of(other@) == object_of(
                    stamped(record@, observed_at_unix_ms as int),
                ),
    {
        match Self::write(record, observed_at_unix_ms) {
            Ok(line) => {
                log.append(line.as_str());
                log.push('\n');
                assert(log@ =~= old(log)@ + line@.push('\n'));
                Ok(())
            },
            Err(error) => Err(error),
        }
    }
}

/// The first line of a log, and the rest.
proof fn lemma_log_starts_with_first(lines: Seq<Seq<char>>)
    requires
        lines.len() > 0,
    ensures
        log_text(lines) == lines[0].push('\n') + log_text(lines.skip(1)),
    decreases lines.len(),
{
    if lines.len() == 1 {
        assert(lines.drop_last() =~= seq![]);
        assert(lines.skip(1) =~= seq![]);
        assert(log_text(lines) =~= lines[0].push('\n') + log_text(lines.skip(1)));
    } else {
        lemma_log_starts_with_first(lines.drop_last());
        assert(lines.drop_last().skip(1) =~= lines.skip(1).drop_last());
        assert(log_text(lines) =~= lines[0].push('\n') + log_text(lines.skip(1)));
    }
}

/// A log is read as the lines that were written to it, in their order, where no line holds
/// a line break; so each event that is appended adds exactly one line, at the end.
pub proof fn law_log_is_read_line_by_line(lines: Seq<Seq<char>>, line: Seq<char>)
    requires
        forall|i: int| 0 <= i < lines.len() ==> !(#[trigger] lines[i]).contains('\n'),
        !line.contains('\n'),
    ensures
        log_lines(log_text(lines)) == lines,
        log_lines(log_text(lines) + line.push('\n')) == lines.push(line),
{
    lemma_log_lines(lines);
    let more = lines.push(line);
    assert(more.drop_last() =~= lines);
    assert forall|i: int| 0 <= i < more.len() implies !(#[trigger] more[i]).contains('\n') by {
        if i < lines.len() {
            assert(more[i] == lines[i]);
        }
    }
    lemma_log_lines(more);
}

proof fn lemma_log_lines(lines: Seq<Seq<char>>)
    requires
        forall|i: int| 0 <= i < lines.len() ==> !(#[trigger] lines[i]).contains('\n'),
    ensures
        log_lines(log_text(lines)) == lines,
    decreases lines.len(),
{
    let text = log_text(lines);
    text.index_of_first_ensures('\n');
    if lines.len() == 0 {
        assert(log_lines(text) =~= lines);
    } else {
        lemma_log_starts_with_first(lines);
        let first = lines[0];
        let rest = lines.skip(1);
        assert forall|i: int| 0 <= i < rest.len() implies !(#[trigger] rest[i]).contains('\n') by {
            assert(rest[i] == lines[i + 1]);
        }
        lemma_log_lines(rest);
        let k = first.len() as int;
        assert(text[k] == '\n');
        assert forall|j: int| 0 <= j < k implies text[j] != '\n' by {
            assert(text[j] == first[j]);
            assert(first.contains(first[j]));
        }
        lemma_first_index(text, '\n', k);
        assert(text.take(k) =~= first);
        assert(text.skip(k + 1) =~= log_text(rest));
        assert(log_lines(text) == seq![text.take(k)] + log_lines(text.skip(k + 1)));
        assert(seq![first] + rest =~= lines);
    }
}

} // verus!
