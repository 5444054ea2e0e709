//! One session with a peer: what to do about each message, given all that was said
//! before.

use std::collections::VecDeque;
use vstd::prelude::*;
use vstd::string::StringExecFns;

use crate::addr::PeerAddr;
use crate::bytes::{le_bytes, push_all, push_le, Hash32};
use crate::coinbase::{block_miner_script, block_tag, coinbase_miner_script, coinbase_text};
use crate::config::Config;
use crate::crawler::NANOS_PER_MILLI;
use crate::error::{ErrorView, IngressError};
use crate::event::{
    addr_received_record, block_inv_record, block_received_record, connect_timing_record,
    getdata_sent_record, handshake_complete_record, handshake_timing_record, peer_connected_record,
    peer_error_record, peer_version_record, ping_rtt_record, reject_record,
    relay_block_forwarded_record, tx_cache_snapshot_record, tx_feed_forwarded_record,
    tx_getdata_sent_record, tx_inv_record, tx_received_record, EventRecord, EventSink, RecordView,
};
use crate::hash::{
    block_hash, display_hash, inventory_hash_to_display, short_header, ZCASH_FULL_HEADER_SIZE,
};
use crate::peer::{
    acceptable_remote_version, block_hash_of, block_place, identities, insert_hash,
    is_acceptable_remote_version, pong_nonce, pong_number, queue_tx_request,
    received_block_display_hash, remote_version, tx_place, version_bytes, version_in,
    version_payload, with_element, without_first, without_identity, wtxid_for_received_tx, TxQueues,
    MIN_ACCEPTABLE_REMOTE_VERSION,
};
use crate::relay_bridge::ForwardedBlock;
use crate::text::{push_signed_decimal, same_text, signed_decimal, str_view, text_view};
use crate::transaction::SOVRIGHT_P2P_CONSENSUS_BRANCH_ID;
use crate::tx_inventory::{
    law_key_inventory_round_trip, payload_identity, TxInventoryKey, WtxId,
};
use crate::wire::{
    addr_entries, encode_inventory, inventory_message, listed_inventory, parse_addr,
    parse_inventory, truncated, Inventory,
};

verus! {

/// How long to wait for the next message of a peer, in seconds.
pub const READ_TIMEOUT_SECS: u64 = 90;

/// What the session has to know of the settings and of what stands around it.
#[derive(Debug, Clone, Copy, PartialEq, Eq, Structural)]
pub struct SessionSettings {
    pub max_addr_per_message: usize,
    pub tx_request_limit_per_inv: usize,
    pub score_block_received: i64,
    pub score_relay_forwarded: i64,
    /// There is a relay that blocks are forwarded to.
    pub has_relay: bool,
    /// There is a cache that transactions are kept in.
    pub has_tx_cache: bool,
    /// There is a feed that transactions are handed to.
    pub has_tx_feed: bool,
}

impl SessionSettings {
    /// The settings that a configuration asks for.
    pub fn new(config: &Config, has_relay: bool, has_tx_cache: bool, has_tx_feed: bool) -> (settings:
        SessionSettings)
        ensures
            settings == (SessionSettings {
                max_addr_per_message: config.crawler_max_addr_per_message,
                tx_request_limit_per_inv: config.tx_request_limit_per_inv,
                score_block_received: config.peer_score_block_received,
                score_relay_forwarded: config.peer_score_relay_forwarded,
                has_relay,
                has_tx_cache,
                has_tx_feed,
            }),
    {
        SessionSettings {
            max_addr_per_message: config.crawler_max_addr_per_message,
            tx_request_limit_per_inv: config.tx_request_limit_per_inv,
            score_block_received: config.peer_score_block_received,
            score_relay_forwarded: config.peer_score_relay_forwarded,
            has_relay,
            has_tx_cache,
            has_tx_feed,
        }
    }

    /// Transactions are wanted by someone.
    pub open spec fn wants_tx(self) -> bool {
        self.has_tx_cache || self.has_tx_feed
    }
}

/// Something to do, in the order in which it is given. The session is over where one
/// of them cannot be done.
#[derive(Debug)]
pub enum PeerAction {
    /// Send a message to the peer, then go on with [`PeerSession::on_sent`].
    Send { command: &'static str, payload: Vec<u8> },
    /// Report an event.
    Emit(EventRecord),
    /// Hand the addresses to the crawler, then go on with [`PeerSession::on_discovered`].
    Discover(Vec<PeerAddr>),
    /// Credit the peer for announcing the block of this hash.
    ScoreAnnouncement(Hash32),
    /// Add to the score of the peer.
    ScorePeer { delta: i64, reason: &'static str },
    /// Forward the block of the message, then go on with [`PeerSession::on_forwarded`].
    /// The text is the hash of the block.
    ForwardBlock(String),
    /// Keep the transaction of the message, then go on with [`PeerSession::on_cached`].
    CacheTx(WtxId),
    /// Hand the transaction of the message on, then go on with [`PeerSession::on_fed`].
    FeedTx(WtxId),
    /// End the session with this error.
    Fail(IngressError),
}

/// The mathematical value of a [`PeerAction`].
pub enum ActionView {
    Send(Seq<char>, Seq<u8>),
    Emit(RecordView),
    Discover(Seq<PeerAddr>),
    ScoreAnnouncement(Hash32),
    ScorePeer(i64, Seq<char>),
    ForwardBlock(Seq<char>),
    CacheTx(WtxId),
    FeedTx(WtxId),
    Fail(ErrorView),
}

impl View for PeerAction {
    type V = ActionView;

    open spec fn view(&self) -> ActionView {
        match self {
            PeerAction::Send { command, payload } => ActionView::Send(command@, payload@),
            PeerAction::Emit(record) => ActionView::Emit(record@),
            PeerAction::Discover(addrs) => ActionView::Discover(addrs@),
            PeerAction::ScoreAnnouncement(hash) => ActionView::ScoreAnnouncement(*hash),
            PeerAction::ScorePeer { delta, reason } => ActionView::ScorePeer(*delta, reason@),
            PeerAction::ForwardBlock(display) => ActionView::ForwardBlock(display@),
            PeerAction::CacheTx(id) => ActionView::CacheTx(*id),
            PeerAction::FeedTx(id) => ActionView::FeedTx(*id),
            PeerAction::Fail(error) => ActionView::Fail(error@),
        }
    }
}

/// The values of a list of actions.
pub open spec fn actions_view(actions: Seq<PeerAction>) -> Seq<ActionView> {
    Seq::new(actions.len(), |i: int| actions[i]@)
}

/// What the cache did with a transaction.
#[derive(Debug, Clone, Copy, PartialEq, Eq, Structural)]
pub struct TxCacheOutcome {
    pub entries: usize,
    pub bytes: usize,
    pub evicted_entries: usize,
    pub evicted_bytes: usize,
    pub dropped_too_large: usize,
}

/// The state of the transaction cache.
#[derive(Debug, Clone, Copy, PartialEq, Eq, Structural)]
pub struct TxCacheSnapshot {
    pub entries: usize,
    pub bytes: usize,
    pub max_entries: usize,
    pub max_bytes: usize,
    pub max_tx_bytes: usize,
    pub evicted_entries_total: usize,
    pub evicted_bytes_total: usize,
    pub dropped_too_large_total: usize,
}

/// The mathematical value of a [`PeerSession`].
pub struct SessionView {
    /// The peer, as text.
    pub peer: Seq<char>,
    pub settings: SessionSettings,
    pub saw_verack: bool,
    pub sent_verack: bool,
    /// When the `version` message was out; until then, when the session began.
    pub handshake_started: u128,
    /// The number of the ping that is not answered yet.
    pub ping_nonce: Option<u64>,
    /// When that ping was out.
    pub ping_started: Option<u128>,
    /// The blocks that the peer told of.
    pub seen_blocks: Seq<Hash32>,
    /// The blocks that the peer was asked for.
    pub requested_blocks: Seq<Hash32>,
    /// The blocks that are still awaited.
    pub pending_blocks: Seq<Hash32>,
    pub seen_txs: Seq<TxInventoryKey>,
    pub requested_txs: Seq<TxInventoryKey>,
    pub pending_txs: Seq<TxInventoryKey>,
}

/// What came of a message: the session afterwards, and what to do.
pub struct Reaction {
    pub session: SessionView,
    pub actions: Seq<ActionView>,
}

/// What came of the entries of an `inv` message so far.
pub struct InvProgress {
    pub session: SessionView,
    pub block_requests: Seq<Inventory>,
    pub tx_requests: Seq<Inventory>,
    pub actions: Seq<ActionView>,
}

/// The time between two points, in milliseconds.
pub open spec fn elapsed_ms(started: u128, now: u128) -> int {
    if now > started {
        (now - started) / NANOS_PER_MILLI as int
    } else {
        0
    }
}

/// The error of a peer that speaks too old a version.
pub open spec fn too_old(version: int) -> ErrorView {
    ErrorView::Wire(
        "remote protocol version too old: "@ + signed_decimal(version) + " < "@ + signed_decimal(
            MIN_ACCEPTABLE_REMOTE_VERSION as int,
        ),
    )
}

/// One report for each block that was asked for.
pub open spec fn block_request_reports(peer: Seq<char>, requests: Seq<Inventory>) -> Seq<ActionView> {
    Seq::new(
        requests.len(),
        |i: int| ActionView::Emit(getdata_sent_record(peer, display_hash(requests[i].hash@))),
    )
}

/// One report for each transaction that was asked for.
pub open spec fn tx_request_reports(peer: Seq<char>, requests: Seq<Inventory>) -> Seq<ActionView> {
    Seq::new(
        requests.len(),
        |i: int|
            {
                let key = TxInventoryKey::from_inventory(&requests[i])->0;
                ActionView::Emit(
                    tx_getdata_sent_record(peer, key.kind()@, display_hash(key.txid()@)),
                )
            },
    )
}

/// The request for some blocks or transactions, where there are any, and the reports
/// of it.
pub open spec fn request_actions(
    requests: Seq<Inventory>,
    reports: Seq<ActionView>,
) -> Seq<ActionView> {
    if requests.len() == 0 {
        seq![]
    } else {
        seq![ActionView::Send("getdata"@, inventory_message(requests))] + reports
    }
}

impl SessionView {
    /// A session at its start.
    pub open spec fn fresh(peer: Seq<char>, settings: SessionSettings, now: u128) -> SessionView {
        SessionView {
            peer,
            settings,
            saw_verack: false,
            sent_verack: false,
            handshake_started: now,
            ping_nonce: None,
            ping_started: None,
            seen_blocks: seq![],
            requested_blocks: seq![],
            pending_blocks: seq![],
            seen_txs: seq![],
            requested_txs: seq![],
            pending_txs: seq![],
        }
    }

    pub open spec fn does(self, actions: Seq<ActionView>) -> Reaction {
        Reaction { session: self, actions }
    }

    pub open spec fn after_version(self, payload: Seq<u8>) -> Reaction {
        let version = match version_in(payload) {
            Some(version) => version,
            None => 0,
        };
        let report = ActionView::Emit(peer_version_record(self.peer, version));
        if !acceptable_remote_version(version as i32) {
            self.does(seq![report, ActionView::Fail(too_old(version))])
        } else if !self.sent_verack {
            SessionView { sent_verack: true, ..self }.does(
                seq![report, ActionView::Send("verack"@, seq![])],
            )
        } else {
            self.does(seq![report])
        }
    }

    pub open spec fn after_verack(self, now: u128, nonce: u64) -> Reaction {
        SessionView {
            saw_verack: true,
            ping_nonce: Some(nonce),
            ping_started: None,
            ..self
        }.does(
            seq![
                ActionView::Emit(handshake_complete_record(self.peer)),
                ActionView::Emit(
                    handshake_timing_record(self.peer, elapsed_ms(self.handshake_started, now)),
                ),
                ActionView::Send("ping"@, le_bytes(nonce as nat, 8)),
                ActionView::Send("getaddr"@, seq![]),
            ],
        )
    }

    /// The session once a message has gone out: the time of the handshake runs from the
    /// `version` message, that of the ping from the `ping` message.
    pub open spec fn after_sent(self, command: Seq<char>, now: u128) -> SessionView {
        if command == "version"@ {
            SessionView { handshake_started: now, ..self }
        } else if command == "ping"@ {
            SessionView { ping_started: Some(now), ..self }
        } else {
            self
        }
    }

    pub open spec fn after_addr(self, payload: Seq<u8>) -> Reaction {
        match addr_entries(payload, self.settings.max_addr_per_message) {
            Some(addrs) => self.does(seq![ActionView::Discover(addrs)]),
            None => self.does(seq![ActionView::Fail(truncated())]),
        }
    }

    pub open spec fn after_pong(self, payload: Seq<u8>, now: u128) -> Reaction {
        match (pong_number(payload), self.ping_nonce) {
            (Some(answered), Some(asked)) if answered == asked => SessionView {
                ping_nonce: None,
                ping_started: None,
                ..self
            }.does(
                match self.ping_started {
                    Some(started) => seq![
                        ActionView::Emit(
                            ping_rtt_record(self.peer, asked as int, elapsed_ms(started, now)),
                        ),
                    ],
                    None => seq![],
                },
            ),
            _ => self.does(seq![]),
        }
    }

    /// The queues of transactions, with what goes into the next request.
    pub open spec fn tx_queues(self, requests: Seq<Inventory>) -> TxQueues {
        TxQueues {
            seen: self.seen_txs,
            requested: self.requested_txs,
            pending: self.pending_txs,
            requests,
        }
    }

    /// What comes of the entries of an `inv` message, one after the other.
    pub open spec fn inv_progress(self, invs: Seq<Inventory>) -> InvProgress
        decreases invs.len(),
    {
        if invs.len() == 0 {
            InvProgress {
                session: self,
                block_requests: seq![],
                tx_requests: seq![],
                actions: seq![],
            }
        } else {
            self.inv_progress(invs.drop_last()).with_entry(invs.last())
        }
    }

    pub open spec fn after_inv(self, payload: Seq<u8>) -> Reaction {
        match listed_inventory(payload) {
            Some(invs) => {
                let done = self.inv_progress(invs);
                done.session.does(
                    done.actions + request_actions(
                        done.block_requests,
                        block_request_reports(self.peer, done.block_requests),
                    ) + request_actions(
                        done.tx_requests,
                        tx_request_reports(self.peer, done.tx_requests),
                    ),
                )
            },
            None => self.does(seq![ActionView::Fail(truncated())]),
        }
    }

    pub open spec fn after_block(self, payload: Seq<u8>, consensus_hash: Seq<char>) -> Reaction {
        if payload.len() < ZCASH_FULL_HEADER_SIZE {
            self.does(seq![ActionView::Fail(short_header())])
        } else {
            let display = display_hash(block_hash(payload));
            SessionView {
                pending_blocks: without_first(self.pending_blocks, block_hash_of(payload)),
                ..self
            }.does(
                seq![
                    ActionView::Emit(
                        block_received_record(
                            self.peer,
                            display,
                            consensus_hash,
                            payload.len() as int,
                            block_miner_script(payload),
                            block_tag(payload),
                        ),
                    ),
                    ActionView::ScorePeer(self.settings.score_block_received, "block_received"@),
                ] + if self.settings.has_relay {
                    seq![ActionView::ForwardBlock(display)]
                } else {
                    seq![]
                },
            )
        }
    }

    pub open spec fn after_tx(self, payload: Seq<u8>) -> Reaction {
        match payload_identity(payload, SOVRIGHT_P2P_CONSENSUS_BRANCH_ID) {
            Some(id) => SessionView {
                pending_txs: without_identity(self.pending_txs, id),
                ..self
            }.does(
                (if self.settings.has_tx_cache {
                    seq![ActionView::CacheTx(id)]
                } else {
                    seq![]
                }) + (if self.settings.has_tx_feed {
                    seq![ActionView::FeedTx(id)]
                } else {
                    seq![]
                }),
            ),
            None => self.does(
                if self.settings.wants_tx() {
                    seq![
                        ActionView::Emit(
                            peer_error_record(
                                self.peer,
                                "received tx with no derivable wtxid; not cached"@,
                            ),
                        ),
                    ]
                } else {
                    seq![]
                },
            ),
        }
    }

    /// What is done once the relay has taken the block of this hash, or refused it.
    pub open spec fn after_forwarded(
        self,
        display: Seq<char>,
        result: Result<ForwardedBlock, ErrorView>,
    ) -> Seq<ActionView> {
        match result {
            Ok(forwarded) => seq![
                ActionView::Emit(
                    relay_block_forwarded_record(
                        self.peer,
                        display,
                        forwarded.bytes as int,
                        forwarded.tx_count as int,
                        forwarded.mode.as_str()@,
                        forwarded.relay_objects as int,
                    ),
                ),
                ActionView::ScorePeer(self.settings.score_relay_forwarded, "relay_forwarded"@),
            ],
            Err(error) => seq![
                ActionView::Emit(
                    peer_error_record(self.peer, "relay forward failed: "@ + error.text()),
                ),
            ],
        }
    }

    /// What is reported once a transaction was handed to the feed, or could not be.
    pub open spec fn after_fed(
        self,
        id: WtxId,
        bytes: int,
        result: Result<(), Seq<char>>,
    ) -> RecordView {
        let key = TxInventoryKey::from_wtxid(&id);
        match result {
            Ok(()) => tx_feed_forwarded_record(
                self.peer,
                key.kind()@,
                display_hash(key.txid()@),
                bytes,
            ),
            Err(text) => peer_error_record(self.peer, "tx feed forward failed: "@ + text),
        }
    }

    /// What is reported once a transaction was offered to the cache.
    pub open spec fn after_cached(
        self,
        id: WtxId,
        bytes: int,
        outcome: TxCacheOutcome,
        snapshot: TxCacheSnapshot,
    ) -> Seq<ActionView> {
        let key = TxInventoryKey::from_wtxid(&id);
        seq![
            ActionView::Emit(
                tx_received_record(
                    self.peer,
                    key.kind()@,
                    display_hash(key.txid()@),
                    bytes,
                    outcome.entries as int,
                    outcome.bytes as int,
                    outcome.evicted_entries as int,
                    outcome.evicted_bytes as int,
                    outcome.dropped_too_large as int,
                ),
            ),
            ActionView::Emit(
                tx_cache_snapshot_record(
                    snapshot.entries as int,
                    snapshot.bytes as int,
                    snapshot.max_entries as int,
                    snapshot.max_bytes as int,
                    snapshot.max_tx_bytes as int,
                    snapshot.evicted_entries_total as int,
                    snapshot.evicted_bytes_total as int,
                    snapshot.dropped_too_large_total as int,
                ),
            ),
        ]
    }

    /// What comes of a message. What a peer says of blocks, transactions and other
    /// peers counts only once it has confirmed the handshake.
    pub open spec fn after_message(
        self,
        command: Seq<char>,
        payload: Seq<u8>,
        consensus_hash: Seq<char>,
        now: u128,
        nonce: u64,
    ) -> Reaction {
        if command == "version"@ {
            self.after_version(payload)
        } else if command == "verack"@ {
            self.after_verack(now, nonce)
        } else if command == "reject"@ {
            self.does(seq![ActionView::Emit(reject_record(self.peer, payload.len() as int))])
        } else if command == "pong"@ {
            self.after_pong(payload, now)
        } else if command == "ping"@ {
            self.does(seq![ActionView::Send("pong"@, payload)])
        } else if !self.saw_verack {
            self.does(seq![])
        } else if command == "addr"@ {
            self.after_addr(payload)
        } else if command == "inv"@ {
            self.after_inv(payload)
        } else if command == "block"@ {
            self.after_block(payload, consensus_hash)
        } else if command == "tx"@ {
            self.after_tx(payload)
        } else {
            self.does(seq![])
        }
    }
}

impl InvProgress {
    /// What comes of one more entry.
    pub open spec fn with_entry(self, inv: Inventory) -> InvProgress {
        if inv.is_block() {
            self.with_block(inv)
        } else if inv.is_transaction() {
            self.with_tx(inv)
        } else {
            self
        }
    }

    /// A block that was not told of before is reported and credited, and asked for
    /// where it was not asked for before.
    pub open spec fn with_block(self, inv: Inventory) -> InvProgress {
        let session = self.session;
        if session.seen_blocks.contains(inv.hash) {
            self
        } else {
            let asks = !session.requested_blocks.contains(inv.hash);
            InvProgress {
                session: SessionView {
                    seen_blocks: session.seen_blocks.push(inv.hash),
                    requested_blocks: with_element(session.requested_blocks, inv.hash),
                    pending_blocks: if asks {
                        session.pending_blocks.push(inv.hash)
                    } else {
                        session.pending_blocks
                    },
                    ..session
                },
                block_requests: if asks {
                    self.block_requests.push(inv)
                } else {
                    self.block_requests
                },
                actions: self.actions + seq![
                    ActionView::Emit(block_inv_record(session.peer, display_hash(inv.hash@))),
                    ActionView::ScoreAnnouncement(inv.hash),
                ],
                ..self
            }
        }
    }

    /// A transaction is reported where it is asked for.
    pub open spec fn with_tx(self, inv: Inventory) -> InvProgress {
        let session = self.session;
        let wanted = session.settings.wants_tx();
        let limit = session.settings.tx_request_limit_per_inv;
        let before = session.tx_queues(self.tx_requests);
        let after = before.after(inv, wanted, limit);
        let key = TxInventoryKey::from_inventory(&inv)->0;
        InvProgress {
            session: SessionView {
                seen_txs: after.seen,
                requested_txs: after.requested,
                pending_txs: after.pending,
                ..session
            },
            tx_requests: after.requests,
            actions: if before.takes(inv, wanted, limit) {
                self.actions.push(
                    ActionView::Emit(
                        tx_inv_record(session.peer, key.kind()@, display_hash(key.txid()@)),
                    ),
                )
            } else {
                self.actions
            },
            ..self
        }
    }
}

/// One session with a peer.
#[derive(Debug)]
pub struct PeerSession {
    peer: String,
    settings: SessionSettings,
    saw_verack: bool,
    sent_verack: bool,
    handshake_started: u128,
    ping_nonce: Option<u64>,
    ping_started: Option<u128>,
    seen_blocks: Vec<Hash32>,
    requested_blocks: Vec<Hash32>,
    pending_blocks: VecDeque<Hash32>,
    seen_txs: Vec<TxInventoryKey>,
    requested_txs: Vec<TxInventoryKey>,
    pending_txs: VecDeque<TxInventoryKey>,
}

impl View for PeerSession {
    type V = SessionView;

    closed spec fn view(&self) -> SessionView {
        SessionView {
            peer: self.peer@,
            settings: self.settings,
            saw_verack: self.saw_verack,
            sent_verack: self.sent_verack,
            handshake_started: self.handshake_started,
            ping_nonce: self.ping_nonce,
            ping_started: self.ping_started,
            seen_blocks: self.seen_blocks@,
            requested_blocks: self.requested_blocks@,
            pending_blocks: self.pending_blocks@,
            seen_txs: self.seen_txs@,
            requested_txs: self.requested_txs@,
            pending_txs: self.pending_txs@,
        }
    }
}

/// Appends one action.
fn act(actions: &mut Vec<PeerAction>, action: PeerAction)
    ensures
        actions_view(final(actions)@) == actions_view(old(actions)@).push(action@),
{
    actions.push(action);
    assert(actions_view(actions@) =~= actions_view(old(actions)@).push(action@));
}

/// The actions of a message that needs none.
fn no_actions() -> (actions: Vec<PeerAction>)
    ensures
        actions_view(actions@) == Seq::<ActionView>::empty(),
{
    let actions: Vec<PeerAction> = Vec::new();
    assert(actions_view(actions@) =~= seq![]);
    actions
}

/// The one action of a message.
fn one_action(action: PeerAction) -> (actions: Vec<PeerAction>)
    ensures
        actions_view(actions@) == seq![action@],
{
    let mut actions = no_actions();
    act(&mut actions, action);
    assert(actions_view(actions@) =~= seq![action@]);
    actions
}

/// The time between two points, in milliseconds.
fn milliseconds(started: u128, now: u128) -> (ms: u128)
    ensures
        ms == elapsed_ms(started, now),
        ms <= now / NANOS_PER_MILLI,
{
    if now > started {
        (now - started) / NANOS_PER_MILLI
    } else {
        0
    }
}

/// The error of a peer that could not be reached in time.
pub fn connect_timeout_error(peer: &str) -> (error: IngressError)
    ensures
        error@ == ErrorView::Timeout("connect to "@ + peer@),
{
    let mut text: String = "connect to ".to_owned();
    text.append(peer);
    IngressError::Timeout(text)
}

/// The error of a peer that has said nothing for too long.
pub fn read_timeout_error(peer: &str) -> (error: IngressError)
    ensures
        error@ == ErrorView::Timeout("read from "@ + peer@),
{
    let mut text: String = "read from ".to_owned();
    text.append(peer);
    IngressError::Timeout(text)
}

/// The event that reports the state of the transaction cache.
pub fn emit_tx_cache_snapshot(snapshot: &TxCacheSnapshot) -> (record: EventRecord)
    ensures
        record@ == tx_cache_snapshot_record(
            snapshot.entries as int,
            snapshot.bytes as int,
            snapshot.max_entries as int,
            snapshot.max_bytes as int,
            snapshot.max_tx_bytes as int,
            snapshot.evicted_entries_total as int,
            snapshot.evicted_bytes_total as int,
            snapshot.dropped_too_large_total as int,
        ),
{
    EventSink::p2p_tx_cache_snapshot(
        snapshot.entries,
        snapshot.bytes,
        snapshot.max_entries,
        snapshot.max_bytes,
        snapshot.max_tx_bytes,
        snapshot.evicted_entries_total,
        snapshot.evicted_bytes_total,
        snapshot.dropped_too_large_total,
    )
}

/// What is said to a peer and reported of it once the connection stands.
pub open spec fn opening_actions(
    peer: Seq<char>,
    peer_addr: PeerAddr,
    connect_ms: u128,
    unix_secs: u64,
    nonce: u64,
) -> Seq<ActionView> {
    seq![
        ActionView::Emit(connect_timing_record(peer, connect_ms as int)),
        ActionView::Emit(peer_connected_record(peer)),
        ActionView::Send("version"@, version_bytes(peer_addr, unix_secs, nonce)),
    ]
}

impl PeerSession {
    /// The session with a peer to which a connection stands since `now`, after
    /// `connect_ms` milliseconds, and what to do first.
    pub fn start(
        peer: &str,
        peer_addr: PeerAddr,
        settings: SessionSettings,
        connect_ms: u128,
        now: u128,
        unix_secs: u64,
        nonce: u64,
    ) -> (started: (PeerSession, Vec<PeerAction>))
        requires
            connect_ms <= u64::MAX,
        ensures
            started.0@ == SessionView::fresh(peer@, settings, now),
            actions_view(started.1@) == opening_actions(
                peer@,
                peer_addr,
                connect_ms,
                unix_secs,
                nonce,
            ),
    {
        let session = PeerSession {
            peer: peer.to_owned(),
            settings,
            saw_verack: false,
            sent_verack: false,
            handshake_started: now,
            ping_nonce: None,
            ping_started: None,
            seen_blocks: Vec::new(),
            requested_blocks: Vec::new(),
            pending_blocks: VecDeque::new(),
            seen_txs: Vec::new(),
            requested_txs: Vec::new(),
            pending_txs: VecDeque::new(),
        };
        let mut actions = no_actions();
        act(&mut actions, PeerAction::Emit(EventSink::p2p_connect_timing(peer, connect_ms)));
        act(&mut actions, PeerAction::Emit(EventSink::p2p_peer_connected(peer)));
        act(
            &mut actions,
            PeerAction::Send {
                command: "version",
                payload: version_payload(peer_addr, unix_secs, nonce),
            },
        );
        assert(actions_view(actions@) =~= opening_actions(
            peer@,
            peer_addr,
            connect_ms,
            unix_secs,
            nonce,
        ));
        (session, actions)
    }

    /// Takes note that a message of the session has gone out to the peer at `now`.
    pub fn on_sent(&mut self, command: &str, now: u128)
        ensures
            final(self)@ == old(self)@.after_sent(command@, now),
    {
        if same_text(command, "version") {
            self.handshake_started = now;
        } else if same_text(command, "ping") {
            self.ping_started = Some(now);
        }
    }

    /// What to do about a message. `consensus_hash` is the text of the hash by which
    /// the chain knows the block of the message, `nonce` marks a ping that is sent.
    pub fn on_message(
        &mut self,
        command: &str,
        payload: &[u8],
        consensus_hash: &str,
        now: u128,
        nonce: u64,
    ) -> (actions: Vec<PeerAction>)
        requires
            now / NANOS_PER_MILLI <= u64::MAX,
        ensures
            ({
                let reaction = old(self)@.after_message(
                    command@,
                    payload@,
                    consensus_hash@,
                    now,
                    nonce,
                );
                &&& final(self)@ == reaction.session
                &&& actions_view(actions@) == reaction.actions
            }),
    {
        if same_text(command, "version") {
            self.on_version(payload)
        } else if same_text(command, "verack") {
            self.on_verack(now, nonce)
        } else if same_text(command, "reject") {
            one_action(PeerAction::Emit(EventSink::p2p_reject(self.peer.as_str(), payload.len())))
        } else if same_text(command, "pong") {
            self.on_pong(payload, now)
        } else if same_text(command, "ping") {
            let mut echo: Vec<u8> = Vec::new();
            push_all(&mut echo, payload);
            assert(echo@ =~= payload@);
            one_action(PeerAction::Send { command: "pong", payload: echo })
        } else if !self.saw_verack {
            no_actions()
        } else if same_text(command, "addr") {
            self.on_addr(payload)
        } else if same_text(command, "inv") {
            self.on_inv(payload)
        } else if same_text(command, "block") {
            self.on_block(payload, consensus_hash)
        } else if same_text(command, "tx") {
            self.on_tx(payload)
        } else {
            no_actions()
        }
    }

    fn on_version(&mut self, payload: &[u8]) -> (actions: Vec<PeerAction>)
        ensures
            final(self)@ == old(self)@.after_version(payload@).session,
            actions_view(actions@) == old(self)@.after_version(payload@).actions,
    {
        let version: i32 = match remote_version(payload) {
            Ok(version) => version,
            Err(_) => 0,
        };
        let mut actions = one_action(
            PeerAction::Emit(EventSink::p2p_peer_version(self.peer.as_str(), version)),
        );
        if !is_acceptable_remote_version(version) {
            let mut text: String = "remote protocol version too old: ".to_owned();
            push_signed_decimal(&mut text, version as i64);
            text.append(" < ");
            push_signed_decimal(&mut text, MIN_ACCEPTABLE_REMOTE_VERSION as i64);
            act(&mut actions, PeerAction::Fail(IngressError::Wire(text)));
        } else if !self.sent_verack {
            let empty: Vec<u8> = Vec::new();
            assert(empty@ =~= seq![]);
            act(&mut actions, PeerAction::Send { command: "verack", payload: empty });
            self.sent_verack = true;
        }
        assert(actions_view(actions@) =~= old(self)@.after_version(payload@).actions);
        actions
    }

    fn on_verack(&mut self, now: u128, nonce: u64) -> (actions: Vec<PeerAction>)
        requires
            now / NANOS_PER_MILLI <= u64::MAX,
        ensures
            final(self)@ == old(self)@.after_verack(now, nonce).session,
            actions_view(actions@) == old(self)@.after_verack(now, nonce).actions,
    {
        self.saw_verack = true;
        let mut actions = one_action(
            PeerAction::Emit(EventSink::p2p_handshake_complete(self.peer.as_str())),
        );
        let ms = milliseconds(self.handshake_started, now);
        act(
            &mut actions,
            PeerAction::Emit(EventSink::p2p_handshake_timing(self.peer.as_str(), ms)),
        );
        let mut ping: Vec<u8> = Vec::new();
        push_le(&mut ping, nonce, 8);
        assert(ping@ =~= le_bytes(nonce as nat, 8));
        act(&mut actions, PeerAction::Send { command: "ping", payload: ping });
        self.ping_nonce = Some(nonce);
        self.ping_started = None;
        let empty: Vec<u8> = Vec::new();
        assert(empty@ =~= seq![]);
        act(&mut actions, PeerAction::Send { command: "getaddr", payload: empty });
        assert(actions_view(actions@) =~= old(self)@.after_verack(now, nonce).actions);
        actions
    }

    fn on_addr(&mut self, payload: &[u8]) -> (actions: Vec<PeerAction>)
        ensures
            final(self)@ == old(self)@.after_addr(payload@).session,
            actions_view(actions@) == old(self)@.after_addr(payload@).actions,
    {
        match parse_addr(payload, self.settings.max_addr_per_message) {
            Ok(addrs) => one_action(PeerAction::Discover(addrs)),
            Err(error) => one_action(PeerAction::Fail(error)),
        }
    }

    fn on_pong(&mut self, payload: &[u8], now: u128) -> (actions: Vec<PeerAction>)
        requires
            now / NANOS_PER_MILLI <= u64::MAX,
        ensures
            final(self)@ == old(self)@.after_pong(payload@, now).session,
            actions_view(actions@) == old(self)@.after_pong(payload@, now).actions,
    {
        let (answered, asked) = match (pong_nonce(payload), self.ping_nonce) {
            (Some(answered), Some(asked)) => (answered, asked),
            _ => {
                return no_actions();
            },
        };
        if answered != asked {
            return no_actions();
        }
        let started = self.ping_started;
        self.ping_nonce = None;
        self.ping_started = None;
        match started {
            Some(started) => {
                let ms = milliseconds(started, now);
                one_action(
                    PeerAction::Emit(EventSink::p2p_ping_rtt(self.peer.as_str(), answered, ms)),
                )
            },
            None => no_actions(),
        }
    }

    /// Looks at one entry of an `inv` message that names a block.
    fn on_block_inv(
        &mut self,
        inv: Inventory,
        block_requests: &mut Vec<Inventory>,
        actions: &mut Vec<PeerAction>,
    )
        ensures
            ({
                let after = InvProgress {
                    session: old(self)@,
                    block_requests: old(block_requests)@,
                    tx_requests: seq![],
                    actions: actions_view(old(actions)@),
                }.with_block(inv);
                &&& final(self)@ == after.session
                &&& final(block_requests)@ == after.block_requests
                &&& actions_view(final(actions)@) == after.actions
            }),
    {
        if !insert_hash(&mut self.seen_blocks, inv.hash) {
            return ;
        }
        let display = inventory_hash_to_display(&inv.hash);
        act(
            actions,
            PeerAction::Emit(EventSink::p2p_block_inv(self.peer.as_str(), display.as_str())),
        );
        act(actions, PeerAction::ScoreAnnouncement(inv.hash));
        assert(actions_view(actions@) =~= actions_view(old(actions)@) + seq![
            ActionView::Emit(block_inv_record(self@.peer, display_hash(inv.hash@))),
            ActionView::ScoreAnnouncement(inv.hash),
        ]);
        if insert_hash(&mut self.requested_blocks, inv.hash) {
            self.pending_blocks.push_back(inv.hash);
            block_requests.push(inv);
        }
    }

    /// Looks at one entry of an `inv` message that names a transaction.
    fn on_tx_inv(
        &mut self,
        inv: Inventory,
        tx_requests: &mut Vec<Inventory>,
        actions: &mut Vec<PeerAction>,
    )
        ensures
            ({
                let after = InvProgress {
                    session: old(self)@,
                    block_requests: seq![],
                    tx_requests: old(tx_requests)@,
                    actions: actions_view(old(actions)@),
                }.with_tx(inv);
                &&& final(self)@ == after.session
                &&& final(tx_requests)@ == after.tx_requests
                &&& actions_view(final(actions)@) == after.actions
            }),
    {
        let wanted = self.settings.has_tx_cache || self.settings.has_tx_feed;
        let queued = queue_tx_request(
            inv,
            wanted,
            self.settings.tx_request_limit_per_inv,
            &mut self.seen_txs,
            &mut self.requested_txs,
            &mut self.pending_txs,
            tx_requests,
        );
        if let Some(key) = queued {
            let display = key.display_hash();
            act(
                actions,
                PeerAction::Emit(
                    EventSink::p2p_tx_inv(self.peer.as_str(), key.kind(), display.as_str()),
                ),
            );
        }
    }

    fn on_inv(&mut self, payload: &[u8]) -> (actions: Vec<PeerAction>)
        ensures
            final(self)@ == old(self)@.after_inv(payload@).session,
            actions_view(actions@) == old(self)@.after_inv(payload@).actions,
    {
        let invs = match parse_inventory(payload) {
            Ok(invs) => invs,
            Err(error) => {
                return one_action(PeerAction::Fail(error));
            },
        };
        let ghost before = self@;
        let mut block_requests: Vec<Inventory> = Vec::new();
        let mut tx_requests: Vec<Inventory> = Vec::new();
        let mut actions = no_actions();
        assert(invs@.take(0) =~= seq![]);
        let mut i: usize = 0;
        while i < invs.len()
            invariant
                i <= invs.len(),
                ({
                    let done = before.inv_progress(invs@.take(i as int));
                    &&& self@ == done.session
                    &&& block_requests@ == done.block_requests
                    &&& tx_requests@ == done.tx_requests
                    &&& actions_view(actions@) == done.actions
                }),
            decreases invs.len() - i,
        {
            let inv = invs[i];
            assert(invs@.take(i + 1).drop_last() =~= invs@.take(i as int));
            if inv.is_block() {
                self.on_block_inv(inv, &mut block_requests, &mut actions);
            } else if inv.is_transaction() {
                self.on_tx_inv(inv, &mut tx_requests, &mut actions);
            }
            i = i + 1;
        }
        assert(invs@.take(i as int) =~= invs@);
        proof {
            lemma_inv_keeps_peer(before, invs@);
            lemma_tx_requests_have_keys(before, invs@);
        }
        self.request_blocks(&block_requests, &mut actions);
        self.request_txs(&tx_requests, &mut actions);
        actions
    }

    /// Asks for the blocks, where there are any.
    fn request_blocks(&self, requests: &Vec<Inventory>, actions: &mut Vec<PeerAction>)
        ensures
            actions_view(final(actions)@) == actions_view(old(actions)@) + request_actions(
                requests@,
                block_request_reports(self@.peer, requests@),
            ),
    {
        let ghost head = actions_view(actions@);
        if requests.len() == 0 {
            assert(head + seq![] =~= head);
            return ;
        }
        act(
            actions,
            PeerAction::Send { command: "getdata", payload: encode_inventory(requests) },
        );
        let ghost sent = actions_view(actions@);
        let ghost reports = block_request_reports(self@.peer, requests@);
        let mut i: usize = 0;
        assert(sent + reports.take(0) =~= sent);
        while i < requests.len()
            invariant
                i <= requests.len(),
                reports == block_request_reports(self@.peer, requests@),
                actions_view(actions@) == sent + reports.take(i as int),
            decreases requests.len() - i,
        {
            let display = inventory_hash_to_display(&requests[i].hash);
            act(
                actions,
                PeerAction::Emit(EventSink::p2p_getdata_sent(self.peer.as_str(), display.as_str())),
            );
            assert(reports.take(i + 1) =~= reports.take(i as int).push(reports[i as int]));
            assert(actions_view(actions@) =~= sent + reports.take(i + 1));
            i = i + 1;
        }
        assert(reports.take(i as int) =~= reports);
        assert(sent + reports =~= head + request_actions(requests@, reports));
    }

    /// Asks for the transactions, where there are any.
    fn request_txs(&self, requests: &Vec<Inventory>, actions: &mut Vec<PeerAction>)
        requires
            forall|i: int|
                0 <= i < requests@.len() ==> TxInventoryKey::from_inventory(
                    &#[trigger] requests@[i],
                ) is Some,
        ensures
            actions_view(final(actions)@) == actions_view(old(actions)@) + request_actions(
                requests@,
                tx_request_reports(self@.peer, requests@),
            ),
    {
        let ghost head = actions_view(actions@);
        if requests.len() == 0 {
            assert(head + seq![] =~= head);
            return ;
        }
        act(
            actions,
            PeerAction::Send { command: "getdata", payload: encode_inventory(requests) },
        );
        let ghost sent = actions_view(actions@);
        let ghost reports = tx_request_reports(self@.peer, requests@);
        let mut i: usize = 0;
        assert(sent + reports.take(0) =~= sent);
        while i < requests.len()
            invariant
                i <= requests.len(),
                forall|j: int|
                    0 <= j < requests@.len() ==> TxInventoryKey::from_inventory(
                        &#[trigger] requests@[j],
                    ) is Some,
                reports == tx_request_reports(self@.peer, requests@),
                actions_view(actions@) == sent + reports.take(i as int),
            decreases requests.len() - i,
        {
            let inv = requests[i];
            if let Some(key) = TxInventoryKey::from_inventory(&inv) {
                let display = key.display_hash();
                act(
                    actions,
                    PeerAction::Emit(
                        EventSink::p2p_tx_getdata_sent(
                            self.peer.as_str(),
                            key.kind(),
                            display.as_str(),
                        ),
                    ),
                );
                assert(reports.take(i + 1) =~= reports.take(i as int).push(reports[i as int]));
                assert(actions_view(actions@) =~= sent + reports.take(i + 1));
            }
            i = i + 1;
        }
        assert(reports.take(i as int) =~= reports);
        assert(sent + reports =~= head + request_actions(requests@, reports));
    }

    fn on_block(&mut self, payload: &[u8], consensus_hash: &str) -> (actions: Vec<PeerAction>)
        ensures
            final(self)@ == old(self)@.after_block(payload@, consensus_hash@).session,
            actions_view(actions@) == old(self)@.after_block(payload@, consensus_hash@).actions,
    {
        let display = match received_block_display_hash(&mut self.pending_blocks, payload) {
            Ok(display) => display,
            Err(error) => {
                return one_action(PeerAction::Fail(error));
            },
        };
        let script = coinbase_miner_script(payload);
        let tag = coinbase_text(payload);
        let record = EventSink::p2p_block_received(
            self.peer.as_str(),
            display.as_str(),
            consensus_hash,
            payload.len(),
            borrow_text(&script),
            borrow_text(&tag),
        );
        let mut actions = one_action(PeerAction::Emit(record));
        act(
            &mut actions,
            PeerAction::ScorePeer {
                delta: self.settings.score_block_received,
                reason: "block_received",
            },
        );
        if self.settings.has_relay {
            act(&mut actions, PeerAction::ForwardBlock(display));
        }
        assert(actions_view(actions@) =~= old(self)@.after_block(
            payload@,
            consensus_hash@,
        ).actions);
        actions
    }

    fn on_tx(&mut self, payload: &[u8]) -> (actions: Vec<PeerAction>)
        ensures
            final(self)@ == old(self)@.after_tx(payload@).session,
            actions_view(actions@) == old(self)@.after_tx(payload@).actions,
    {
        let mut actions = no_actions();
        match wtxid_for_received_tx(&mut self.pending_txs, payload) {
            Some(id) => {
                if self.settings.has_tx_cache {
                    act(&mut actions, PeerAction::CacheTx(id));
                }
                if self.settings.has_tx_feed {
                    act(&mut actions, PeerAction::FeedTx(id));
                }
            },
            None => {
                if self.settings.has_tx_cache || self.settings.has_tx_feed {
                    act(
                        &mut actions,
                        PeerAction::Emit(
                            EventSink::p2p_peer_error(
                                self.peer.as_str(),
                                "received tx with no derivable wtxid; not cached",
                            ),
                        ),
                    );
                }
            },
        }
        assert(actions_view(actions@) =~= old(self)@.after_tx(payload@).actions);
        actions
    }

    /// Whether the peer has confirmed the handshake.
    pub fn is_confirmed(&self) -> (confirmed: bool)
        ensures
            confirmed == self@.saw_verack,
    {
        self.saw_verack
    }

    /// Where a block stands among those that are awaited; the one that was asked for
    /// first stands at zero.
    pub fn awaited_block(&self, hash: &Hash32) -> (place: Option<usize>)
        ensures
            match place {
                Some(k) => self@.pending_blocks.index_of_first(*hash) == Some(k as int),
                None => self@.pending_blocks.index_of_first(*hash) is None,
            },
    {
        block_place(&self.pending_blocks, hash)
    }

    /// The block that was asked for first among those that are awaited.
    pub fn next_awaited_block(&self) -> (hash: Option<Hash32>)
        ensures
            hash == if self@.pending_blocks.len() > 0 {
                Some(self@.pending_blocks[0])
            } else {
                None
            },
    {
        if self.pending_blocks.len() > 0 {
            Some(self.pending_blocks[0])
        } else {
            None
        }
    }

    /// Where a transaction stands among those that are awaited; the one that was asked
    /// for first stands at zero.
    pub fn awaited_tx(&self, id: &WtxId) -> (place: Option<usize>)
        ensures
            match place {
                Some(k) => identities(self@.pending_txs).index_of_first(*id) == Some(k as int),
                None => identities(self@.pending_txs).index_of_first(*id) is None,
            },
    {
        tx_place(&self.pending_txs, id)
    }

    /// What to report once the crawler has taken `accepted` of `count` addresses.
    pub fn on_discovered(&self, count: usize, accepted: usize) -> (record: EventRecord)
        ensures
            record@ == addr_received_record(self@.peer, count as int, accepted as int),
    {
        EventSink::p2p_addr_received(self.peer.as_str(), count, accepted)
    }

    /// What to do once the relay has taken the block of this hash, or refused it.
    pub fn on_forwarded(
        &self,
        display: &str,
        result: &Result<ForwardedBlock, IngressError>,
    ) -> (actions: Vec<PeerAction>)
        ensures
            actions_view(actions@) == match *result {
                Ok(forwarded) => seq![
                    ActionView::Emit(
                        relay_block_forwarded_record(
                            self@.peer,
                            display@,
                            forwarded.bytes as int,
                            forwarded.tx_count as int,
                            forwarded.mode.as_str()@,
                            forwarded.relay_objects as int,
                        ),
                    ),
                    ActionView::ScorePeer(
                        self@.settings.score_relay_forwarded,
                        "relay_forwarded"@,
                    ),
                ],
                Err(error) => seq![
                    ActionView::Emit(
                        peer_error_record(
                            self@.peer,
                            "relay forward failed: "@ + error@.text(),
                        ),
                    ),
                ],
            },
            actions_view(actions@) == self@.after_forwarded(
                display@,
                match *result {
                    Ok(forwarded) => Ok(forwarded),
                    Err(error) => Err(error@),
                },
            ),
    {
        match result {
            Ok(forwarded) => {
                let mut actions = one_action(
                    PeerAction::Emit(
                        EventSink::p2p_relay_block_forwarded(
                            self.peer.as_str(),
                            display,
                            forwarded.bytes,
                            forwarded.tx_count,
                            forwarded.mode.as_str(),
                            forwarded.relay_objects,
                        ),
                    ),
                );
                let ghost first = actions_view(actions@)[0];
                act(
                    &mut actions,
                    PeerAction::ScorePeer {
                        delta: self.settings.score_relay_forwarded,
                        reason: "relay_forwarded",
                    },
                );
                assert(actions_view(actions@) =~= seq![
                    first,
                    ActionView::ScorePeer(
                        self@.settings.score_relay_forwarded,
                        "relay_forwarded"@,
                    ),
                ]);
                actions
            },
            Err(error) => {
                let mut text: String = "relay forward failed: ".to_owned();
                text.append(error.text().as_str());
                one_action(
                    PeerAction::Emit(EventSink::p2p_peer_error(self.peer.as_str(), text.as_str())),
                )
            },
        }
    }

    /// What to do once a transaction of so many bytes was offered to the cache.
    pub fn on_cached(
        &self,
        id: &WtxId,
        bytes: usize,
        outcome: &TxCacheOutcome,
        snapshot: &TxCacheSnapshot,
    ) -> (actions: Vec<PeerAction>)
        ensures
            ({
                let key = TxInventoryKey::from_wtxid(id);
                actions_view(actions@) == seq![
                    ActionView::Emit(
                        tx_received_record(
                            self@.peer,
                            key.kind()@,
                            display_hash(key.txid()@),
                            bytes as int,
                            outcome.entries as int,
                            outcome.bytes as int,
                            outcome.evicted_entries as int,
                            outcome.evicted_bytes as int,
                            outcome.dropped_too_large as int,
                        ),
                    ),
                    ActionView::Emit(
                        tx_cache_snapshot_record(
                            snapshot.entries as int,
                            snapshot.bytes as int,
                            snapshot.max_entries as int,
                            snapshot.max_bytes as int,
                            snapshot.max_tx_bytes as int,
                            snapshot.evicted_entries_total as int,
                            snapshot.evicted_bytes_total as int,
                            snapshot.dropped_too_large_total as int,
                        ),
                    ),
                ]
            }),
            actions_view(actions@) == self@.after_cached(*id, bytes as int, *outcome, *snapshot),
    {
        let key = TxInventoryKey::from_wtxid(id);
        let display = key.display_hash();
        let mut actions = one_action(
            PeerAction::Emit(
                EventSink::p2p_tx_received(
                    self.peer.as_str(),
                    key.kind(),
                    display.as_str(),
                    bytes,
                    outcome.entries,
                    outcome.bytes,
                    outcome.evicted_entries,
                    outcome.evicted_bytes,
                    outcome.dropped_too_large,
                ),
            ),
        );
        let ghost first = actions_view(actions@)[0];
        let report = emit_tx_cache_snapshot(snapshot);
        act(&mut actions, PeerAction::Emit(report));
        assert(actions_view(actions@) =~= seq![first, ActionView::Emit(report@)]);
        actions
    }

    /// What to report once a transaction of so many bytes was handed to the feed, or
    /// could not be; the message says why.
    pub fn on_fed(&self, id: &WtxId, bytes: usize, result: &Result<(), String>) -> (record:
        EventRecord)
        ensures
            ({
                let key = TxInventoryKey::from_wtxid(id);
                record@ == match *result {
                    Ok(()) => tx_feed_forwarded_record(
                        self@.peer,
                        key.kind()@,
                        display_hash(key.txid()@),
                        bytes as int,
                    ),
                    Err(error) => peer_error_record(
                        self@.peer,
                        "tx feed forward failed: "@ + error@,
                    ),
                }
            }),
            record@ == self@.after_fed(
                *id,
                bytes as int,
                match *result {
                    Ok(()) => Ok(()),
                    Err(error) => Err(error@),
                },
            ),
    {
        match result {
            Ok(()) => {
                let key = TxInventoryKey::from_wtxid(id);
                let display = key.display_hash();
                EventSink::p2p_tx_feed_forwarded(
                    self.peer.as_str(),
                    key.kind(),
                    display.as_str(),
                    bytes,
                )
            },
            Err(error) => {
                let mut text: String = "tx feed forward failed: ".to_owned();
                text.append(error.as_str());
                EventSink::p2p_peer_error(self.peer.as_str(), text.as_str())
            },
        }
    }
}

/// A text that may be missing, borrowed.
fn borrow_text(text: &Option<String>) -> (borrowed: Option<&str>)
    ensures
        str_view(borrowed) == text_view(*text),
{
    match text {
        Some(text) => Some(text.as_str()),
        None => None,
    }
}

/// The entries of an `inv` message change nothing of who the peer is and of what the
/// handshake has come to.
proof fn lemma_inv_keeps_peer(session: SessionView, invs: Seq<Inventory>)
    ensures
        ({
            let after = session.inv_progress(invs).session;
            after == SessionView {
                seen_blocks: after.seen_blocks,
                requested_blocks: after.requested_blocks,
                pending_blocks: after.pending_blocks,
                seen_txs: after.seen_txs,
                requested_txs: after.requested_txs,
                pending_txs: after.pending_txs,
                ..session
            }
        }),
    decreases invs.len(),
{
    if invs.len() > 0 {
        lemma_inv_keeps_peer(session, invs.drop_last());
    }
}

/// Every transaction that goes into a request has a key.
proof fn lemma_tx_requests_have_keys(session: SessionView, invs: Seq<Inventory>)
    ensures
        forall|i: int|
            0 <= i < session.inv_progress(invs).tx_requests.len()
                ==> TxInventoryKey::from_inventory(
                &#[trigger] session.inv_progress(invs).tx_requests[i],
            ) is Some,
    decreases invs.len(),
{
    if invs.len() > 0 {
        lemma_tx_requests_have_keys(session, invs.drop_last());
        let before = session.inv_progress(invs.drop_last()).tx_requests;
        let after = session.inv_progress(invs).tx_requests;
        if let Some(key) = TxInventoryKey::from_inventory(&invs.last()) {
            law_key_inventory_round_trip(key);
        }
        assert forall|i: int| 0 <= i < after.len() implies TxInventoryKey::from_inventory(
            &#[trigger] after[i],
        ) is Some by {
            if i < before.len() {
                assert(after[i] == before[i]);
            }
        }
    }
}

} // verus!
