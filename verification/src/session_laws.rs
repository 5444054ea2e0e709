//! What holds of a session over any run of messages.

use vstd::prelude::*;

use crate::bytes::{
    le_bytes, lemma_le_bytes_len, lemma_le_round_trip, lemma_span_values, Hash32,
};
use crate::event::ping_rtt_record;
use crate::hash::short_header;
use crate::peer::{block_hash_of, identities, law_only_the_match_is_struck_off, pong_number};
use crate::session::{
    block_request_reports, elapsed_ms, request_actions, too_old, ActionView, SessionSettings,
    SessionView,
};
use crate::transaction::SOVRIGHT_P2P_CONSENSUS_BRANCH_ID;
use crate::tx_inventory::{law_key_inventory_round_trip, payload_identity, TxInventoryKey};
use crate::wire::{inventory_message, listed_inventory, truncated, Inventory};

verus! {

impl SessionView {
    /// What holds of every session: nothing was asked for that the peer did not tell
    /// of, nothing twice, and only what was asked for is awaited.
    pub open spec fn well_formed(self) -> bool {
        &&& self.seen_blocks.no_duplicates()
        &&& self.requested_blocks == self.seen_blocks
        &&& self.pending_blocks.no_duplicates()
        &&& forall|hash: Hash32| #[trigger]
            self.pending_blocks.contains(hash) ==> self.requested_blocks.contains(hash)
        &&& self.seen_txs.no_duplicates()
        &&& self.requested_txs == self.seen_txs
        &&& self.pending_txs.no_duplicates()
        &&& forall|key: TxInventoryKey| #[trigger]
            self.pending_txs.contains(key) ==> self.requested_txs.contains(key)
    }
}

proof fn lemma_push_keeps_distinct<A>(s: Seq<A>, x: A)
    requires
        s.no_duplicates(),
        !s.contains(x),
    ensures
        s.push(x).no_duplicates(),
{
    assert forall|i: int, j: int|
        0 <= i < s.push(x).len() && 0 <= j < s.push(x).len() && i != j implies s.push(x)[i]
        != s.push(x)[j] by {
        if i < s.len() && j < s.len() {
            assert(s[i] != s[j]);
        } else if i < s.len() {
            assert(s.contains(s[i]));
        } else {
            assert(s.contains(s[j]));
        }
    }
}

proof fn lemma_push_contains<A>(s: Seq<A>, x: A)
    ensures
        forall|y: A| #[trigger] s.push(x).contains(y) <==> s.contains(y) || y == x,
{
    assert forall|y: A| #[trigger] s.push(x).contains(y) <==> s.contains(y) || y == x by {
        if s.contains(y) {
            assert(s.push(x)[s.index_of(y)] == y);
        }
        assert(s.push(x)[s.len() as int] == x);
        if s.push(x).contains(y) {
            let i = s.push(x).index_of(y);
            assert(i < s.len() ==> s[i] == y);
        }
    }
}

proof fn lemma_remove_keeps_distinct<A>(s: Seq<A>, k: int)
    requires
        s.no_duplicates(),
        0 <= k < s.len(),
    ensures
        s.remove(k).no_duplicates(),
        forall|y: A| #[trigger] s.remove(k).contains(y) ==> s.contains(y),
{
    let r = s.remove(k);
    assert forall|i: int, j: int| 0 <= i < r.len() && 0 <= j < r.len() && i != j implies r[i]
        != r[j] by {
        assert(s[if i < k { i } else { i + 1 }] != s[if j < k { j } else { j + 1 }]);
    }
    assert forall|y: A| #[trigger] r.contains(y) implies s.contains(y) by {
        let i = r.index_of(y);
        assert(s[if i < k { i } else { i + 1 }] == y);
    }
}

/// A session is well-formed at its start.
pub proof fn law_session_starts_well_formed(
    peer: Seq<char>,
    settings: SessionSettings,
    now: u128,
)
    ensures
        SessionView::fresh(peer, settings, now).well_formed(),
{
}

/// What the entries of an `inv` message come to: the session stays well-formed, what
/// is asked for was not asked for before, in this message or in any other, and the
/// request for transactions has at most as many as the limit says.
pub proof fn law_inv_asks_only_once(session: SessionView, invs: Seq<Inventory>)
    requires
        session.well_formed(),
    ensures
        ({
            let done = session.inv_progress(invs);
            &&& done.session.well_formed()
            &&& done.session.settings == session.settings
            &&& done.tx_requests.len() <= session.settings.tx_request_limit_per_inv
            &&& session.settings.wants_tx() || done.tx_requests.len() == 0
            &&& done.session.requested_blocks == session.requested_blocks + Seq::new(
                done.block_requests.len(),
                |i: int| done.block_requests[i].hash,
            )
            &&& done.session.requested_txs == session.requested_txs + Seq::new(
                done.tx_requests.len(),
                |i: int| TxInventoryKey::from_inventory(&done.tx_requests[i])->0,
            )
        }),
    decreases invs.len(),
{
    if invs.len() == 0 {
        let done = session.inv_progress(invs);
        assert(done.session.requested_blocks =~= session.requested_blocks + Seq::new(
            0,
            |i: int| done.block_requests[i].hash,
        ));
        assert(done.session.requested_txs =~= session.requested_txs + Seq::new(
            0,
            |i: int| TxInventoryKey::from_inventory(&done.tx_requests[i])->0,
        ));
    } else {
        law_inv_asks_only_once(session, invs.drop_last());
        let before = session.inv_progress(invs.drop_last());
        let done = session.inv_progress(invs);
        let inv = invs.last();
        if inv.is_block() && !before.session.seen_blocks.contains(inv.hash) {
            lemma_push_keeps_distinct(before.session.seen_blocks, inv.hash);
            lemma_push_keeps_distinct(before.session.pending_blocks, inv.hash);
            lemma_push_contains(before.session.pending_blocks, inv.hash);
            lemma_push_contains(before.session.requested_blocks, inv.hash);
            assert(done.session.requested_blocks =~= session.requested_blocks + Seq::new(
                done.block_requests.len(),
                |i: int| done.block_requests[i].hash,
            ));
        } else if !inv.is_block() && inv.is_transaction() {
            let key = TxInventoryKey::from_inventory(&inv)->0;
            let queues = before.session.tx_queues(before.tx_requests);
            if queues.takes(
                inv,
                session.settings.wants_tx(),
                session.settings.tx_request_limit_per_inv,
            ) {
                lemma_push_keeps_distinct(before.session.seen_txs, key);
                lemma_push_keeps_distinct(before.session.pending_txs, key);
                lemma_push_contains(before.session.pending_txs, key);
                lemma_push_contains(before.session.requested_txs, key);
                law_key_inventory_round_trip(key);
                assert(done.session.requested_txs =~= session.requested_txs + Seq::new(
                    done.tx_requests.len(),
                    |i: int| TxInventoryKey::from_inventory(&done.tx_requests[i])->0,
                ));
            }
        }
    }
}

/// Every block that an `inv` message tells of has been asked for afterwards. Where it was
/// not asked for before, it is in the request that goes out, and its arrival is awaited.
pub proof fn law_every_announced_block_is_asked_for(
    session: SessionView,
    payload: Seq<u8>,
    invs: Seq<Inventory>,
    i: int,
)
    requires
        session.well_formed(),
        listed_inventory(payload) == Some(invs),
        0 <= i < invs.len(),
        invs[i].inv_type == 2,
    ensures
        ({
            let reaction = session.after_inv(payload);
            let requests = session.inv_progress(invs).block_requests;
            &&& reaction.session.requested_blocks.contains(invs[i].hash)
            &&& !session.requested_blocks.contains(invs[i].hash) ==> {
                &&& exists|k: int|
                    0 <= k < requests.len() && (#[trigger] requests[k]).inv_type == 2
                        && requests[k].hash == invs[i].hash
                &&& reaction.actions.contains(
                    ActionView::Send("getdata"@, inventory_message(requests)),
                )
                &&& reaction.session.pending_blocks.contains(invs[i].hash)
            }
        }),
{
    lemma_announced_block(session, invs, i);
    lemma_inv_awaits_requested(session, invs);
    law_inv_asks_only_once(session, invs);
    let done = session.inv_progress(invs);
    let reaction = session.after_inv(payload);
    let hash = invs[i].hash;
    if !session.requested_blocks.contains(hash) {
        let p = done.session.requested_blocks.index_of(hash);
        assert(p < session.requested_blocks.len() ==> session.requested_blocks[p] == hash);
        let k = p - session.requested_blocks.len();
        assert(done.block_requests[k].hash == hash);
        let sends = ActionView::Send("getdata"@, inventory_message(done.block_requests));
        assert(reaction.actions[done.actions.len() as int] == sends);
    }
}

proof fn lemma_announced_block(session: SessionView, invs: Seq<Inventory>, i: int)
    requires
        session.well_formed(),
        0 <= i < invs.len(),
        invs[i].is_block(),
    ensures
        session.inv_progress(invs).session.requested_blocks.contains(invs[i].hash),
    decreases invs.len(),
{
    let front = invs.drop_last();
    let before = session.inv_progress(front);
    law_inv_asks_only_once(session, front);
    lemma_push_contains(before.session.requested_blocks, invs.last().hash);
    if i < front.len() {
        assert(front[i] == invs[i]);
        lemma_announced_block(session, front, i);
    }
}

/// Every transaction that an `inv` message tells of has been asked for afterwards, where
/// transactions are wanted and the request did not grow to its limit. Where it was not
/// asked for before, it is in the request that goes out, and its arrival is awaited.
pub proof fn law_every_announced_tx_is_asked_for(
    session: SessionView,
    payload: Seq<u8>,
    invs: Seq<Inventory>,
    i: int,
    key: TxInventoryKey,
)
    requires
        session.well_formed(),
        session.settings.has_tx_cache || session.settings.has_tx_feed,
        listed_inventory(payload) == Some(invs),
        0 <= i < invs.len(),
        TxInventoryKey::from_inventory(&invs[i]) == Some(key),
        session.inv_progress(invs).tx_requests.len() < session.settings.tx_request_limit_per_inv,
    ensures
        ({
            let reaction = session.after_inv(payload);
            let requests = session.inv_progress(invs).tx_requests;
            &&& reaction.session.requested_txs.contains(key)
            &&& !session.requested_txs.contains(key) ==> {
                &&& requests.contains(key.to_inventory())
                &&& reaction.actions.contains(
                    ActionView::Send("getdata"@, inventory_message(requests)),
                )
                &&& reaction.session.pending_txs.contains(key)
            }
        }),
{
    lemma_announced_tx(session, invs, i, key);
    lemma_inv_awaits_requested(session, invs);
    law_inv_asks_only_once(session, invs);
    let done = session.inv_progress(invs);
    let reaction = session.after_inv(payload);
    if !session.requested_txs.contains(key) {
        let p = done.session.requested_txs.index_of(key);
        assert(p < session.requested_txs.len() ==> session.requested_txs[p] == key);
        let k = p - session.requested_txs.len();
        assert(done.tx_requests[k] == key.to_inventory());
        let sends = ActionView::Send("getdata"@, inventory_message(done.tx_requests));
        let blocks = request_actions(
            done.block_requests,
            block_request_reports(session.peer, done.block_requests),
        );
        assert(reaction.actions[(done.actions.len() + blocks.len()) as int] == sends);
    }
}

proof fn lemma_announced_tx(
    session: SessionView,
    invs: Seq<Inventory>,
    i: int,
    key: TxInventoryKey,
)
    requires
        session.well_formed(),
        session.settings.wants_tx(),
        0 <= i < invs.len(),
        TxInventoryKey::from_inventory(&invs[i]) == Some(key),
        session.inv_progress(invs).tx_requests.len() < session.settings.tx_request_limit_per_inv,
    ensures
        session.inv_progress(invs).session.requested_txs.contains(key),
    decreases invs.len(),
{
    let front = invs.drop_last();
    let before = session.inv_progress(front);
    law_inv_asks_only_once(session, front);
    if let Some(last) = TxInventoryKey::from_inventory(&invs.last()) {
        lemma_push_contains(before.session.requested_txs, last);
    }
    if i < front.len() {
        assert(front[i] == invs[i]);
        lemma_announced_tx(session, front, i, key);
    }
}

/// What the entries of an `inv` message ask for is awaited, only blocks are asked for as
/// blocks, and a transaction is asked for by the entry of its key.
proof fn lemma_inv_awaits_requested(session: SessionView, invs: Seq<Inventory>)
    requires
        session.well_formed(),
    ensures
        ({
            let done = session.inv_progress(invs);
            &&& forall|hash: Hash32| #[trigger]
                done.session.requested_blocks.contains(hash) ==> session.requested_blocks.contains(
                    hash,
                ) || done.session.pending_blocks.contains(hash)
            &&& forall|k: int|
                0 <= k < done.block_requests.len() ==> (#[trigger]
                done.block_requests[k]).is_block()
            &&& forall|key: TxInventoryKey| #[trigger]
                done.session.requested_txs.contains(key) ==> session.requested_txs.contains(key)
                    || done.session.pending_txs.contains(key)
            &&& forall|k: int|
                0 <= k < done.tx_requests.len() ==> #[trigger] done.tx_requests[k] == (
                TxInventoryKey::from_inventory(&done.tx_requests[k])->0).to_inventory()
        }),
    decreases invs.len(),
{
    if invs.len() > 0 {
        let front = invs.drop_last();
        let before = session.inv_progress(front);
        law_inv_asks_only_once(session, front);
        lemma_inv_awaits_requested(session, front);
        lemma_push_contains(before.session.requested_blocks, invs.last().hash);
        lemma_push_contains(before.session.pending_blocks, invs.last().hash);
        if let Some(key) = TxInventoryKey::from_inventory(&invs.last()) {
            lemma_push_contains(before.session.requested_txs, key);
            lemma_push_contains(before.session.pending_txs, key);
            law_key_inventory_round_trip(key);
        }
    }
}

/// Every message leaves the session well-formed, and what was asked for is never
/// forgotten, so in a whole session no block and no transaction is asked for twice.
pub proof fn law_messages_keep_session_well_formed(
    session: SessionView,
    command: Seq<char>,
    payload: Seq<u8>,
    consensus_hash: Seq<char>,
    now: u128,
    nonce: u64,
)
    requires
        session.well_formed(),
    ensures
        ({
            let after = session.after_message(
                command,
                payload,
                consensus_hash,
                now,
                nonce,
            ).session;
            &&& after.well_formed()
            &&& session.requested_blocks.is_prefix_of(after.requested_blocks)
            &&& session.requested_txs.is_prefix_of(after.requested_txs)
        }),
{
    if let Some(invs) = listed_inventory(payload) {
        law_inv_asks_only_once(session, invs);
    }
    let hash = block_hash_of(payload);
    session.pending_blocks.index_of_first_ensures(hash);
    if let Some(k) = session.pending_blocks.index_of_first(hash) {
        lemma_remove_keeps_distinct(session.pending_blocks, k);
    }
    if let Some(id) = payload_identity(
        payload,
        SOVRIGHT_P2P_CONSENSUS_BRANCH_ID,
    ) {
        identities(session.pending_txs).index_of_first_ensures(id);
        if let Some(k) = identities(session.pending_txs).index_of_first(id) {
            lemma_remove_keeps_distinct(session.pending_txs, k);
        }
    }
}

/// What a peer says of blocks, transactions and other peers before it has confirmed
/// the handshake leads to nothing.
pub proof fn law_nothing_counts_before_verack(
    session: SessionView,
    command: Seq<char>,
    payload: Seq<u8>,
    consensus_hash: Seq<char>,
    now: u128,
    nonce: u64,
)
    requires
        !session.saw_verack,
        command == "addr"@ || command == "inv"@ || command == "block"@ || command == "tx"@,
    ensures
        session.after_message(command, payload, consensus_hash, now, nonce) == session.does(seq![]),
{
    reveal_strlit("version");
    reveal_strlit("verack");
    reveal_strlit("reject");
    reveal_strlit("pong");
    reveal_strlit("ping");
    reveal_strlit("addr");
    reveal_strlit("inv");
    reveal_strlit("block");
    reveal_strlit("tx");
    assert("inv"@[0] == 'i' && "version"@[0] == 'v' && "verack"@[0] == 'v' && "reject"@[0] == 'r'
        && "pong"@[0] == 'p' && "ping"@[0] == 'p' && "addr"@[0] == 'a' && "block"@[0] == 'b'
        && "tx"@[0] == 't');
}

/// The handshake is confirmed only once, and only to a peer whose version is accepted.
pub proof fn law_verack_is_sent_once(session: SessionView, payload: Seq<u8>)
    ensures
        ({
            let reaction = session.after_version(payload);
            let sends = exists|i: int|
                0 <= i < reaction.actions.len() && #[trigger] reaction.actions[i]
                    == ActionView::Send("verack"@, seq![]);
            &&& sends ==> !session.sent_verack && reaction.session.sent_verack
            &&& session.sent_verack ==> reaction.session == session
            &&& sends ==> !(reaction.actions.last() is Fail)
        }),
{
}

/// An answer to a ping counts once, and an answer to another ping than the last one
/// does not count.
pub proof fn law_pong_counts_once(session: SessionView, payload: Seq<u8>, now: u128, later: u128)
    ensures
        session.after_pong(payload, now).session.after_pong(payload, later).actions
            == Seq::<ActionView>::empty(),
        session.ping_nonce != pong_number(payload) ==> session.after_pong(payload, now)
            == session.does(seq![]),
{
}

/// A peer that sends back what a ping carried has answered it; the time of the answer
/// counts from when the ping was out.
pub proof fn law_echo_answers_ping(
    session: SessionView,
    now: u128,
    nonce: u64,
    sent_at: u128,
    later: u128,
)
    ensures
        session.after_verack(now, nonce).session.after_sent("ping"@, sent_at).after_pong(
            le_bytes(nonce as nat, 8),
            later,
        ).actions == seq![
            ActionView::Emit(
                ping_rtt_record(session.peer, nonce as int, elapsed_ms(sent_at, later)),
            ),
        ],
{
    reveal_strlit("version");
    reveal_strlit("ping");
    assert("version"@.len() != "ping"@.len());
    lemma_le_bytes_len(nonce as nat, 8);
    lemma_span_values();
    lemma_le_round_trip(nonce as nat, 8);
}

/// That a message went out changes nothing but the two clocks, so what was asked for and
/// what is awaited stay as they are.
pub proof fn law_sending_only_starts_clocks(session: SessionView, command: Seq<char>, now: u128)
    ensures
        ({
            let after = session.after_sent(command, now);
            &&& after == SessionView {
                handshake_started: after.handshake_started,
                ping_started: after.ping_started,
                ..session
            }
            &&& session.well_formed() ==> after.well_formed()
        }),
{
}

/// A session fails on a version that is too old, on an incomplete list of addresses or
/// inventory, and on an incomplete block header; on no other message.
pub proof fn law_why_a_session_fails(
    session: SessionView,
    command: Seq<char>,
    payload: Seq<u8>,
    consensus_hash: Seq<char>,
    now: u128,
    nonce: u64,
    i: int,
)
    requires
        ({
            let actions = session.after_message(
                command,
                payload,
                consensus_hash,
                now,
                nonce,
            ).actions;
            0 <= i < actions.len() && actions[i] is Fail
        }),
    ensures
        ({
            let actions = session.after_message(
                command,
                payload,
                consensus_hash,
                now,
                nonce,
            ).actions;
            let error = actions[i]->Fail_0;
            &&& i == actions.len() - 1
            &&& {
                ||| command == "version"@ && exists|version: int| error == too_old(version)
                ||| (command == "addr"@ || command == "inv"@) && error == truncated()
                ||| command == "block"@ && error == short_header()
            }
        }),
{
    if let Some(invs) = listed_inventory(payload) {
        lemma_inv_never_fails(session, invs);
    }
}

proof fn lemma_inv_never_fails(session: SessionView, invs: Seq<Inventory>)
    ensures
        forall|i: int|
            0 <= i < session.inv_progress(invs).actions.len()
                ==> !(#[trigger] session.inv_progress(invs).actions[i] is Fail),
    decreases invs.len(),
{
    if invs.len() > 0 {
        lemma_inv_never_fails(session, invs.drop_last());
    }
}

/// Whatever the order in which a peer answers, a transaction is kept and handed on
/// under the identity that its own bytes give it, and the requests for others stay.
pub proof fn law_payload_decides_transaction(
    session: SessionView,
    payload: Seq<u8>,
    other: TxInventoryKey,
)
    requires
        match payload_identity(
            payload,
            SOVRIGHT_P2P_CONSENSUS_BRANCH_ID,
        ) {
            Some(id) => other.to_wtxid() != id,
            None => true,
        },
    ensures
        ({
            let reaction = session.after_tx(payload);
            &&& reaction.session.pending_txs.contains(other) <==> session.pending_txs.contains(other)
            &&& forall|i: int|
                0 <= i < reaction.actions.len() ==> match #[trigger] reaction.actions[i] {
                    ActionView::CacheTx(id) => Some(id) == payload_identity(
                        payload,
                        SOVRIGHT_P2P_CONSENSUS_BRANCH_ID,
                    ),
                    ActionView::FeedTx(id) => Some(id) == payload_identity(
                        payload,
                        SOVRIGHT_P2P_CONSENSUS_BRANCH_ID,
                    ),
                    ActionView::Emit(_) => true,
                    _ => false,
                }
        }),
{
    if let Some(id) = payload_identity(payload, SOVRIGHT_P2P_CONSENSUS_BRANCH_ID) {
        law_only_the_match_is_struck_off(session.pending_txs, id, other);
    }
}

} // verus!
