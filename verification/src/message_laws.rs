//! What comes of each kind of message, in terms of the message itself.

use vstd::prelude::*;

use crate::addr::PeerAddr;
use crate::bytes::{
    le_bytes, lemma_hash_view_injective, lemma_le_bytes_len, lemma_le_bytes_of_value,
    lemma_le_round_trip, lemma_le_value_bound, lemma_span_values, Hash32,
};
use crate::coinbase::{block_miner_script, block_tag};
use crate::error::ErrorView;
use crate::event::{
    block_inv_record, block_received_record, connect_timing_record, getdata_sent_record,
    handshake_complete_record, handshake_timing_record, peer_connected_record, peer_error_record,
    peer_version_record, ping_rtt_record, reject_record, relay_block_forwarded_record,
    tx_cache_snapshot_record, tx_feed_forwarded_record, tx_getdata_sent_record, tx_inv_record,
    tx_received_record,
};
use crate::hash::{block_hash, display_hash};
use crate::peer::{
    block_hash_of, identities, law_only_the_match_is_struck_off,
    law_only_the_matching_block_is_struck_off, version_bytes,
};
use crate::relay_bridge::ForwardedBlock;
use crate::session::{
    opening_actions, ActionView, SessionSettings, SessionView, TxCacheOutcome, TxCacheSnapshot,
};
use crate::tx_inventory::{
    law_key_wtxid_round_trip, no_auth_digest, payload_identity, TxInventoryKey, WtxId,
};
use crate::wire::{
    addr_entries, inventory_message, lemma_le_value_by_place, listed_inventory, Inventory,
};

verus! {

/// No two commands are the same.
proof fn lemma_commands_differ()
    ensures
        "version"@.len() == 7,
        "verack"@.len() == 6,
        "reject"@.len() == 6,
        "block"@.len() == 5,
        "pong"@.len() == 4,
        "ping"@.len() == 4,
        "addr"@.len() == 4,
        "inv"@.len() == 3,
        "tx"@.len() == 2,
        "verack"@ != "reject"@,
        "pong"@ != "ping"@,
        "pong"@ != "addr"@,
        "ping"@ != "addr"@,
{
    reveal_strlit("version");
    reveal_strlit("verack");
    reveal_strlit("reject");
    reveal_strlit("block");
    reveal_strlit("pong");
    reveal_strlit("ping");
    reveal_strlit("addr");
    reveal_strlit("inv");
    reveal_strlit("tx");
    assert("verack"@[0] == 'v' && "reject"@[0] == 'r');
    assert("pong"@[1] == 'o' && "ping"@[1] == 'i' && "addr"@[0] == 'a');
    assert("pong"@[0] == 'p' && "ping"@[0] == 'p');
}

/// Every block that comes with a whole header is reported, credited to the peer and, where
/// there is a relay, forwarded under the hash of its header, whether it was asked for or
/// not. Without a relay none is forwarded. What else is awaited stays awaited.
pub proof fn law_every_block_is_forwarded(
    session: SessionView,
    payload: Seq<u8>,
    consensus_hash: Seq<char>,
    now: u128,
    nonce: u64,
    hash: Hash32,
    other: Hash32,
)
    requires
        session.saw_verack,
        payload.len() >= 1487,
        hash@ == block_hash(payload),
        other@ != block_hash(payload),
    ensures
        ({
            let reaction = session.after_message(
                "block"@,
                payload,
                consensus_hash,
                now,
                nonce,
            );
            let forward = ActionView::ForwardBlock(display_hash(block_hash(payload)));
            let report = ActionView::Emit(
                block_received_record(
                    session.peer,
                    display_hash(block_hash(payload)),
                    consensus_hash,
                    payload.len() as int,
                    block_miner_script(payload),
                    block_tag(payload),
                ),
            );
            let credit = ActionView::ScorePeer(
                session.settings.score_block_received,
                "block_received"@,
            );
            &&& session.settings.has_relay <==> reaction.actions.contains(forward)
            &&& reaction.actions.contains(report)
            &&& reaction.actions.contains(credit)
            &&& forall|i: int|
                0 <= i < reaction.actions.len() ==> {
                    ||| #[trigger] reaction.actions[i] == forward && i == 2
                    ||| reaction.actions[i] == report && i == 0
                    ||| reaction.actions[i] == credit && i == 1
                }
            &&& reaction.session.pending_blocks.contains(other)
                <==> session.pending_blocks.contains(other)
            &&& session.pending_blocks.no_duplicates()
                ==> !reaction.session.pending_blocks.contains(hash)
            &&& reaction.session == SessionView {
                pending_blocks: reaction.session.pending_blocks,
                ..session
            }
        }),
{
    lemma_commands_differ();
    let reaction = session.after_message("block"@, payload, consensus_hash, now, nonce);
    let display = display_hash(block_hash(payload));
    let found = block_hash_of(payload);
    assert(found@ == block_hash(payload));
    lemma_hash_view_injective(found, hash);
    law_only_the_matching_block_is_struck_off(session.pending_blocks, found, other);
    assert(reaction == session.after_block(payload, consensus_hash));
    assert(reaction.actions[0] is Emit);
    assert(reaction.actions[1] is ScorePeer);
    if session.settings.has_relay {
        assert(reaction.actions[2] == ActionView::ForwardBlock(display));
    }
    let pending = session.pending_blocks;
    pending.index_of_first_ensures(hash);
    if pending.no_duplicates() && reaction.session.pending_blocks.contains(hash) {
        let after = reaction.session.pending_blocks;
        let i = after.index_of(hash);
        if let Some(k) = pending.index_of_first(hash) {
            assert(pending[if i < k { i } else { i + 1 }] == hash);
        }
    }
}

/// A block message without a whole header ends the session and changes nothing.
pub proof fn law_short_block_ends_the_session(
    session: SessionView,
    payload: Seq<u8>,
    consensus_hash: Seq<char>,
    now: u128,
    nonce: u64,
)
    requires
        session.saw_verack,
        payload.len() < 1487,
    ensures
        ({
            let reaction = session.after_message(
                "block"@,
                payload,
                consensus_hash,
                now,
                nonce,
            );
            &&& reaction.session == session
            &&& reaction.actions.len() == 1
            &&& reaction.actions[0] == ActionView::Fail(
                ErrorView::Wire("block payload is shorter than its header"@),
            )
        }),
{
    lemma_commands_differ();
}

/// A transaction that has an identity of its own is kept where there is a cache and handed
/// on where there is a feed, under that identity, whether it was asked for or not, and
/// nothing else is done. The first request for it is struck off, every other one stays.
pub proof fn law_every_identified_tx_is_kept_and_handed_on(
    session: SessionView,
    payload: Seq<u8>,
    consensus_hash: Seq<char>,
    now: u128,
    nonce: u64,
    id: WtxId,
    other: TxInventoryKey,
)
    requires
        session.saw_verack,
        payload_identity(payload, 0x37a5_165b) == Some(id),
        other.to_wtxid() != id,
    ensures
        ({
            let reaction = session.after_message("tx"@, payload, consensus_hash, now, nonce);
            &&& session.settings.has_tx_cache <==> reaction.actions.contains(
                ActionView::CacheTx(id),
            )
            &&& session.settings.has_tx_feed <==> reaction.actions.contains(ActionView::FeedTx(id))
            &&& reaction.actions.len() == (if session.settings.has_tx_cache {
                1int
            } else {
                0
            }) + (if session.settings.has_tx_feed {
                1int
            } else {
                0
            })
            &&& reaction.session.pending_txs.contains(other) <==> session.pending_txs.contains(
                other,
            )
            &&& (forall|i: int|
                0 <= i < session.pending_txs.len() ==> (#[trigger]
                session.pending_txs[i]).to_wtxid() != id) ==> reaction.session.pending_txs
                == session.pending_txs
            &&& (exists|i: int|
                0 <= i < session.pending_txs.len() && (#[trigger]
                session.pending_txs[i]).to_wtxid() == id) ==> reaction.session.pending_txs.len()
                == session.pending_txs.len() - 1
            &&& reaction.session == SessionView {
                pending_txs: reaction.session.pending_txs,
                ..session
            }
        }),
{
    lemma_commands_differ();
    let reaction = session.after_message("tx"@, payload, consensus_hash, now, nonce);
    assert(reaction == session.after_tx(payload));
    law_only_the_match_is_struck_off(session.pending_txs, id, other);
    let pending = session.pending_txs;
    let ids = identities(pending);
    ids.index_of_first_ensures(id);
    if ids.contains(id) {
        let k = ids.index_of(id);
        assert(pending[k].to_wtxid() == id);
    }
    if exists|i: int| 0 <= i < pending.len() && (#[trigger] pending[i]).to_wtxid() == id {
        let i = choose|i: int| 0 <= i < pending.len() && (#[trigger] pending[i]).to_wtxid() == id;
        assert(ids[i] == id);
    }
    if session.settings.has_tx_cache {
        assert(reaction.actions[0] == ActionView::CacheTx(id));
    }
    if session.settings.has_tx_feed {
        assert(reaction.actions.last() == ActionView::FeedTx(id));
    }
}

/// A transaction without an identity is neither kept nor handed on and strikes off no
/// request. It is reported where transactions are wanted.
pub proof fn law_unidentified_tx_is_only_reported(
    session: SessionView,
    payload: Seq<u8>,
    consensus_hash: Seq<char>,
    now: u128,
    nonce: u64,
)
    requires
        session.saw_verack,
        payload_identity(payload, 0x37a5_165b) is None,
    ensures
        ({
            let reaction = session.after_message("tx"@, payload, consensus_hash, now, nonce);
            &&& reaction.session == session
            &&& if session.settings.has_tx_cache || session.settings.has_tx_feed {
                reaction.actions.len() == 1 && reaction.actions[0] == ActionView::Emit(
                    peer_error_record(
                        session.peer,
                        "received tx with no derivable wtxid; not cached"@,
                    ),
                )
            } else {
                reaction.actions.len() == 0
            }
        }),
{
    lemma_commands_differ();
}

/// A peer whose version is 170120 or later is reported and its version confirmed, once in
/// a session; any other ends the session. The version is the first four bytes, least
/// significant first, as a signed number; a message without them counts as version zero.
pub proof fn law_version_decides(
    session: SessionView,
    payload: Seq<u8>,
    consensus_hash: Seq<char>,
    now: u128,
    nonce: u64,
)
    ensures
        ({
            let reaction = session.after_message(
                "version"@,
                payload,
                consensus_hash,
                now,
                nonce,
            );
            let number = payload[0] + 0x100 * payload[1] + 0x1_0000 * payload[2] + 0x100_0000
                * payload[3];
            let version = if payload.len() < 4 {
                0
            } else if number < 0x8000_0000 {
                number
            } else {
                number - 0x1_0000_0000
            };
            let confirms = reaction.actions.contains(ActionView::Send("verack"@, seq![]));
            &&& reaction.actions.len() > 0
            &&& reaction.actions[0] == ActionView::Emit(
                peer_version_record(session.peer, version),
            )
            &&& confirms <==> version >= 170120 && !session.sent_verack
            &&& version >= 170120 ==> reaction.session == SessionView {
                sent_verack: true,
                ..session
            }
            &&& version < 170120 ==> reaction.session == session && reaction.actions.len() == 2
                && reaction.actions[1] is Fail
            &&& version >= 170120 ==> forall|i: int|
                0 < i < reaction.actions.len() ==> #[trigger] reaction.actions[i]
                    == ActionView::Send("verack"@, seq![]) && i == 1
        }),
{
    if payload.len() >= 4 {
        let head = payload.take(4);
        lemma_le_value_by_place(head);
    }
    let reaction = session.after_message("version"@, payload, consensus_hash, now, nonce);
    assert(reaction == session.after_version(payload));
    if reaction.actions.len() > 1 && reaction.actions[1] is Send {
        assert(reaction.actions[1] == ActionView::Send("verack"@, seq![]));
    }
}

/// A peer that confirms the handshake is reported, with the milliseconds since the version
/// message went out, pinged with the given number and asked for addresses. From then on
/// what it says counts.
pub proof fn law_verack_opens_the_exchange(
    session: SessionView,
    payload: Seq<u8>,
    consensus_hash: Seq<char>,
    now: u128,
    nonce: u64,
)
    ensures
        ({
            let reaction = session.after_message(
                "verack"@,
                payload,
                consensus_hash,
                now,
                nonce,
            );
            let ms = if now > session.handshake_started {
                (now - session.handshake_started) / 1_000_000
            } else {
                0
            };
            &&& reaction.session == SessionView {
                saw_verack: true,
                ping_nonce: Some(nonce),
                ping_started: None,
                ..session
            }
            &&& reaction.actions.len() == 4
            &&& reaction.actions[0] == ActionView::Emit(handshake_complete_record(session.peer))
            &&& reaction.actions[1] == ActionView::Emit(handshake_timing_record(session.peer, ms))
            &&& reaction.actions[2] == ActionView::Send("ping"@, le_bytes(nonce as nat, 8))
            &&& reaction.actions[3] == ActionView::Send("getaddr"@, seq![])
        }),
{
    lemma_commands_differ();
}

/// A ping is answered with a pong that carries the same bytes, at any time; a reject is
/// reported with its length. Neither changes the session.
pub proof fn law_ping_is_echoed(
    session: SessionView,
    payload: Seq<u8>,
    consensus_hash: Seq<char>,
    now: u128,
    nonce: u64,
)
    ensures
        ({
            let ping = session.after_message("ping"@, payload, consensus_hash, now, nonce);
            let reject = session.after_message("reject"@, payload, consensus_hash, now, nonce);
            &&& ping.session == session
            &&& ping.actions.len() == 1
            &&& ping.actions[0] == ActionView::Send("pong"@, payload)
            &&& reject.session == session
            &&& reject.actions.len() == 1
            &&& reject.actions[0] == ActionView::Emit(
                reject_record(session.peer, payload.len() as int),
            )
        }),
{
    lemma_commands_differ();
}

/// A pong of eight bytes that spell the number of the open ping, least significant first,
/// closes it; where the ping is known to have gone out, the milliseconds since then are
/// reported. No other pong does anything.
pub proof fn law_pong_closes_its_ping(
    session: SessionView,
    payload: Seq<u8>,
    consensus_hash: Seq<char>,
    now: u128,
    nonce: u64,
    asked: u64,
    started: u128,
)
    requires
        session.ping_nonce == Some(asked),
    ensures
        ({
            let reaction = session.after_message("pong"@, payload, consensus_hash, now, nonce);
            let ms = if now > started {
                (now - started) / 1_000_000
            } else {
                0
            };
            if payload == le_bytes(asked as nat, 8) {
                &&& reaction.session == SessionView {
                    ping_nonce: None,
                    ping_started: None,
                    ..session
                }
                &&& session.ping_started == Some(started) ==> reaction.actions.len() == 1
                    && reaction.actions[0] == ActionView::Emit(
                    ping_rtt_record(session.peer, asked as int, ms),
                )
                &&& session.ping_started is None ==> reaction.actions.len() == 0
            } else {
                reaction.session == session && reaction.actions.len() == 0
            }
        }),
{
    lemma_commands_differ();
    lemma_span_values();
    lemma_le_bytes_len(asked as nat, 8);
    lemma_le_round_trip(asked as nat, 8);
    if payload.len() == 8 {
        lemma_le_value_bound(payload);
        lemma_le_bytes_of_value(payload);
    }
}

/// A pong without an open ping does nothing.
pub proof fn law_pong_without_ping_does_nothing(
    session: SessionView,
    payload: Seq<u8>,
    consensus_hash: Seq<char>,
    now: u128,
    nonce: u64,
)
    requires
        session.ping_nonce is None,
    ensures
        ({
            let reaction = session.after_message("pong"@, payload, consensus_hash, now, nonce);
            reaction.session == session && reaction.actions.len() == 0
        }),
{
    lemma_commands_differ();
}

/// The addresses that a peer tells of go to the crawler, as many as are read of one
/// message; a message that is cut short ends the session. The session does not change.
pub proof fn law_addresses_go_to_the_crawler(
    session: SessionView,
    payload: Seq<u8>,
    consensus_hash: Seq<char>,
    now: u128,
    nonce: u64,
)
    requires
        session.saw_verack,
    ensures
        ({
            let reaction = session.after_message("addr"@, payload, consensus_hash, now, nonce);
            &&& reaction.session == session
            &&& reaction.actions.len() == 1
            &&& reaction.actions[0] == match addr_entries(
                payload,
                session.settings.max_addr_per_message,
            ) {
                Some(addrs) => ActionView::Discover(addrs),
                None => ActionView::Fail(ErrorView::Wire("payload is truncated"@)),
            }
        }),
{
    lemma_commands_differ();
}

/// A message of any other kind does nothing.
pub proof fn law_other_messages_do_nothing(
    session: SessionView,
    command: Seq<char>,
    payload: Seq<u8>,
    consensus_hash: Seq<char>,
    now: u128,
    nonce: u64,
)
    requires
        command != "version"@,
        command != "verack"@,
        command != "reject"@,
        command != "pong"@,
        command != "ping"@,
        command != "addr"@,
        command != "inv"@,
        command != "block"@,
        command != "tx"@,
    ensures
        ({
            let reaction = session.after_message(command, payload, consensus_hash, now, nonce);
            reaction.session == session && reaction.actions.len() == 0
        }),
{
}

/// A session begins with nothing seen, asked for or awaited, and with the report of the
/// connection and the version message.
pub proof fn law_how_a_session_begins(
    peer: Seq<char>,
    peer_addr: PeerAddr,
    settings: SessionSettings,
    connect_ms: u128,
    now: u128,
    unix_secs: u64,
    nonce: u64,
)
    ensures
        ({
            let session = SessionView::fresh(peer, settings, now);
            let actions = opening_actions(peer, peer_addr, connect_ms, unix_secs, nonce);
            &&& session.peer == peer
            &&& session.settings == settings
            &&& !session.saw_verack && !session.sent_verack
            &&& session.handshake_started == now
            &&& session.ping_nonce is None && session.ping_started is None
            &&& session.seen_blocks.len() == 0 && session.requested_blocks.len() == 0
            &&& session.pending_blocks.len() == 0
            &&& session.seen_txs.len() == 0 && session.requested_txs.len() == 0
            &&& session.pending_txs.len() == 0
            &&& actions.len() == 3
            &&& actions[0] == ActionView::Emit(connect_timing_record(peer, connect_ms as int))
            &&& actions[1] == ActionView::Emit(peer_connected_record(peer))
            &&& actions[2] == ActionView::Send(
                "version"@,
                version_bytes(peer_addr, unix_secs, nonce),
            )
        }),
{
}

/// When the version message goes out the time of the handshake starts, and when the ping
/// goes out that of the ping; no other message starts a clock.
pub proof fn law_which_messages_start_clocks(session: SessionView, command: Seq<char>, now: u128)
    ensures
        session.after_sent("version"@, now).handshake_started == now,
        session.after_sent("version"@, now).ping_started == session.ping_started,
        session.after_sent("ping"@, now).ping_started == Some(now),
        session.after_sent("ping"@, now).handshake_started == session.handshake_started,
        command != "version"@ && command != "ping"@ ==> session.after_sent(command, now) == session,
{
    lemma_commands_differ();
}

/// Some entry of the list announces the block.
pub open spec fn announces(invs: Seq<Inventory>, hash: Hash32) -> bool {
    exists|i: int| 0 <= i < invs.len() && (#[trigger] invs[i]).inv_type == 2 && invs[i].hash == hash
}

/// Some entry of the list names the transaction.
pub open spec fn names_tx(invs: Seq<Inventory>, key: TxInventoryKey) -> bool {
    exists|i: int|
        #![trigger invs[i]]
        0 <= i < invs.len() && TxInventoryKey::from_inventory(&invs[i]) == Some(key)
}

/// What an `inv` message leads to before anything is asked for: the peer is credited for
/// each block that it tells of for the first time, and for no other, once, and each is
/// reported. Each transaction that is to be asked for is reported. Only what the message
/// tells of is asked for.
pub proof fn law_announcements_are_credited_once(
    session: SessionView,
    invs: Seq<Inventory>,
    hash: Hash32,
)
    ensures
        ({
            let done = session.inv_progress(invs);
            let new = !session.seen_blocks.contains(hash) && announces(invs, hash);
            &&& done.actions.contains(ActionView::ScoreAnnouncement(hash)) <==> new
            &&& new ==> done.actions.contains(
                ActionView::Emit(block_inv_record(session.peer, display_hash(hash@))),
            )
            &&& forall|p: int, q: int|
                0 <= p < q < done.actions.len() && #[trigger] done.actions[p]
                    == ActionView::ScoreAnnouncement(hash) ==> #[trigger] done.actions[q]
                    != ActionView::ScoreAnnouncement(hash)
            &&& forall|p: int|
                0 <= p < done.actions.len() ==> #[trigger] done.actions[p] is Emit
                    || done.actions[p] is ScoreAnnouncement
            &&& done.session.seen_blocks.contains(hash) <==> session.seen_blocks.contains(hash)
                || announces(invs, hash)
            &&& forall|k: int|
                0 <= k < done.block_requests.len() ==> invs.contains(
                    #[trigger] done.block_requests[k],
                ) && done.block_requests[k].inv_type == 2
            &&& forall|k: int|
                #![trigger done.tx_requests[k]]
                0 <= k < done.tx_requests.len() ==> {
                    let key = TxInventoryKey::from_inventory(&done.tx_requests[k]);
                    &&& key is Some
                    &&& names_tx(invs, key->0)
                    &&& done.actions.contains(
                        ActionView::Emit(
                            tx_inv_record(
                                session.peer,
                                (key->0).kind()@,
                                display_hash((key->0).txid()@),
                            ),
                        ),
                    )
                }
            &&& done.session.peer == session.peer
        }),
    decreases invs.len(),
{
    let done = session.inv_progress(invs);
    if invs.len() > 0 {
        let front = invs.drop_last();
        let inv = invs.last();
        law_announcements_are_credited_once(session, front, hash);
        law_announcements_are_credited_once(session, front, inv.hash);
        let before = session.inv_progress(front);
        if announces(front, hash) {
            let i = choose|i: int|
                0 <= i < front.len() && (#[trigger] front[i]).inv_type == 2 && front[i].hash
                    == hash;
            assert(invs[i] == front[i]);
        }
        assert(invs[invs.len() - 1] == inv);
        if announces(invs, hash) && !(inv.inv_type == 2 && inv.hash == hash) {
            let i = choose|i: int|
                0 <= i < invs.len() && (#[trigger] invs[i]).inv_type == 2 && invs[i].hash == hash;
            assert(front[i] == invs[i]);
        }
        lemma_contains_grown(before.actions, done.actions);
        assert forall|k: int| 0 <= k < done.block_requests.len() implies invs.contains(
            #[trigger] done.block_requests[k],
        ) && done.block_requests[k].inv_type == 2 by {
            if k < before.block_requests.len() {
                assert(done.block_requests[k] == before.block_requests[k]);
                let i = front.index_of(before.block_requests[k]);
                assert(invs[i] == done.block_requests[k]);
            }
        }
        if inv.inv_type == 2 && !before.session.seen_blocks.contains(inv.hash) {
            let n = before.actions.len() as int;
            assert(done.actions[n] == ActionView::Emit(
                block_inv_record(session.peer, display_hash(inv.hash@)),
            ));
            assert(done.actions[n + 1] == ActionView::ScoreAnnouncement(inv.hash));
            let seen = before.session.seen_blocks;
            assert(seen.push(inv.hash)[seen.len() as int] == inv.hash);
            if seen.contains(hash) {
                assert(seen.push(inv.hash)[seen.index_of(hash)] == hash);
            }
            if seen.push(inv.hash).contains(hash) && hash != inv.hash {
                let i = seen.push(inv.hash).index_of(hash);
                assert(seen[i] == hash);
            }
        }
        assert forall|k: int|
            #![trigger done.tx_requests[k]]
            0 <= k < done.tx_requests.len() implies {
            let key = TxInventoryKey::from_inventory(&done.tx_requests[k]);
            &&& key is Some
            &&& names_tx(invs, key->0)
            &&& done.actions.contains(
                ActionView::Emit(
                    tx_inv_record(
                        session.peer,
                        (key->0).kind()@,
                        display_hash((key->0).txid()@),
                    ),
                ),
            )
        } by {
            if k < before.tx_requests.len() {
                assert(done.tx_requests[k] == before.tx_requests[k]);
                let key = TxInventoryKey::from_inventory(&before.tx_requests[k])->0;
                let i = choose|i: int|
                    #![trigger front[i]]
                    0 <= i < front.len() && TxInventoryKey::from_inventory(&front[i]) == Some(key);
                assert(invs[i] == front[i]);
            } else {
                let key = TxInventoryKey::from_inventory(&inv)->0;
                assert(done.tx_requests[k] == key.to_inventory());
                assert(done.actions[before.actions.len() as int] == ActionView::Emit(
                    tx_inv_record(session.peer, key.kind()@, display_hash(key.txid()@)),
                ));
                assert(TxInventoryKey::from_inventory(&invs[invs.len() - 1]) == Some(key));
            }
        }
    }
}

/// A list that another one starts with keeps all that it holds.
proof fn lemma_contains_grown(short: Seq<ActionView>, long: Seq<ActionView>)
    requires
        short.is_prefix_of(long),
    ensures
        forall|a: ActionView| #[trigger] short.contains(a) ==> long.contains(a),
{
    assert forall|a: ActionView| #[trigger] short.contains(a) implies long.contains(a) by {
        assert(long[short.index_of(a)] == a);
    }
}

/// What the first entries of an `inv` message lead to does not depend on those behind
/// them: requests and reports stand in the order of the entries.
pub proof fn law_entries_count_in_their_order(
    session: SessionView,
    invs: Seq<Inventory>,
    more: Seq<Inventory>,
)
    ensures
        ({
            let first = session.inv_progress(invs);
            let all = session.inv_progress(invs + more);
            &&& first.block_requests.is_prefix_of(all.block_requests)
            &&& first.tx_requests.is_prefix_of(all.tx_requests)
            &&& first.actions.is_prefix_of(all.actions)
            &&& first.session.pending_blocks.is_prefix_of(all.session.pending_blocks)
            &&& first.session.pending_txs.is_prefix_of(all.session.pending_txs)
        }),
    decreases more.len(),
{
    if more.len() == 0 {
        assert(invs + more =~= invs);
    } else {
        law_entries_count_in_their_order(session, invs, more.drop_last());
        assert((invs + more).drop_last() =~= invs + more.drop_last());
    }
}

/// What an `inv` message leads to in the end: behind the reports of what was told, one
/// request for the blocks and one for the transactions, each where there is something to
/// ask for, and behind each request one report for each thing that it asks for. Nothing
/// else is sent. A message that is cut short ends the session and changes nothing.
pub proof fn law_what_an_inv_asks_for(
    session: SessionView,
    payload: Seq<u8>,
    consensus_hash: Seq<char>,
    now: u128,
    nonce: u64,
)
    requires
        session.saw_verack,
    ensures
        ({
            let reaction = session.after_message("inv"@, payload, consensus_hash, now, nonce);
            match listed_inventory(payload) {
                Some(invs) => {
                    let done = session.inv_progress(invs);
                    let (blocks, txs) = (done.block_requests, done.tx_requests);
                    let b = done.actions.len() as int;
                    let t = b + if blocks.len() > 0 {
                        1 + blocks.len()
                    } else {
                        0
                    };
                    &&& reaction.session == done.session
                    &&& reaction.actions.len() == t + if txs.len() > 0 {
                        1 + txs.len()
                    } else {
                        0
                    }
                    &&& done.actions.is_prefix_of(reaction.actions)
                    &&& blocks.len() > 0 ==> reaction.actions[b] == ActionView::Send(
                        "getdata"@,
                        inventory_message(blocks),
                    )
                    &&& forall|k: int|
                        #![trigger blocks[k]]
                        0 <= k < blocks.len() ==> reaction.actions[b + 1 + k] == ActionView::Emit(
                            getdata_sent_record(session.peer, display_hash(blocks[k].hash@)),
                        )
                    &&& txs.len() > 0 ==> reaction.actions[t] == ActionView::Send(
                        "getdata"@,
                        inventory_message(txs),
                    )
                    &&& forall|k: int|
                        #![trigger txs[k]]
                        0 <= k < txs.len() ==> {
                            let key = TxInventoryKey::from_inventory(&txs[k])->0;
                            reaction.actions[t + 1 + k] == ActionView::Emit(
                                tx_getdata_sent_record(
                                    session.peer,
                                    key.kind()@,
                                    display_hash(key.txid()@),
                                ),
                            )
                        }
                },
                None => {
                    &&& reaction.session == session
                    &&& reaction.actions.len() == 1
                    &&& reaction.actions[0] == ActionView::Fail(
                        ErrorView::Wire("payload is truncated"@),
                    )
                },
            }
        }),
{
    lemma_commands_differ();
    let reaction = session.after_message("inv"@, payload, consensus_hash, now, nonce);
    assert(reaction == session.after_inv(payload));
}

/// With nobody to want transactions, none is asked for.
pub proof fn law_unwanted_txs_are_not_asked_for(session: SessionView, invs: Seq<Inventory>)
    requires
        !session.settings.has_tx_cache && !session.settings.has_tx_feed,
    ensures
        session.inv_progress(invs).tx_requests.len() == 0,
        session.inv_progress(invs).session.pending_txs == session.pending_txs,
        session.inv_progress(invs).session.settings == session.settings,
    decreases invs.len(),
{
    if invs.len() > 0 {
        law_unwanted_txs_are_not_asked_for(session, invs.drop_last());
    }
}

/// A block that went into the relay, in whichever mode, is reported with what was sent and
/// credited to the peer; one that did not is reported with the error and credited to nobody.
pub proof fn law_what_the_relay_did_is_reported(
    session: SessionView,
    display: Seq<char>,
    forwarded: ForwardedBlock,
    error: ErrorView,
)
    ensures
        ({
            let taken = session.after_forwarded(display, Ok(forwarded));
            let refused = session.after_forwarded(display, Err(error));
            &&& taken.len() == 2
            &&& taken[0] == ActionView::Emit(
                relay_block_forwarded_record(
                    session.peer,
                    display,
                    forwarded.bytes as int,
                    forwarded.tx_count as int,
                    forwarded.mode.as_str()@,
                    forwarded.relay_objects as int,
                ),
            )
            &&& taken[1] == ActionView::ScorePeer(
                session.settings.score_relay_forwarded,
                "relay_forwarded"@,
            )
            &&& refused.len() == 1
            &&& refused[0] == ActionView::Emit(
                peer_error_record(session.peer, "relay forward failed: "@ + error.text()),
            )
        }),
{
}

/// A transaction that was offered to the cache or handed to the feed is reported under its
/// own txid, as one with or without a digest; one that the feed refused with its words.
pub proof fn law_what_became_of_a_tx_is_reported(
    session: SessionView,
    key: TxInventoryKey,
    bytes: int,
    outcome: TxCacheOutcome,
    snapshot: TxCacheSnapshot,
    text: Seq<char>,
)
    requires
        match key {
            TxInventoryKey::Tx(_) => true,
            TxInventoryKey::Wtx(_, auth_digest) => auth_digest != no_auth_digest(),
        },
    ensures
        ({
            let id = key.to_wtxid();
            let cached = session.after_cached(id, bytes, outcome, snapshot);
            let (kind, hash) = match key {
                TxInventoryKey::Tx(hash) => ("tx"@, hash),
                TxInventoryKey::Wtx(hash, _) => ("wtx"@, hash),
            };
            &&& cached.len() == 2
            &&& cached[0] == ActionView::Emit(
                tx_received_record(
                    session.peer,
                    kind,
                    display_hash(hash@),
                    bytes,
                    outcome.entries as int,
                    outcome.bytes as int,
                    outcome.evicted_entries as int,
                    outcome.evicted_bytes as int,
                    outcome.dropped_too_large as int,
                ),
            )
            &&& cached[1] == ActionView::Emit(
                tx_cache_snapshot_record(
                    snapshot.entries as int,
                    snapshot.bytes as int,
                    snapshot.max_entries as int,
                    snapshot.max_bytes as int,
                    snapshot.max_tx_bytes as int,
                    snapshot.evicted_entries_total as int,
                    snapshot.evicted_bytes_total as int,
                    snapshot.dropped_too_large_total as int,
                ),
            )
            &&& session.after_fed(id, bytes, Ok(())) == tx_feed_forwarded_record(
                session.peer,
                kind,
                display_hash(hash@),
                bytes,
            )
            &&& session.after_fed(id, bytes, Err(text)) == peer_error_record(
                session.peer,
                "tx feed forward failed: "@ + text,
            )
        }),
{
    law_key_wtxid_round_trip(key);
}

} // verus!
