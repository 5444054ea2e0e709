//! What is said to a peer, and how what it says is understood.

use std::collections::VecDeque;
use vstd::prelude::*;
use vstd::string::StringSliceAdditionalSpecFns;

use crate::addr::{encode_network_address, network_address_bytes, PeerAddr};
use crate::bytes::{
    le_bytes, le_value, lemma_be_bytes_len, lemma_first_index, lemma_hash_view_injective, lemma_le_bytes_len,
    lemma_le_round_trip, lemma_no_index, lemma_span_values, push_all, push_le, read_le, same_hash, Hash32,
};
use crate::error::IngressError;
use crate::hash::{
    block_hash, display_hash, inventory_hash_to_display, raw_hash_from_header, short_header,
    ZCASH_FULL_HEADER_SIZE,
};
use crate::transaction::SOVRIGHT_P2P_CONSENSUS_BRANCH_ID;
use crate::tx_inventory::{
    payload_identity, same_key, same_wtxid, wtxid_from_tx_bytes, TxInventoryKey, WtxId,
};
use crate::wire::{
    compact_size_bytes, encode_compact_size, i32_from_le, read_i32_le, truncated, Inventory,
};

verus! {

/// The protocol version that is advertised. Peers that follow a network upgrade
/// complete the handshake with a node that advertises an older version and then relay
/// nothing to it, so this number moves with every upgrade.
pub const PROTOCOL_VERSION: i32 = 170_160;

/// The oldest protocol version that is accepted from a peer. It is behind the
/// advertised one, so that peers that are slow to upgrade still count.
pub const MIN_ACCEPTABLE_REMOTE_VERSION: i32 = 170_120;

/// How the ingress names itself to peers.
pub const USER_AGENT: &'static str = "/sovright-p2p-ingress:0.2.0/";

/// The element is in the list once more, unless it was there before.
pub open spec fn with_element<A>(s: Seq<A>, x: A) -> Seq<A> {
    if s.contains(x) {
        s
    } else {
        s.push(x)
    }
}

/// The list without the first occurrence of the element.
pub open spec fn without_first<A>(s: Seq<A>, x: A) -> Seq<A> {
    match s.index_of_first(x) {
        Some(k) => s.remove(k),
        None => s,
    }
}

/// The transactions that a peer told of, those that were asked for, those that are
/// still awaited, and what goes into the next request.
pub struct TxQueues {
    pub seen: Seq<TxInventoryKey>,
    pub requested: Seq<TxInventoryKey>,
    pub pending: Seq<TxInventoryKey>,
    pub requests: Seq<Inventory>,
}

impl TxQueues {
    /// Whether the entry leads to a request: transactions are wanted, the request has
    /// room, the entry names one, and it was neither seen nor asked for before.
    pub open spec fn takes(self, inv: Inventory, wanted: bool, limit: usize) -> bool {
        wanted && self.requests.len() < limit && match TxInventoryKey::from_inventory(&inv) {
            Some(key) => !self.seen.contains(key) && !self.requested.contains(key),
            None => false,
        }
    }

    /// The queues once the entry was looked at.
    pub open spec fn after(self, inv: Inventory, wanted: bool, limit: usize) -> TxQueues {
        if !wanted || self.requests.len() >= limit {
            self
        } else {
            match TxInventoryKey::from_inventory(&inv) {
                Some(key) => if self.seen.contains(key) {
                    self
                } else if self.requested.contains(key) {
                    TxQueues { seen: self.seen.push(key), ..self }
                } else {
                    TxQueues {
                        seen: self.seen.push(key),
                        requested: self.requested.push(key),
                        pending: self.pending.push(key),
                        requests: self.requests.push(key.to_inventory()),
                    }
                },
                None => self,
            }
        }
    }
}

/// Whether the key is in the list.
fn contains_key(keys: &Vec<TxInventoryKey>, key: &TxInventoryKey) -> (found: bool)
    ensures
        found == keys@.contains(*key),
{
    let mut i: usize = 0;
    while i < keys.len()
        invariant
            i <= keys.len(),
            forall|j: int| 0 <= j < i ==> keys@[j] != *key,
        decreases keys.len() - i,
    {
        if same_key(&keys[i], key) {
            assert(keys@[i as int] == *key);
            return true;
        }
        i = i + 1;
    }
    false
}

/// Adds the hash to the list, unless it is there; says whether it was not.
pub(crate) fn insert_hash(hashes: &mut Vec<Hash32>, hash: Hash32) -> (new: bool)
    ensures
        new == !old(hashes)@.contains(hash),
        final(hashes)@ == with_element(old(hashes)@, hash),
{
    let mut i: usize = 0;
    while i < hashes.len()
        invariant
            i <= hashes.len(),
            hashes@ == old(hashes)@,
            forall|j: int| 0 <= j < i ==> hashes@[j] != hash,
        decreases hashes.len() - i,
    {
        if same_hash(&hashes[i], &hash) {
            assert(hashes@[i as int] == hash);
            return false;
        }
        i = i + 1;
    }
    hashes.push(hash);
    true
}

/// Looks at an inventory entry of a transaction, and asks for the transaction where
/// that is wanted, the request has room, and it was not asked for before.
pub fn queue_tx_request(
    inv: Inventory,
    tx_cache_enabled: bool,
    request_limit: usize,
    seen: &mut Vec<TxInventoryKey>,
    requested: &mut Vec<TxInventoryKey>,
    pending: &mut VecDeque<TxInventoryKey>,
    requests: &mut Vec<Inventory>,
) -> (queued: Option<TxInventoryKey>)
    ensures
        ({
            let before = TxQueues {
                seen: old(seen)@,
                requested: old(requested)@,
                pending: old(pending)@,
                requests: old(requests)@,
            };
            let after = TxQueues {
                seen: final(seen)@,
                requested: final(requested)@,
                pending: final(pending)@,
                requests: final(requests)@,
            };
            &&& after == before.after(inv, tx_cache_enabled, request_limit)
            &&& queued == if before.takes(inv, tx_cache_enabled, request_limit) {
                TxInventoryKey::from_inventory(&inv)
            } else {
                None
            }
        }),
{
    if !tx_cache_enabled || requests.len() >= request_limit {
        return None;
    }
    let key = match TxInventoryKey::from_inventory(&inv) {
        Some(key) => key,
        None => {
            return None;
        },
    };
    if contains_key(seen, &key) {
        return None;
    }
    seen.push(key);
    if contains_key(requested, &key) {
        return None;
    }
    requested.push(key);
    pending.push_back(key);
    requests.push(key.to_inventory());
    Some(key)
}

/// The version that a `version` message starts with; `None` where it is incomplete.
pub open spec fn version_in(payload: Seq<u8>) -> Option<int> {
    if payload.len() >= 4 {
        Some(i32_from_le(payload.take(4)))
    } else {
        None
    }
}

/// Reads the version that a `version` message starts with.
pub fn remote_version(payload: &[u8]) -> (result: Result<i32, IngressError>)
    ensures
        match result {
            Ok(version) => version_in(payload@) == Some(version as int),
            Err(error) => version_in(payload@) is None && error@ == truncated(),
        },
{
    let mut cursor: usize = 0;
    let result = read_i32_le(payload, &mut cursor);
    assert(payload@.len() >= 4 ==> payload@.subrange(0, 4) =~= payload@.take(4));
    result
}

pub open spec fn acceptable_remote_version(remote_version: i32) -> bool {
    remote_version >= MIN_ACCEPTABLE_REMOTE_VERSION
}

/// Whether a peer that speaks this version is accepted.
pub fn is_acceptable_remote_version(remote_version: i32) -> (acceptable: bool)
    ensures
        acceptable == acceptable_remote_version(remote_version),
{
    remote_version >= MIN_ACCEPTABLE_REMOTE_VERSION
}

/// The number that a `pong` message answers to; a message of any other length than
/// eight bytes answers to none.
pub open spec fn pong_number(payload: Seq<u8>) -> Option<u64> {
    if payload.len() == 8 {
        Some(le_value(payload) as u64)
    } else {
        None
    }
}

/// The number that a `pong` message answers to.
pub fn pong_nonce(payload: &[u8]) -> (nonce: Option<u64>)
    ensures
        nonce == pong_number(payload@),
{
    if payload.len() == 8 {
        assert(payload@.subrange(0, 8) =~= payload@);
        Some(read_le(payload, 0, 8))
    } else {
        None
    }
}

/// The witnessed identities that the keys stand for.
pub open spec fn identities(keys: Seq<TxInventoryKey>) -> Seq<WtxId> {
    keys.map_values(|key: TxInventoryKey| key.to_wtxid())
}

/// The awaited transactions once one with the given identity arrived: the first that
/// stands for it is gone, all others stay where they were.
pub open spec fn without_identity(pending: Seq<TxInventoryKey>, id: WtxId) -> Seq<TxInventoryKey> {
    match identities(pending).index_of_first(id) {
        Some(k) => pending.remove(k),
        None => pending,
    }
}

/// Where the first request for a transaction of the given identity stands among those
/// that are awaited.
pub(crate) fn tx_place(pending: &VecDeque<TxInventoryKey>, id: &WtxId) -> (place: Option<usize>)
    ensures
        match place {
            Some(k) => k < pending@.len() && identities(pending@).index_of_first(*id) == Some(
                k as int,
            ),
            None => identities(pending@).index_of_first(*id) is None,
        },
{
    let mut i: usize = 0;
    while i < pending.len()
        invariant
            i <= pending@.len(),
            forall|j: int| 0 <= j < i ==> identities(pending@)[j] != *id,
        decreases pending@.len() - i,
    {
        let other = pending[i].to_wtxid();
        if same_wtxid(&other, id) {
            proof {
                lemma_first_index(identities(pending@), *id, i as int);
            }
            return Some(i);
        }
        i = i + 1;
    }
    proof {
        lemma_no_index(identities(pending@), *id);
    }
    None
}

/// Where the request for a block stands among those that are awaited.
pub(crate) fn block_place(pending: &VecDeque<Hash32>, hash: &Hash32) -> (place: Option<usize>)
    ensures
        match place {
            Some(k) => k < pending@.len() && pending@.index_of_first(*hash) == Some(k as int),
            None => pending@.index_of_first(*hash) is None,
        },
{
    let mut i: usize = 0;
    while i < pending.len()
        invariant
            i <= pending@.len(),
            forall|j: int| 0 <= j < i ==> pending@[j] != *hash,
        decreases pending@.len() - i,
    {
        if same_hash(&pending[i], hash) {
            proof {
                lemma_first_index(pending@, *hash, i as int);
            }
            return Some(i);
        }
        i = i + 1;
    }
    proof {
        lemma_no_index(pending@, *hash);
    }
    None
}

/// The identity under which a received transaction is kept. The payload decides it,
/// never the order in which transactions were asked for: a peer may answer in any
/// order and leave requests unanswered. `None` for a transaction without a derivable
/// identity, for which no guess is made.
pub fn wtxid_for_received_tx(
    pending_tx_responses: &mut VecDeque<TxInventoryKey>,
    payload: &[u8],
) -> (id: Option<WtxId>)
    ensures
        id == payload_identity(payload@, SOVRIGHT_P2P_CONSENSUS_BRANCH_ID),
        final(pending_tx_responses)@ == match id {
            Some(id) => without_identity(old(pending_tx_responses)@, id),
            None => old(pending_tx_responses)@,
        },
{
    let derived = match wtxid_from_tx_bytes(payload, SOVRIGHT_P2P_CONSENSUS_BRANCH_ID) {
        Some(derived) => derived,
        None => {
            return None;
        },
    };
    if let Some(place) = tx_place(pending_tx_responses, &derived) {
        pending_tx_responses.remove(place);
    }
    Some(derived)
}

/// The hash of the block that starts `payload`.
pub open spec fn block_hash_of(payload: Seq<u8>) -> Hash32 {
    choose|hash: Hash32| #[trigger] hash@ == block_hash(payload)
}

/// The hash of a received block, as text. The header decides it, whatever was asked
/// for; a request for that block, wherever it stands among those that are awaited, is
/// then no longer awaited.
pub fn received_block_display_hash(
    pending_block_responses: &mut VecDeque<Hash32>,
    block_payload: &[u8],
) -> (result: Result<String, IngressError>)
    ensures
        match result {
            Ok(text) => {
                &&& block_payload@.len() >= ZCASH_FULL_HEADER_SIZE
                &&& text@ == display_hash(block_hash(block_payload@))
                &&& final(pending_block_responses)@ == without_first(
                    old(pending_block_responses)@,
                    block_hash_of(block_payload@),
                )
            },
            Err(error) => {
                &&& block_payload@.len() < ZCASH_FULL_HEADER_SIZE
                &&& error@ == short_header()
                &&& final(pending_block_responses)@ == old(pending_block_responses)@
            },
        },
{
    let actual = match raw_hash_from_header(block_payload) {
        Ok(hash) => hash,
        Err(error) => {
            return Err(error);
        },
    };
    proof {
        lemma_hash_view_injective(actual, block_hash_of(block_payload@));
    }
    let text = inventory_hash_to_display(&actual);
    if let Some(place) = block_place(pending_block_responses, &actual) {
        pending_block_responses.remove(place);
    }
    Ok(text)
}

/// A text with its length in front.
pub open spec fn var_str_bytes(value: &str) -> Seq<u8> {
    compact_size_bytes(value.spec_bytes().len() as u64) + value.spec_bytes()
}

/// Appends a text with its length in front.
pub fn encode_var_str(value: &str, out: &mut Vec<u8>)
    ensures
        final(out)@ == old(out)@ + var_str_bytes(value),
{
    let bytes: &[u8] = value.as_bytes();
    encode_compact_size(bytes.len() as u64, out);
    push_all(out, bytes);
    assert(out@ =~= old(out)@ + var_str_bytes(value));
}

/// The number that marks a `version` or `ping` message, made of the time in seconds
/// and the number of the process.
pub open spec fn nonce_value(unix_secs: u64, pid: u32) -> u64 {
    ((unix_secs << 17) | (unix_secs >> 47)) ^ (pid as u64) ^ 0xbed0_c202_6052_1001
}

/// The number that marks a `version` or `ping` message: the time in seconds, its bits
/// rotated to the left by 17, mixed with the number of the process.
pub fn nonce(unix_secs: u64, pid: u32) -> (nonce: u64)
    ensures
        nonce == nonce_value(unix_secs, pid),
{
    ((unix_secs << 17) | (unix_secs >> 47)) ^ (pid as u64) ^ 0xbed0_c202_6052_1001
}

/// The payload of a `version` message: the version, no services, the time, the address
/// of the peer, no address of one's own, a nonce, the user agent, no blocks, no relay.
pub open spec fn version_bytes(peer_addr: PeerAddr, unix_secs: u64, nonce: u64) -> Seq<u8> {
    le_bytes(PROTOCOL_VERSION as nat, 4) + le_bytes(0, 8) + le_bytes(unix_secs as nat, 8)
        + network_address_bytes(peer_addr) + network_address_bytes(PeerAddr::V4 { host: 0, port: 0 })
        + le_bytes(nonce as nat, 8) + var_str_bytes(USER_AGENT) + le_bytes(0, 4) + seq![0u8]
}

/// The payload of the `version` message that opens a session.
pub fn version_payload(peer_addr: PeerAddr, unix_secs: u64, nonce: u64) -> (payload: Vec<u8>)
    ensures
        payload@ == version_bytes(peer_addr, unix_secs, nonce),
{
    let mut out: Vec<u8> = Vec::new();
    push_le(&mut out, PROTOCOL_VERSION as u64, 4);
    push_le(&mut out, 0, 8);
    push_le(&mut out, unix_secs, 8);
    encode_network_address(peer_addr, &mut out);
    encode_network_address(PeerAddr::v4(0, 0, 0, 0, 0), &mut out);
    push_le(&mut out, nonce, 8);
    encode_var_str(USER_AGENT, &mut out);
    push_le(&mut out, 0, 4);
    out.push(0);
    assert(out@ =~= version_bytes(peer_addr, unix_secs, nonce));
    out
}

/// A peer that reads the `version` message finds the version that is advertised, which
/// it would be accepted with itself.
pub proof fn law_version_is_read_back(peer_addr: PeerAddr, unix_secs: u64, nonce: u64)
    ensures
        version_in(version_bytes(peer_addr, unix_secs, nonce)) == Some(PROTOCOL_VERSION as int),
        acceptable_remote_version(PROTOCOL_VERSION),
{
    let head = le_bytes(PROTOCOL_VERSION as nat, 4);
    lemma_le_bytes_len(PROTOCOL_VERSION as nat, 4);
    lemma_span_values();
    lemma_le_round_trip(PROTOCOL_VERSION as nat, 4);
    assert(version_bytes(peer_addr, unix_secs, nonce).take(4) =~= head);
}

/// Whatever arrives, at most one awaited transaction is struck off, one that stands for
/// what arrived; every other one is still awaited.
pub proof fn law_only_the_match_is_struck_off(
    pending: Seq<TxInventoryKey>,
    id: WtxId,
    other: TxInventoryKey,
)
    requires
        other.to_wtxid() != id,
    ensures
        without_identity(pending, id).contains(other) <==> pending.contains(other),
        without_identity(pending, id).len() + 1 >= pending.len(),
        without_identity(pending, id).len() == pending.len() <==> !identities(pending).contains(id),
{
    identities(pending).index_of_first_ensures(id);
    if let Some(k) = identities(pending).index_of_first(id) {
        let rest = pending.remove(k);
        if pending.contains(other) {
            let i = pending.index_of(other);
            assert(identities(pending)[i] == other.to_wtxid());
            assert(i != k);
            assert(rest[if i < k { i } else { i - 1 }] == other);
        }
        if rest.contains(other) {
            let i = rest.index_of(other);
            assert(pending[if i < k { i } else { i + 1 }] == other);
        }
    }
}

/// The same of awaited blocks.
pub proof fn law_only_the_matching_block_is_struck_off(
    pending: Seq<Hash32>,
    hash: Hash32,
    other: Hash32,
)
    requires
        other != hash,
    ensures
        without_first(pending, hash).contains(other) <==> pending.contains(other),
        without_first(pending, hash).len() + 1 >= pending.len(),
        without_first(pending, hash).len() == pending.len() <==> !pending.contains(hash),
{
    pending.index_of_first_ensures(hash);
    if let Some(k) = pending.index_of_first(hash) {
        let rest = pending.remove(k);
        if pending.contains(other) {
            let i = pending.index_of(other);
            assert(rest[if i < k { i } else { i - 1 }] == other);
        }
        if rest.contains(other) {
            let i = rest.index_of(other);
            assert(pending[if i < k { i } else { i + 1 }] == other);
        }
    }
}

/// A transaction is asked for only once, a request never grows beyond its limit, and
/// nothing is asked for where transactions are not wanted.
pub proof fn law_transactions_are_asked_for_once(
    queues: TxQueues,
    inv: Inventory,
    wanted: bool,
    limit: usize,
)
    ensures
        ({
            let after = queues.after(inv, wanted, limit);
            let key = TxInventoryKey::from_inventory(&inv)->0;
            &&& queues.takes(inv, wanted, limit) ==> !queues.requested.contains(key)
                && after.requested.contains(key) && after.pending.contains(key)
                && !after.takes(inv, wanted, limit)
            &&& !queues.takes(inv, wanted, limit) ==> after.requests == queues.requests
                && after.pending == queues.pending
            &&& after.requests.len() <= queues.requests.len() + 1
            &&& queues.requests.len() <= limit ==> after.requests.len() <= limit
            &&& !wanted ==> after == queues
        }),
{
    let after = queues.after(inv, wanted, limit);
    if queues.takes(inv, wanted, limit) {
        let key = TxInventoryKey::from_inventory(&inv)->0;
        assert(after.requested[queues.requested.len() as int] == key);
        assert(after.pending[queues.pending.len() as int] == key);
        assert(after.seen[queues.seen.len() as int] == key);
    }
}

/// What a `version` message says, by place: version 170160, no services, the time, the
/// address of the peer, an address of all zeros, the nonce, the user agent with its length
/// in front, no blocks and no relay.
pub proof fn law_version_layout(peer_addr: PeerAddr, unix_secs: u64, nonce: u64)
    ensures
        ({
            let s = version_bytes(peer_addr, unix_secs, nonce);
            let agent = var_str_bytes(USER_AGENT);
            &&& s.len() == 85 + agent.len()
            &&& le_value(s.subrange(0, 4)) == 170160
            &&& le_value(s.subrange(4, 12)) == 0
            &&& le_value(s.subrange(12, 20)) == unix_secs
            &&& s.subrange(20, 46) == network_address_bytes(peer_addr)
            &&& s.subrange(46, 72) == network_address_bytes(PeerAddr::V4 { host: 0, port: 0 })
            &&& le_value(s.subrange(72, 80)) == nonce
            &&& s.subrange(80, 80 + agent.len() as int) == agent
            &&& le_value(s.subrange(80 + agent.len() as int, 84 + agent.len() as int)) == 0
            &&& s.last() == 0
        }),
{
    let s = version_bytes(peer_addr, unix_secs, nonce);
    let agent = var_str_bytes(USER_AGENT);
    let n = agent.len() as int;
    let own = PeerAddr::V4 { host: 0, port: 0 };
    lemma_span_values();
    lemma_le_bytes_len(PROTOCOL_VERSION as nat, 4);
    lemma_le_bytes_len(0, 8);
    lemma_le_bytes_len(0, 4);
    lemma_le_bytes_len(unix_secs as nat, 8);
    lemma_le_bytes_len(nonce as nat, 8);
    lemma_le_round_trip(PROTOCOL_VERSION as nat, 4);
    lemma_le_round_trip(0, 8);
    lemma_le_round_trip(0, 4);
    lemma_le_round_trip(unix_secs as nat, 8);
    lemma_le_round_trip(nonce as nat, 8);
    lemma_network_address_len(peer_addr);
    lemma_network_address_len(own);
    assert(s.subrange(0, 4) =~= le_bytes(PROTOCOL_VERSION as nat, 4));
    assert(s.subrange(4, 12) =~= le_bytes(0, 8));
    assert(s.subrange(12, 20) =~= le_bytes(unix_secs as nat, 8));
    assert(s.subrange(20, 46) =~= network_address_bytes(peer_addr));
    assert(s.subrange(46, 72) =~= network_address_bytes(own));
    assert(s.subrange(72, 80) =~= le_bytes(nonce as nat, 8));
    assert(s.subrange(80, 80 + n) =~= agent);
    assert(s.subrange(80 + n, 84 + n) =~= le_bytes(0, 4));
}

proof fn lemma_network_address_len(addr: PeerAddr)
    ensures
        network_address_bytes(addr).len() == 26,
{
    lemma_le_bytes_len(0, 8);
    lemma_be_bytes_len(addr.port() as nat, 2);
    match addr {
        PeerAddr::V4 { host, .. } => {
            lemma_be_bytes_len(host as nat, 4);
        },
        PeerAddr::V6 { host, .. } => {
            lemma_be_bytes_len(host as nat, 16);
        },
    }
}

/// The number that marks a message gives back the time that it was made of: with the
/// number of the process and the constant taken out, it is the time with its 64 bits
/// rotated left by 17. So two times, or two processes, never have the same number.
pub proof fn law_nonce_gives_the_time_back(unix_secs: u64, pid: u32, other_secs: u64, other_pid: u32)
    ensures
        ({
            let mixed = nonce_value(unix_secs, pid) ^ (pid as u64) ^ 0xbed0_c202_6052_1001u64;
            ((mixed >> 17) | (mixed << 47)) == unix_secs
        }),
        nonce_value(unix_secs, pid) == nonce_value(other_secs, pid) ==> unix_secs == other_secs,
        nonce_value(unix_secs, pid) == nonce_value(unix_secs, other_pid) ==> pid == other_pid,
{
    let p = pid as u64;
    let q = other_pid as u64;
    assert(({
        let v = ((unix_secs << 17) | (unix_secs >> 47)) ^ p ^ 0xbed0_c202_6052_1001u64;
        let mixed = v ^ p ^ 0xbed0_c202_6052_1001u64;
        ((mixed >> 17) | (mixed << 47)) == unix_secs
    })) by (bit_vector);
    assert(((unix_secs << 17) | (unix_secs >> 47)) ^ p ^ 0xbed0_c202_6052_1001u64 == ((other_secs
        << 17) | (other_secs >> 47)) ^ p ^ 0xbed0_c202_6052_1001u64 ==> unix_secs == other_secs)
        by (bit_vector);
    assert(((unix_secs << 17) | (unix_secs >> 47)) ^ p ^ 0xbed0_c202_6052_1001u64 == ((unix_secs
        << 17) | (unix_secs >> 47)) ^ q ^ 0xbed0_c202_6052_1001u64 ==> p == q) by (bit_vector);
}

/// Which entries of an inventory lead to a request: where transactions are wanted and the
/// request has room, those of a transaction that was neither told of nor asked for before.
/// Such a one is then told of, asked for and awaited, behind all others.
pub proof fn law_which_txs_are_asked_for(
    queues: TxQueues,
    inv: Inventory,
    wanted: bool,
    limit: usize,
    key: TxInventoryKey,
)
    requires
        TxInventoryKey::from_inventory(&inv) == Some(key),
    ensures
        ({
            let after = queues.after(inv, wanted, limit);
            let asks = wanted && queues.requests.len() < limit && !queues.seen.contains(key)
                && !queues.requested.contains(key);
            &&& queues.takes(inv, wanted, limit) <==> asks
            &&& asks ==> after.requests == queues.requests.push(key.to_inventory())
                && after.pending == queues.pending.push(key) && after.requested
                == queues.requested.push(key) && after.seen == queues.seen.push(key)
            &&& !asks ==> after.requests == queues.requests && after.pending == queues.pending
                && after.requested == queues.requested
        }),
{
}

/// The first request for a block that came is struck off, and the others keep their order;
/// the same of transactions, by the identity that each request stands for.
pub proof fn law_striking_off_keeps_order(
    blocks: Seq<Hash32>,
    hash: Hash32,
    txs: Seq<TxInventoryKey>,
    id: WtxId,
    k: int,
)
    ensures
        0 <= k < blocks.len() && blocks[k] == hash && (forall|j: int|
            0 <= j < k ==> #[trigger] blocks[j] != hash) ==> without_first(blocks, hash)
            == blocks.subrange(0, k) + blocks.subrange(k + 1, blocks.len() as int),
        0 <= k < txs.len() && txs[k].to_wtxid() == id && (forall|j: int|
            0 <= j < k ==> (#[trigger] txs[j]).to_wtxid() != id) ==> without_identity(txs, id)
            == txs.subrange(0, k) + txs.subrange(k + 1, txs.len() as int),
{
    if 0 <= k < blocks.len() && blocks[k] == hash && (forall|j: int|
        0 <= j < k ==> #[trigger] blocks[j] != hash) {
        lemma_first_index(blocks, hash, k);
        assert(blocks.remove(k) =~= blocks.subrange(0, k) + blocks.subrange(
            k + 1,
            blocks.len() as int,
        ));
    }
    if 0 <= k < txs.len() && txs[k].to_wtxid() == id && (forall|j: int|
        0 <= j < k ==> (#[trigger] txs[j]).to_wtxid() != id) {
        assert forall|j: int| 0 <= j < k implies #[trigger] identities(txs)[j] != id by {
            assert(txs[j].to_wtxid() != id);
        }
        lemma_first_index(identities(txs), id, k);
        assert(txs.remove(k) =~= txs.subrange(0, k) + txs.subrange(k + 1, txs.len() as int));
    }
}

} // verus!
