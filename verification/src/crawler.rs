//! Which peer to dial next.

use std::collections::VecDeque;
use vstd::prelude::*;

use crate::addr::{accepted_peer_addr, is_accepted_peer_addr, PeerAddr, PeerIp};
use crate::config::Config;
use crate::event::{
    peer_discovered_record, peer_rotation_record, peer_score_record, EventRecord, EventSink,
};

verus! {

/// How many nanoseconds a millisecond has.
pub const NANOS_PER_MILLI: u128 = 1_000_000;

/// How a session with a peer ended.
#[derive(Debug, Clone, Copy, PartialEq, Eq, Structural)]
pub enum PeerOutcome {
    Rotated,
    Errored,
}

impl PeerOutcome {
    pub open spec fn spec_as_str(self) -> &'static str {
        match self {
            PeerOutcome::Rotated => "rotated",
            PeerOutcome::Errored => "errored",
        }
    }

    /// The outcome as a word.
    #[verifier::when_used_as_spec(spec_as_str)]
    pub fn as_str(self) -> (word: &'static str)
        ensures
            word == self.spec_as_str(),
    {
        match self {
            PeerOutcome::Rotated => "rotated",
            PeerOutcome::Errored => "errored",
        }
    }
}

/// What the crawler knows of a peer. Times are nanoseconds on the caller's
/// monotonic clock.
#[derive(Debug, Clone, Copy, PartialEq, Eq, Structural)]
pub struct PeerRecord {
    /// The peer is handed out and was not given back yet.
    pub active: bool,
    /// The peer stands in the queue.
    pub queued: bool,
    /// The peer is not handed out before this time.
    pub eligible_at: u128,
    pub score: i64,
    /// The place of the peer in the order in which peers became known.
    pub sequence: u64,
}

/// The settings of a crawler.
pub struct CrawlerRules {
    pub enabled: bool,
    pub rotation_enabled: bool,
    pub rotation_cooldown: u128,
    pub rotation_failure_cooldown: u128,
    pub max_known_peers: usize,
    pub accept_nonstandard_ports: bool,
    pub excluded_peer_ips: Seq<PeerIp>,
    pub peer_scoring_enabled: bool,
}

/// The mathematical value of a [`Crawler`].
pub struct CrawlerView {
    pub peers: Map<PeerAddr, PeerRecord>,
    pub queue: Seq<PeerAddr>,
    pub next_sequence: u64,
    pub rules: CrawlerRules,
}

/// What became of a list of addresses that a peer told of.
pub struct Discovery {
    pub crawler: CrawlerView,
    /// The places in the list of the addresses that were new.
    pub accepted: Seq<int>,
    /// The limit was met, and the rest of the list is ignored.
    pub full: bool,
}

/// `n + 1`, but no more than the largest `u64`.
pub open spec fn next_after(n: u64) -> u64 {
    if n == u64::MAX {
        n
    } else {
        (n + 1) as u64
    }
}

/// `score + delta`, kept inside the range of `i64`.
pub open spec fn saturating_score(score: i64, delta: i64) -> i64 {
    if score + delta > i64::MAX {
        i64::MAX
    } else if score + delta < i64::MIN {
        i64::MIN
    } else {
        (score + delta) as i64
    }
}

impl CrawlerRules {
    /// The rules that a configuration asks for.
    pub open spec fn of(config: Config) -> CrawlerRules {
        CrawlerRules {
            enabled: config.crawler_enabled,
            rotation_enabled: config.rotation_enabled,
            rotation_cooldown: config.rotation_cooldown,
            rotation_failure_cooldown: config.rotation_failure_cooldown,
            max_known_peers: config.crawler_max_known_peers,
            accept_nonstandard_ports: config.accept_nonstandard_ports,
            excluded_peer_ips: config.excluded_peer_ips@,
            peer_scoring_enabled: config.peer_scoring_enabled,
        }
    }

    /// Whether a peer at `addr` may become known: its port is accepted and its
    /// host is not excluded.
    pub open spec fn admits(self, addr: PeerAddr) -> bool {
        accepted_peer_addr(addr, self.accept_nonstandard_ports)
            && !self.excluded_peer_ips.contains(addr.ip())
    }

    /// How long a peer rests after the given outcome.
    pub open spec fn cooldown(self, outcome: PeerOutcome) -> u128 {
        if !self.rotation_enabled {
            0
        } else {
            match outcome {
                PeerOutcome::Rotated => self.rotation_cooldown,
                PeerOutcome::Errored => self.rotation_failure_cooldown,
            }
        }
    }
}

impl CrawlerView {
    /// What holds of every crawler: the queue holds each queued peer once and no
    /// other, no peer is queued and handed out at once, and every known peer is
    /// one that the rules admit.
    pub open spec fn well_formed(self) -> bool {
        &&& self.peers.dom().finite()
        &&& self.queue.no_duplicates()
        &&& forall|a: PeerAddr|
            #![trigger self.queue.contains(a)]
            #![trigger self.peers.contains_key(a)]
            self.queue.contains(a) <==> self.peers.contains_key(a) && self.peers[a].queued
        &&& forall|a: PeerAddr| #[trigger]
            self.peers.contains_key(a) ==> !(self.peers[a].queued && self.peers[a].active)
        &&& forall|a: PeerAddr| #[trigger]
            self.peers.contains_key(a) ==> self.rules.admits(a)
    }

    /// The record of a peer that has just become known.
    pub open spec fn fresh_record(self, now: u128) -> PeerRecord {
        PeerRecord {
            active: false,
            queued: true,
            eligible_at: now,
            score: 0,
            sequence: self.next_sequence,
        }
    }

    /// The crawler with one more known peer, at the end of the queue.
    pub open spec fn with_new_peer(self, addr: PeerAddr, now: u128) -> CrawlerView {
        CrawlerView {
            peers: self.peers.insert(addr, self.fresh_record(now)),
            queue: self.queue.push(addr),
            next_sequence: next_after(self.next_sequence),
            ..self
        }
    }

    /// The crawler with one more address of the initial list taken in. One that was
    /// there before changes nothing.
    pub open spec fn seeded_with(self, addr: PeerAddr, now: u128) -> CrawlerView {
        if !self.rules.admits(addr) || self.peers.contains_key(addr) {
            self
        } else {
            self.with_new_peer(addr, now)
        }
    }

    /// The crawler that starts with the addresses of a list.
    pub open spec fn seeded(rules: CrawlerRules, addrs: Seq<PeerAddr>, now: u128) -> CrawlerView
        decreases addrs.len(),
    {
        if addrs.len() == 0 {
            CrawlerView { peers: Map::empty(), queue: seq![], next_sequence: 0, rules }
        } else {
            CrawlerView::seeded(rules, addrs.drop_last(), now).seeded_with(addrs.last(), now)
        }
    }

    /// What becomes of a list of addresses: each that the rules admit and that is
    /// not known is added, until so many are known that no more are wanted.
    pub open spec fn discovered(self, addrs: Seq<PeerAddr>, now: u128) -> Discovery
        decreases addrs.len(),
    {
        if addrs.len() == 0 {
            Discovery { crawler: self, accepted: seq![], full: false }
        } else {
            let before = self.discovered(addrs.drop_last(), now);
            let addr = addrs.last();
            if before.full || !self.rules.admits(addr) {
                before
            } else if before.crawler.peers.len() >= self.rules.max_known_peers {
                Discovery { full: true, ..before }
            } else if before.crawler.peers.contains_key(addr) {
                before
            } else {
                Discovery {
                    crawler: before.crawler.with_new_peer(addr, now),
                    accepted: before.accepted.push(addrs.len() - 1),
                    full: false,
                }
            }
        }
    }

    /// Whether the peer at place `k` of the queue may be handed out.
    pub open spec fn eligible(self, k: int, now: u128) -> bool {
        let record = self.peers[self.queue[k]];
        0 <= k < self.queue.len() && !record.active && record.eligible_at <= now
    }

    /// The peer at place `i` of the queue comes before the one at place `j`: by a
    /// higher score, then by being known longer, then by its place.
    pub open spec fn ranks_before(self, i: int, j: int) -> bool {
        let a = self.peers[self.queue[i]];
        let b = self.peers[self.queue[j]];
        ||| a.score > b.score
        ||| a.score == b.score && a.sequence < b.sequence
        ||| a.score == b.score && a.sequence == b.sequence && i < j
    }

    /// The peer at place `k` of the queue is the one to hand out: with scoring the
    /// eligible one that ranks first, without it the first eligible one.
    pub open spec fn is_choice(self, k: int, now: u128) -> bool {
        &&& self.eligible(k, now)
        &&& forall|j: int|
            #![trigger self.eligible(j, now)]
            self.eligible(j, now) && j != k ==> if self.rules.peer_scoring_enabled {
                self.ranks_before(k, j)
            } else {
                k < j
            }
    }

    /// The crawler once the peer at place `k` of the queue is handed out. Without
    /// scoring those that were passed over move to the end of the queue.
    pub open spec fn handed_out(self, k: int) -> CrawlerView {
        let addr = self.queue[k];
        CrawlerView {
            peers: self.peers.insert(
                addr,
                PeerRecord { active: true, queued: false, ..self.peers[addr] },
            ),
            queue: if self.rules.peer_scoring_enabled {
                self.queue.remove(k)
            } else {
                self.queue.skip(k + 1) + self.queue.take(k)
            },
            ..self
        }
    }

    /// The crawler once a known peer is given back.
    pub open spec fn released(self, addr: PeerAddr, outcome: PeerOutcome, now: u128) -> CrawlerView {
        let record = self.peers[addr];
        if self.rules.rotation_enabled {
            CrawlerView {
                peers: self.peers.insert(
                    addr,
                    PeerRecord {
                        active: false,
                        queued: true,
                        eligible_at: (now + self.rules.cooldown(outcome)) as u128,
                        ..record
                    },
                ),
                queue: if record.queued {
                    self.queue
                } else {
                    self.queue.push(addr)
                },
                ..self
            }
        } else {
            CrawlerView {
                peers: self.peers.insert(addr, PeerRecord { active: false, ..record }),
                ..self
            }
        }
    }

    /// The crawler once any peer is given back; one that is not known changes nothing.
    pub open spec fn after_release(
        self,
        addr: PeerAddr,
        outcome: PeerOutcome,
        now: u128,
    ) -> CrawlerView {
        if self.peers.contains_key(addr) {
            self.released(addr, outcome, now)
        } else {
            self
        }
    }

    /// The crawler once a peer is credited or charged.
    pub open spec fn after_score(self, addr: PeerAddr, delta: i64) -> CrawlerView {
        if self.rules.peer_scoring_enabled && delta != 0 && self.peers.contains_key(addr) {
            self.scored(addr, delta)
        } else {
            self
        }
    }

    /// The crawler once a list of addresses was told of.
    pub open spec fn after_discovery(self, addrs: Seq<PeerAddr>, now: u128) -> CrawlerView {
        if self.rules.enabled {
            self.discovered(addrs, now).crawler
        } else {
            self
        }
    }

    /// The crawler once the score of a known peer is changed.
    pub open spec fn scored(self, addr: PeerAddr, delta: i64) -> CrawlerView {
        let record = self.peers[addr];
        CrawlerView {
            peers: self.peers.insert(
                addr,
                PeerRecord { score: saturating_score(record.score, delta), ..record },
            ),
            ..self
        }
    }
}

/// A crawler that has taken in one more peer is well-formed.
proof fn lemma_new_peer_keeps(view: CrawlerView, addr: PeerAddr, now: u128)
    requires
        view.well_formed(),
        view.rules.admits(addr),
        !view.peers.contains_key(addr),
    ensures
        view.with_new_peer(addr, now).well_formed(),
        view.with_new_peer(addr, now).peers.len() == view.peers.len() + 1,
{
    let next = view.with_new_peer(addr, now);
    assert forall|a: PeerAddr| #[trigger] next.queue.contains(a) <==> (view.queue.contains(a) || a
        == addr) by {
        if view.queue.contains(a) {
            let i = view.queue.index_of(a);
            assert(next.queue[i] == a);
        }
        assert(next.queue[view.queue.len() as int] == addr);
        if next.queue.contains(a) {
            let i = next.queue.index_of(a);
            assert(i < view.queue.len() ==> view.queue[i] == a);
        }
    }
    assert forall|a: PeerAddr|
        next.queue.contains(a) <==> #[trigger] next.peers.contains_key(a) && next.peers[a].queued by {
        assert(view.queue.contains(a) <==> view.peers.contains_key(a) && view.peers[a].queued);
        assert(next.queue.contains(a) <==> (view.queue.contains(a) || a == addr));
    }
    assert(!view.queue.contains(addr));
    assert forall|i: int, j: int|
        0 <= i < next.queue.len() && 0 <= j < next.queue.len() && i != j implies next.queue[i]
        != next.queue[j] by {
        if i < view.queue.len() && j < view.queue.len() {
            assert(view.queue[i] != view.queue[j]);
        } else if i < view.queue.len() {
            assert(view.queue.contains(view.queue[i]));
        } else {
            assert(view.queue.contains(view.queue[j]));
        }
    }
}

/// A crawler that replaces the record of a known peer by one that is queued as
/// before and not handed out where it is queued is well-formed.
proof fn lemma_record_keeps(view: CrawlerView, addr: PeerAddr, record: PeerRecord)
    requires
        view.well_formed(),
        view.peers.contains_key(addr),
        record.queued == view.peers[addr].queued,
        !(record.queued && record.active),
    ensures
        (CrawlerView { peers: view.peers.insert(addr, record), ..view }).well_formed(),
        view.peers.insert(addr, record).len() == view.peers.len(),
{
    let next = CrawlerView { peers: view.peers.insert(addr, record), ..view };
    assert forall|a: PeerAddr|
        next.queue.contains(a) <==> #[trigger] next.peers.contains_key(a) && next.peers[a].queued by {
        assert(view.queue.contains(a) <==> view.peers.contains_key(a) && view.peers[a].queued);
    }
    assert forall|a: PeerAddr| #[trigger] next.peers.contains_key(a) implies next.rules.admits(a) by {
        assert(view.peers.contains_key(a));
    }
    assert(next.peers.dom() =~= view.peers.dom());
}

/// The queue once the peer at place `k` was taken out holds every other peer once.
proof fn lemma_handed_out_queue(view: CrawlerView, k: int)
    requires
        view.queue.no_duplicates(),
        0 <= k < view.queue.len(),
    ensures
        view.handed_out(k).queue.no_duplicates(),
        forall|a: PeerAddr| #[trigger]
            view.handed_out(k).queue.contains(a) <==> view.queue.contains(a) && a != view.queue[k],
{
    let q = view.queue;
    let r = view.handed_out(k).queue;
    if view.rules.peer_scoring_enabled {
        assert forall|a: PeerAddr| #[trigger] r.contains(a) <==> q.contains(a) && a != q[k] by {
            if r.contains(a) {
                let i = r.index_of(a);
                assert(q[if i < k { i } else { i + 1 }] == a);
            }
            if q.contains(a) && a != q[k] {
                let i = q.index_of(a);
                assert(r[if i < k { i } else { i - 1 }] == a);
            }
        }
        assert forall|i: int, j: int| 0 <= i < r.len() && 0 <= j < r.len() && i != j implies r[i]
            != r[j] by {
            assert(q[if i < k { i } else { i + 1 }] != q[if j < k { j } else { j + 1 }]);
        }
    } else {
        let m = q.len() - (k + 1);
        assert forall|a: PeerAddr| #[trigger] r.contains(a) <==> q.contains(a) && a != q[k] by {
            if r.contains(a) {
                let i = r.index_of(a);
                assert(q[if i < m { i + k + 1 } else { i - m }] == a);
            }
            if q.contains(a) && a != q[k] {
                let i = q.index_of(a);
                assert(r[if i < k { i + m } else { i - (k + 1) }] == a);
            }
        }
        assert forall|i: int, j: int| 0 <= i < r.len() && 0 <= j < r.len() && i != j implies r[i]
            != r[j] by {
            assert(q[if i < m { i + k + 1 } else { i - m }] != q[if j < m { j + k + 1 } else { j - m }]);
        }
    }
}

/// A crawler that has handed out an eligible peer is well-formed.
proof fn lemma_handed_out_keeps(view: CrawlerView, k: int)
    requires
        view.well_formed(),
        0 <= k < view.queue.len(),
    ensures
        view.handed_out(k).well_formed(),
        view.handed_out(k).peers.len() == view.peers.len(),
{
    let next = view.handed_out(k);
    lemma_handed_out_queue(view, k);
    assert(view.queue.contains(view.queue[k]));
    assert(view.peers.contains_key(view.queue[k]));
    assert forall|a: PeerAddr|
        next.queue.contains(a) <==> #[trigger] next.peers.contains_key(a) && next.peers[a].queued by {
        assert(view.queue.contains(a) <==> view.peers.contains_key(a) && view.peers[a].queued);
        assert(next.queue.contains(a) <==> view.queue.contains(a) && a != view.queue[k]);
    }
    assert forall|a: PeerAddr| #[trigger] next.peers.contains_key(a) implies next.rules.admits(a) by {
        assert(view.peers.contains_key(a));
    }
    assert(next.peers.dom() =~= view.peers.dom());
}

/// A crawler that was given a peer back is well-formed.
proof fn lemma_released_keeps(view: CrawlerView, addr: PeerAddr, outcome: PeerOutcome, now: u128)
    requires
        view.well_formed(),
        view.peers.contains_key(addr),
    ensures
        view.released(addr, outcome, now).well_formed(),
        view.released(addr, outcome, now).peers.len() == view.peers.len(),
{
    let record = view.peers[addr];
    let next = view.released(addr, outcome, now);
    assert(next.peers.dom() =~= view.peers.dom());
    if !view.rules.rotation_enabled {
        lemma_record_keeps(view, addr, PeerRecord { active: false, ..record });
    } else if record.queued {
        lemma_record_keeps(view, addr, next.peers[addr]);
    } else {
        assert(!view.queue.contains(addr));
        assert forall|a: PeerAddr| #[trigger] next.queue.contains(a) <==> (view.queue.contains(a)
            || a == addr) by {
            if view.queue.contains(a) {
                assert(next.queue[view.queue.index_of(a)] == a);
            }
            assert(next.queue[view.queue.len() as int] == addr);
            if next.queue.contains(a) {
                let i = next.queue.index_of(a);
                assert(i < view.queue.len() ==> view.queue[i] == a);
            }
        }
        assert forall|a: PeerAddr|
            next.queue.contains(a) <==> #[trigger] next.peers.contains_key(a)
                && next.peers[a].queued by {
            assert(view.queue.contains(a) <==> view.peers.contains_key(a) && view.peers[a].queued);
            assert(next.queue.contains(a) <==> (view.queue.contains(a) || a == addr));
        }
        assert forall|i: int, j: int|
            0 <= i < next.queue.len() && 0 <= j < next.queue.len() && i != j implies next.queue[i]
            != next.queue[j] by {
            if i < view.queue.len() && j < view.queue.len() {
                assert(view.queue[i] != view.queue[j]);
            } else if i < view.queue.len() {
                assert(view.queue.contains(view.queue[i]));
            } else {
                assert(view.queue.contains(view.queue[j]));
            }
        }
        assert forall|a: PeerAddr| #[trigger] next.peers.contains_key(a) implies next.rules.admits(
            a,
        ) by {
            assert(view.peers.contains_key(a));
        }
    }
}

/// Once the limit is met, the rest of the list changes nothing.
proof fn lemma_discovery_stays_full(view: CrawlerView, addrs: Seq<PeerAddr>, n: int, now: u128)
    requires
        0 <= n <= addrs.len(),
        view.discovered(addrs.take(n), now).full,
    ensures
        view.discovered(addrs, now) == view.discovered(addrs.take(n), now),
    decreases addrs.len() - n,
{
    if n == addrs.len() {
        assert(addrs.take(n) =~= addrs);
    } else {
        assert(addrs.take(n + 1).drop_last() =~= addrs.take(n));
        lemma_discovery_stays_full(view, addrs, n + 1, now);
    }
}

/// The map that a list of distinct addresses with their records stands for.
spec fn table(entries: Seq<(PeerAddr, PeerRecord)>) -> Map<PeerAddr, PeerRecord>
    decreases entries.len(),
{
    if entries.len() == 0 {
        Map::empty()
    } else {
        table(entries.drop_last()).insert(entries.last().0, entries.last().1)
    }
}

/// No address stands in the list twice.
spec fn distinct(entries: Seq<(PeerAddr, PeerRecord)>) -> bool {
    forall|i: int, j: int|
        0 <= i < j < entries.len() ==> (#[trigger] entries[i]).0 != (#[trigger] entries[j]).0
}

proof fn lemma_table_get(entries: Seq<(PeerAddr, PeerRecord)>, i: int)
    requires
        distinct(entries),
        0 <= i < entries.len(),
    ensures
        table(entries).contains_key(entries[i].0),
        table(entries)[entries[i].0] == entries[i].1,
    decreases entries.len(),
{
    if i < entries.len() - 1 {
        assert(entries.drop_last()[i] == entries[i]);
        assert forall|a: int, b: int| 0 <= a < b < entries.drop_last().len() implies (
        #[trigger] entries.drop_last()[a]).0 != (#[trigger] entries.drop_last()[b]).0 by {
            assert(entries[a].0 != entries[b].0);
        }
        lemma_table_get(entries.drop_last(), i);
        assert(entries[i].0 != entries[entries.len() - 1].0);
    }
}

proof fn lemma_table_absent(entries: Seq<(PeerAddr, PeerRecord)>, addr: PeerAddr)
    requires
        forall|i: int| 0 <= i < entries.len() ==> (#[trigger] entries[i]).0 != addr,
    ensures
        !table(entries).contains_key(addr),
    decreases entries.len(),
{
    if entries.len() > 0 {
        assert forall|i: int| 0 <= i < entries.drop_last().len() implies (
        #[trigger] entries.drop_last()[i]).0 != addr by {
            assert(entries[i].0 != addr);
        }
        lemma_table_absent(entries.drop_last(), addr);
        assert(entries[entries.len() - 1].0 != addr);
    }
}

proof fn lemma_table_len(entries: Seq<(PeerAddr, PeerRecord)>)
    requires
        distinct(entries),
    ensures
        table(entries).dom().finite(),
        table(entries).len() == entries.len(),
    decreases entries.len(),
{
    if entries.len() > 0 {
        let front = entries.drop_last();
        assert forall|a: int, b: int| 0 <= a < b < front.len() implies (#[trigger] front[a]).0 != (
        #[trigger] front[b]).0 by {
            assert(entries[a].0 != entries[b].0);
        }
        lemma_table_len(front);
        assert forall|i: int| 0 <= i < front.len() implies (#[trigger] front[i]).0
            != entries.last().0 by {
            assert(entries[i].0 != entries[entries.len() - 1].0);
        }
        lemma_table_absent(front, entries.last().0);
    }
}

proof fn lemma_table_update(entries: Seq<(PeerAddr, PeerRecord)>, i: int, record: PeerRecord)
    requires
        distinct(entries),
        0 <= i < entries.len(),
    ensures
        distinct(entries.update(i, (entries[i].0, record))),
        table(entries.update(i, (entries[i].0, record))) == table(entries).insert(
            entries[i].0,
            record,
        ),
    decreases entries.len(),
{
    let addr = entries[i].0;
    let updated = entries.update(i, (addr, record));
    assert forall|a: int, b: int| 0 <= a < b < updated.len() implies (#[trigger] updated[a]).0 != (
    #[trigger] updated[b]).0 by {
        assert(entries[a].0 != entries[b].0);
    }
    let front = entries.drop_last();
    if i == entries.len() - 1 {
        assert(updated.drop_last() =~= front);
        assert(table(updated) =~= table(entries).insert(addr, record));
    } else {
        assert forall|a: int, b: int| 0 <= a < b < front.len() implies (#[trigger] front[a]).0 != (
        #[trigger] front[b]).0 by {
            assert(entries[a].0 != entries[b].0);
        }
        lemma_table_update(front, i, record);
        assert(updated.drop_last() =~= front.update(i, (addr, record)));
        assert(entries[i].0 != entries[entries.len() - 1].0);
        assert(table(updated) =~= table(entries).insert(addr, record));
    }
}

proof fn lemma_table_push(entries: Seq<(PeerAddr, PeerRecord)>, addr: PeerAddr, record: PeerRecord)
    requires
        distinct(entries),
        !table(entries).contains_key(addr),
    ensures
        distinct(entries.push((addr, record))),
        table(entries.push((addr, record))) == table(entries).insert(addr, record),
{
    let grown = entries.push((addr, record));
    assert(grown.drop_last() =~= entries);
    assert forall|a: int, b: int| 0 <= a < b < grown.len() implies (#[trigger] grown[a]).0 != (
    #[trigger] grown[b]).0 by {
        if b == entries.len() {
            lemma_table_get(entries, a);
        } else {
            assert(entries[a].0 != entries[b].0);
        }
    }
}

/// The peers that are known, who of them is handed out, and in which order the
/// others wait.
pub struct Crawler {
    peers: Vec<(PeerAddr, PeerRecord)>,
    queue: VecDeque<PeerAddr>,
    next_sequence: u64,
    enabled: bool,
    rotation_enabled: bool,
    rotation_cooldown: u128,
    rotation_failure_cooldown: u128,
    max_known_peers: usize,
    accept_nonstandard_ports: bool,
    excluded_peer_ips: Vec<PeerIp>,
    peer_scoring_enabled: bool,
}

impl View for Crawler {
    type V = CrawlerView;

    closed spec fn view(&self) -> CrawlerView {
        CrawlerView {
            peers: table(self.peers@),
            queue: self.queue@,
            next_sequence: self.next_sequence,
            rules: CrawlerRules {
                enabled: self.enabled,
                rotation_enabled: self.rotation_enabled,
                rotation_cooldown: self.rotation_cooldown,
                rotation_failure_cooldown: self.rotation_failure_cooldown,
                max_known_peers: self.max_known_peers,
                accept_nonstandard_ports: self.accept_nonstandard_ports,
                excluded_peer_ips: self.excluded_peer_ips@,
                peer_scoring_enabled: self.peer_scoring_enabled,
            },
        }
    }
}

/// A copy of a list of hosts.
fn clone_ips(ips: &Vec<PeerIp>) -> (copy: Vec<PeerIp>)
    ensures
        copy@ == ips@,
{
    let mut copy: Vec<PeerIp> = Vec::new();
    let mut i: usize = 0;
    while i < ips.len()
        invariant
            i <= ips.len(),
            copy@ == ips@.take(i as int),
        decreases ips.len() - i,
    {
        copy.push(ips[i]);
        i = i + 1;
    }
    copy
}

/// `score + delta`, kept inside the range of `i64`.
fn add_score(score: i64, delta: i64) -> (sum: i64)
    ensures
        sum == saturating_score(score, delta),
{
    match score.checked_add(delta) {
        Some(sum) => sum,
        None => if delta > 0 {
            i64::MAX
        } else {
            i64::MIN
        },
    }
}

/// Whether a host is in a list of hosts.
fn contains_ip(ips: &Vec<PeerIp>, ip: PeerIp) -> (found: bool)
    ensures
        found == ips@.contains(ip),
{
    let mut i: usize = 0;
    while i < ips.len()
        invariant
            i <= ips.len(),
            forall|j: int| 0 <= j < i ==> ips@[j] != ip,
        decreases ips.len() - i,
    {
        if ips[i] == ip {
            assert(ips@[i as int] == ip);
            return true;
        }
        i = i + 1;
    }
    false
}

impl Crawler {
    /// What holds of every crawler; see [`CrawlerView::well_formed`].
    pub closed spec fn wf(&self) -> bool {
        distinct(self.peers@) && self@.well_formed()
    }

    /// The mathematical value of every crawler is well-formed.
    pub proof fn law_value_is_well_formed(&self)
        requires
            self.wf(),
        ensures
            self@.well_formed(),
    {
    }

    /// Where the record of a peer stands.
    fn find(&self, addr: PeerAddr) -> (place: Option<usize>)
        requires
            distinct(self.peers@),
        ensures
            match place {
                Some(i) => {
                    &&& i < self.peers@.len()
                    &&& self.peers@[i as int].0 == addr
                    &&& self@.peers.contains_key(addr)
                    &&& self@.peers[addr] == self.peers@[i as int].1
                },
                None => !self@.peers.contains_key(addr),
            },
    {
        let mut i: usize = 0;
        while i < self.peers.len()
            invariant
                i <= self.peers.len(),
                distinct(self.peers@),
                forall|j: int| 0 <= j < i ==> (#[trigger] self.peers@[j]).0 != addr,
            decreases self.peers.len() - i,
        {
            if self.peers[i].0 == addr {
                proof {
                    lemma_table_get(self.peers@, i as int);
                }
                return Some(i);
            }
            i = i + 1;
        }
        proof {
            lemma_table_absent(self.peers@, addr);
        }
        None
    }

    fn admits(&self, addr: PeerAddr) -> (yes: bool)
        ensures
            yes == self@.rules.admits(addr),
    {
        is_accepted_peer_addr(&addr, self.accept_nonstandard_ports) && !contains_ip(
            &self.excluded_peer_ips,
            addr.ip(),
        )
    }

    /// Puts another record in place of the one that stands at place `i`.
    fn put_record(&mut self, i: usize, record: PeerRecord)
        requires
            distinct(old(self).peers@),
            i < old(self).peers@.len(),
        ensures
            distinct(final(self).peers@),
            final(self)@ == (CrawlerView {
                peers: old(self)@.peers.insert(old(self).peers@[i as int].0, record),
                ..old(self)@
            }),
    {
        proof {
            lemma_table_update(self.peers@, i as int, record);
        }
        let addr = self.peers[i].0;
        self.peers.set(i, (addr, record));
    }

    /// Takes in a peer that is not known yet.
    fn add_new(&mut self, addr: PeerAddr, now: u128)
        requires
            old(self).wf(),
            old(self)@.rules.admits(addr),
            !old(self)@.peers.contains_key(addr),
        ensures
            final(self).wf(),
            final(self)@ == old(self)@.with_new_peer(addr, now),
            final(self)@.peers.len() == old(self)@.peers.len() + 1,
    {
        let record = PeerRecord {
            active: false,
            queued: true,
            eligible_at: now,
            score: 0,
            sequence: self.next_sequence,
        };
        proof {
            lemma_table_push(self.peers@, addr, record);
            lemma_new_peer_keeps(self@, addr, now);
        }
        self.peers.push((addr, record));
        self.queue.push_back(addr);
        self.next_sequence = self.next_sequence.saturating_add(1);
    }

    /// The crawler that starts out with the peers of a list, as far as the rules
    /// admit them. An address that the list holds again changes nothing.
    pub fn new(config: &Config, initial_peers: &Vec<PeerAddr>, now: u128) -> (crawler: Crawler)
        ensures
            crawler.wf(),
            crawler@ == CrawlerView::seeded(CrawlerRules::of(*config), initial_peers@, now),
    {
        let mut crawler = Crawler {
            peers: Vec::new(),
            queue: VecDeque::new(),
            next_sequence: 0,
            enabled: config.crawler_enabled,
            rotation_enabled: config.rotation_enabled,
            rotation_cooldown: config.rotation_cooldown,
            rotation_failure_cooldown: config.rotation_failure_cooldown,
            max_known_peers: config.crawler_max_known_peers,
            accept_nonstandard_ports: config.accept_nonstandard_ports,
            excluded_peer_ips: clone_ips(&config.excluded_peer_ips),
            peer_scoring_enabled: config.peer_scoring_enabled,
        };
        let ghost rules = CrawlerRules::of(*config);
        assert(initial_peers@.take(0) =~= seq![]);
        let mut i: usize = 0;
        while i < initial_peers.len()
            invariant
                i <= initial_peers.len(),
                crawler.wf(),
                crawler@ == CrawlerView::seeded(rules, initial_peers@.take(i as int), now),
                crawler@.rules == rules,
            decreases initial_peers.len() - i,
        {
            let addr = initial_peers[i];
            assert(initial_peers@.take(i + 1).drop_last() =~= initial_peers@.take(i as int));
            if crawler.admits(addr) && crawler.find(addr).is_none() {
                crawler.add_new(addr, now);
            }
            i = i + 1;
        }
        assert(initial_peers@.take(i as int) =~= initial_peers@);
        crawler
    }

    /// Hands out the peer that is next, if one is eligible.
    pub fn next_peer(&mut self, now: u128) -> (next: Option<PeerAddr>)
        requires
            old(self).wf(),
        ensures
            final(self).wf(),
            match next {
                Some(addr) => exists|k: int| #[trigger]
                    old(self)@.is_choice(k, now) && addr == old(self)@.queue[k] && final(self)@
                        == old(self)@.handed_out(k),
                None => {
                    &&& forall|k: int| !#[trigger] old(self)@.eligible(k, now)
                    &&& final(self)@ == old(self)@
                },
            },
    {
        if self.peer_scoring_enabled {
            return self.next_scored_peer(now);
        }
        let ghost before = self@;
        let candidates: usize = self.queue.len();
        assert(before.queue.skip(0) + before.queue.take(0) =~= before.queue);
        let mut i: usize = 0;
        while i < candidates
            invariant
                i <= candidates,
                candidates == before.queue.len(),
                before == old(self)@,
                before.well_formed(),
                !before.rules.peer_scoring_enabled,
                distinct(self.peers@),
                self@ == (CrawlerView {
                    queue: before.queue.skip(i as int) + before.queue.take(i as int),
                    ..before
                }),
                forall|k: int| 0 <= k < i ==> !#[trigger] before.eligible(k, now),
            decreases candidates - i,
        {
            assert(self.queue@[0] == before.queue[i as int]);
            let peer = match self.queue.pop_front() {
                Some(peer) => peer,
                None => {
                    return None;
                },
            };
            assert(before.queue.contains(before.queue[i as int]));
            let at = match self.find(peer) {
                Some(at) => at,
                None => {
                    return None;
                },
            };
            let record = self.peers[at].1;
            if !record.active && record.eligible_at <= now {
                self.put_record(at, PeerRecord { active: true, queued: false, ..record });
                proof {
                    assert(before.eligible(i as int, now));
                    assert(before.is_choice(i as int, now));
                    assert(self@.queue =~= before.handed_out(i as int).queue);
                    assert(self@ == before.handed_out(i as int));
                    lemma_handed_out_keeps(before, i as int);
                }
                return Some(peer);
            }
            self.queue.push_back(peer);
            assert(self.queue@ =~= before.queue.skip(i + 1) + before.queue.take(i + 1));
            i = i + 1;
        }
        assert(self.queue@ =~= before.queue);
        None
    }

    /// Hands out the eligible peer that ranks first.
    fn next_scored_peer(&mut self, now: u128) -> (next: Option<PeerAddr>)
        requires
            old(self).wf(),
            old(self)@.rules.peer_scoring_enabled,
        ensures
            final(self).wf(),
            match next {
                Some(addr) => exists|k: int| #[trigger]
                    old(self)@.is_choice(k, now) && addr == old(self)@.queue[k] && final(self)@
                        == old(self)@.handed_out(k),
                None => {
                    &&& forall|k: int| !#[trigger] old(self)@.eligible(k, now)
                    &&& final(self)@ == old(self)@
                },
            },
    {
        let ghost before = self@;
        let mut best: Option<(usize, PeerRecord)> = None;
        let mut i: usize = 0;
        while i < self.queue.len()
            invariant
                i <= self.queue@.len(),
                self.wf(),
                self@ == before,
                match best {
                    Some((k, record)) => {
                        &&& k < i
                        &&& before.eligible(k as int, now)
                        &&& before.peers[before.queue[k as int]] == record
                        &&& forall|j: int|
                            0 <= j < i && j != k && #[trigger] before.eligible(j, now)
                                ==> before.ranks_before(k as int, j)
                    },
                    None => forall|j: int| 0 <= j < i ==> !#[trigger] before.eligible(j, now),
                },
            decreases self.queue@.len() - i,
        {
            let peer = self.queue[i];
            assert(before.queue.contains(before.queue[i as int]));
            if let Some(at) = self.find(peer) {
                let record = self.peers[at].1;
                if !record.active && record.eligible_at <= now {
                    let better = match best {
                        None => true,
                        Some((_, other)) => record.score > other.score || (record.score
                            == other.score && record.sequence < other.sequence),
                    };
                    assert(before.eligible(i as int, now));
                    if better {
                        best = Some((i, record));
                    }
                }
            }
            i = i + 1;
        }
        let (k, record) = match best {
            Some(found) => found,
            None => {
                return None;
            },
        };
        let peer = match self.queue.remove(k) {
            Some(peer) => peer,
            None => {
                return None;
            },
        };
        assert(before.queue.contains(before.queue[k as int]));
        let at = match self.find(peer) {
            Some(at) => at,
            None => {
                return None;
            },
        };
        self.put_record(at, PeerRecord { active: true, queued: false, ..record });
        proof {
            assert(before.is_choice(k as int, now));
            assert(self@ == before.handed_out(k as int));
            lemma_handed_out_keeps(before, k as int);
        }
        Some(peer)
    }

    /// How many peers wait in the queue.
    pub fn queue_len(&self) -> (len: usize)
        ensures
            len == self@.queue.len(),
    {
        self.queue.len()
    }

    /// How many peers are known.
    pub fn known_len(&self) -> (len: usize)
        requires
            self.wf(),
        ensures
            len == self@.peers.len(),
    {
        proof {
            lemma_table_len(self.peers@);
        }
        self.peers.len()
    }

    /// Takes a peer back. It may be handed out again once its cooldown is over,
    /// where rotation is on; where it is off it is not queued again. Of a peer that
    /// is not known nothing changes and nothing is reported.
    pub fn release_peer(
        &mut self,
        peer: PeerAddr,
        outcome: PeerOutcome,
        now: u128,
        peer_name: &str,
    ) -> (report: Option<EventRecord>)
        requires
            old(self).wf(),
            now + old(self)@.rules.cooldown(outcome) <= u128::MAX,
            old(self)@.rules.cooldown(outcome) / NANOS_PER_MILLI <= u64::MAX,
        ensures
            final(self).wf(),
            match report {
                Some(record) => {
                    &&& old(self)@.peers.contains_key(peer)
                    &&& final(self)@ == old(self)@.released(peer, outcome, now)
                    &&& record@ == peer_rotation_record(
                        peer_name@,
                        outcome.as_str()@,
                        (old(self)@.rules.cooldown(outcome) / NANOS_PER_MILLI) as int,
                        final(self)@.queue.len() as int,
                    )
                },
                None => !old(self)@.peers.contains_key(peer) && final(self)@ == old(self)@,
            },
            final(self)@ == old(self)@.after_release(peer, outcome, now),
            report is Some && old(self)@.rules.rotation_enabled ==> final(self)@.peers[peer].eligible_at
                == now + match outcome {
                PeerOutcome::Rotated => old(self)@.rules.rotation_cooldown,
                PeerOutcome::Errored => old(self)@.rules.rotation_failure_cooldown,
            },
    {
        let at = match self.find(peer) {
            Some(at) => at,
            None => {
                return None;
            },
        };
        let ghost before = self@;
        let record = self.peers[at].1;
        let mut cooldown: u128 = 0;
        if self.rotation_enabled {
            cooldown = match outcome {
                PeerOutcome::Rotated => self.rotation_cooldown,
                PeerOutcome::Errored => self.rotation_failure_cooldown,
            };
            self.put_record(
                at,
                PeerRecord { active: false, queued: true, eligible_at: now + cooldown, ..record },
            );
            if !record.queued {
                self.queue.push_back(peer);
            }
        } else {
            self.put_record(at, PeerRecord { active: false, ..record });
        }
        proof {
            assert(self@ == before.released(peer, outcome, now));
            lemma_released_keeps(before, peer, outcome, now);
        }
        Some(
            EventSink::p2p_peer_rotation(
                peer_name,
                outcome.as_str(),
                cooldown / NANOS_PER_MILLI,
                self.queue.len(),
            ),
        )
    }

    /// Adds to the score of a peer. Nothing changes and nothing is reported where
    /// scoring is off, where there is nothing to add, and of a peer that is not known.
    pub fn score_peer(
        &mut self,
        peer: PeerAddr,
        delta: i64,
        reason: &str,
        peer_name: &str,
    ) -> (report: Option<EventRecord>)
        requires
            old(self).wf(),
        ensures
            final(self).wf(),
            report is Some <==> old(self)@.rules.peer_scoring_enabled && delta != 0 && old(
                self,
            )@.peers.contains_key(peer),
            match report {
                Some(record) => {
                    &&& final(self)@ == old(self)@.scored(peer, delta)
                    &&& record@ == peer_score_record(
                        peer_name@,
                        final(self)@.peers[peer].score as int,
                        reason@,
                    )
                },
                None => final(self)@ == old(self)@,
            },
            final(self)@ == old(self)@.after_score(peer, delta),
    {
        if !self.peer_scoring_enabled || delta == 0 {
            return None;
        }
        let at = match self.find(peer) {
            Some(at) => at,
            None => {
                return None;
            },
        };
        let ghost before = self@;
        let record = self.peers[at].1;
        let score = add_score(record.score, delta);
        self.put_record(at, PeerRecord { score, ..record });
        proof {
            assert(self@ == before.scored(peer, delta));
            lemma_record_keeps(before, peer, PeerRecord { score, ..record });
        }
        Some(EventSink::p2p_peer_score(peer_name, score, reason))
    }

    /// Takes in the addresses that `source_peer` told of; `names` holds the text of
    /// each. There is one report for each address that was new.
    pub fn add_discovered(
        &mut self,
        source_peer: &str,
        peers: &Vec<PeerAddr>,
        names: &Vec<String>,
        now: u128,
    ) -> (reports: Vec<EventRecord>)
        requires
            old(self).wf(),
            peers@.len() == names@.len(),
        ensures
            final(self).wf(),
            if old(self)@.rules.enabled {
                let found = old(self)@.discovered(peers@, now);
                &&& final(self)@ == found.crawler
                &&& reports@.len() == found.accepted.len()
                &&& forall|i: int|
                    #![trigger reports@[i]]
                    0 <= i < reports@.len() ==> reports@[i]@ == peer_discovered_record(
                        source_peer@,
                        names@[found.accepted[i]]@,
                    )
            } else {
                final(self)@ == old(self)@ && reports@.len() == 0
            },
            final(self)@ == old(self)@.after_discovery(peers@, now),
    {
        let mut reports: Vec<EventRecord> = Vec::new();
        if !self.enabled {
            return reports;
        }
        let ghost before = self@;
        assert(peers@.take(0) =~= seq![]);
        let mut i: usize = 0;
        while i < peers.len()
            invariant
                i <= peers.len(),
                peers@.len() == names@.len(),
                self.wf(),
                before == old(self)@,
                before.rules.enabled,
                before.rules == self@.rules,
                ({
                    let found = before.discovered(peers@.take(i as int), now);
                    &&& !found.full
                    &&& self@ == found.crawler
                    &&& reports@.len() == found.accepted.len()
                    &&& forall|j: int|
                        0 <= j < reports@.len() ==> (#[trigger] reports@[j])@
                            == peer_discovered_record(source_peer@, names@[found.accepted[j]]@)
                }),
            decreases peers.len() - i,
        {
            let addr = peers[i];
            assert(peers@.take(i + 1).drop_last() =~= peers@.take(i as int));
            if self.admits(addr) {
                if self.known_len() >= self.max_known_peers {
                    proof {
                        lemma_discovery_stays_full(before, peers@, i + 1, now);
                    }
                    return reports;
                }
                if self.find(addr).is_none() {
                    self.add_new(addr, now);
                    reports.push(
                        EventSink::p2p_peer_discovered(source_peer, names[i].as_str()),
                    );
                }
            }
            i = i + 1;
        }
        assert(peers@.take(i as int) =~= peers@);
        reports
    }
}

} // verus!
