//! What holds of the crawler over any run of its operations.

use vstd::prelude::*;

use crate::addr::{PeerAddr, PeerIp, FLUX_ALT_PORT, FLUX_PORT, ZCASH_MAINNET_PORT};
use crate::config::Config;
use crate::crawler::{CrawlerRules, CrawlerView, PeerOutcome};

verus! {

/// A crawler starts out knowing exactly the peers of the list that the rules admit;
/// each is in the queue and may be handed out at once.
pub proof fn law_seeds_are_known(
    rules: CrawlerRules,
    addrs: Seq<PeerAddr>,
    now: u128,
    addr: PeerAddr,
)
    ensures
        ({
            let start = CrawlerView::seeded(rules, addrs, now);
            &&& start.rules == rules
            &&& start.peers.contains_key(addr) <==> rules.admits(addr) && addrs.contains(addr)
            &&& start.peers.contains_key(addr) ==> start.queue.contains(addr)
                && start.peers[addr].queued && !start.peers[addr].active
                && start.peers[addr].eligible_at == now && start.peers[addr].score == 0
        }),
    decreases addrs.len(),
{
    if addrs.len() > 0 {
        let front = addrs.drop_last();
        let last = addrs.last();
        law_seeds_are_known(rules, front, now, addr);
        law_seeds_are_known(rules, front, now, last);
        let before = CrawlerView::seeded(rules, front, now);
        let start = CrawlerView::seeded(rules, addrs, now);
        if front.contains(addr) {
            assert(addrs[front.index_of(addr)] == addr);
        }
        assert(addrs[addrs.len() - 1] == last);
        if addrs.contains(addr) && addr != last {
            let i = addrs.index_of(addr);
            assert(front[i] == addr);
        }
        if before.queue.contains(addr) {
            assert(start.queue[before.queue.index_of(addr)] == addr);
        }
        if rules.admits(last) && !before.peers.contains_key(last) {
            assert(start.queue[before.queue.len() as int] == last);
        }
    }
}

/// Of two peers of a fresh crawler, the one that stands first in the queue has been known
/// longer: sequence numbers grow along the queue.
pub proof fn law_seeds_keep_their_order(
    rules: CrawlerRules,
    addrs: Seq<PeerAddr>,
    now: u128,
    i: int,
    j: int,
)
    requires
        addrs.len() <= u64::MAX,
        0 <= i < j < CrawlerView::seeded(rules, addrs, now).queue.len(),
    ensures
        ({
            let start = CrawlerView::seeded(rules, addrs, now);
            start.peers[start.queue[i]].sequence < start.peers[start.queue[j]].sequence
        }),
{
    lemma_seed_sequences(rules, addrs, now);
}

/// The sequence number of each peer of a fresh crawler is its place in the queue.
proof fn lemma_seed_sequences(rules: CrawlerRules, addrs: Seq<PeerAddr>, now: u128)
    requires
        addrs.len() <= u64::MAX,
    ensures
        ({
            let start = CrawlerView::seeded(rules, addrs, now);
            &&& start.queue.len() <= addrs.len()
            &&& start.next_sequence == start.queue.len()
            &&& forall|i: int|
                0 <= i < start.queue.len() ==> start.peers.contains_key(
                    #[trigger] start.queue[i],
                ) && start.peers[start.queue[i]].sequence == i
        }),
    decreases addrs.len(),
{
    if addrs.len() > 0 {
        lemma_seed_sequences(rules, addrs.drop_last(), now);
        let before = CrawlerView::seeded(rules, addrs.drop_last(), now);
        let start = CrawlerView::seeded(rules, addrs, now);
        assert forall|i: int| 0 <= i < start.queue.len() implies start.peers.contains_key(
            #[trigger] start.queue[i],
        ) && start.peers[start.queue[i]].sequence == i by {
            if i < before.queue.len() {
                assert(start.queue[i] == before.queue[i]);
            }
        }
    }
}

/// At any time there is at most one peer to hand out next.
pub proof fn law_choice_is_unique(view: CrawlerView, a: int, b: int, now: u128)
    requires
        view.is_choice(a, now),
        view.is_choice(b, now),
    ensures
        a == b,
{
    assert(view.eligible(a, now) && view.eligible(b, now));
}

/// Where some peer is eligible, one is handed out: the choice exists.
pub proof fn law_choice_exists(view: CrawlerView, j: int, now: u128)
    requires
        view.eligible(j, now),
    ensures
        exists|k: int| view.is_choice(k, now),
{
    lemma_best_before(view, view.queue.len() as int, j, now);
}

/// Among the first `n` places of the queue one eligible place comes before all others.
proof fn lemma_best_before(view: CrawlerView, n: int, j: int, now: u128)
    requires
        0 <= j < n <= view.queue.len(),
        view.eligible(j, now),
    ensures
        exists|k: int|
            0 <= k < n && #[trigger] view.eligible(k, now) && forall|i: int|
                #![trigger view.eligible(i, now)]
                0 <= i < n && i != k && view.eligible(i, now) ==> if view.rules.peer_scoring_enabled {
                    view.ranks_before(k, i)
                } else {
                    k < i
                },
        n == view.queue.len() ==> exists|k: int| view.is_choice(k, now),
    decreases n,
{
    let m = n - 1;
    if exists|i: int| 0 <= i < m && view.eligible(i, now) {
        let i = choose|i: int| 0 <= i < m && view.eligible(i, now);
        lemma_best_before(view, m, i, now);
        let k = choose|k: int|
            0 <= k < m && #[trigger] view.eligible(k, now) && forall|i: int|
                #![trigger view.eligible(i, now)]
                0 <= i < m && i != k && view.eligible(i, now) ==> if view.rules.peer_scoring_enabled {
                    view.ranks_before(k, i)
                } else {
                    k < i
                };
        let best = if view.eligible(m, now) && view.rules.peer_scoring_enabled
            && !view.ranks_before(k, m) {
            m
        } else {
            k
        };
        assert(view.eligible(best, now));
        assert forall|i: int|
            #![trigger view.eligible(i, now)]
            0 <= i < n && i != best && view.eligible(i, now) implies if view.rules.peer_scoring_enabled {
            view.ranks_before(best, i)
        } else {
            best < i
        } by {}
        if n == view.queue.len() {
            assert(view.is_choice(best, now));
        }
    } else {
        assert(j == m);
        if n == view.queue.len() {
            assert(view.is_choice(j, now));
        }
    }
}

/// With scoring the peer that is handed out has the highest score of all that are
/// eligible; among equals it is the one that has been known longest.
pub proof fn law_scored_order(view: CrawlerView, k: int, j: int, now: u128)
    requires
        view.rules.peer_scoring_enabled,
        view.is_choice(k, now),
        view.eligible(j, now),
    ensures
        view.peers[view.queue[k]].score >= view.peers[view.queue[j]].score,
        view.peers[view.queue[k]].score == view.peers[view.queue[j]].score
            ==> view.peers[view.queue[k]].sequence <= view.peers[view.queue[j]].sequence,
{
}

/// Without scoring peers are handed out in the order of the queue.
pub proof fn law_queue_order(view: CrawlerView, k: int, j: int, now: u128)
    requires
        !view.rules.peer_scoring_enabled,
        view.is_choice(k, now),
        view.eligible(j, now),
    ensures
        k <= j,
{
}

/// A list of addresses changes nothing of the peers that are known already, and the
/// number of known peers does not grow beyond the limit.
pub proof fn law_discovery_keeps_known(view: CrawlerView, addrs: Seq<PeerAddr>, now: u128)
    requires
        view.well_formed(),
    ensures
        forall|a: PeerAddr| #[trigger]
            view.peers.contains_key(a) ==> view.discovered(addrs, now).crawler.peers.contains_key(a)
                && view.discovered(addrs, now).crawler.peers[a] == view.peers[a],
        view.queue.is_prefix_of(view.discovered(addrs, now).crawler.queue),
        view.discovered(addrs, now).crawler.rules == view.rules,
        view.discovered(addrs, now).crawler.peers.dom().finite(),
        view.peers.len() <= view.discovered(addrs, now).crawler.peers.len(),
        view.discovered(addrs, now).crawler.peers.len() <= if view.peers.len()
            > view.rules.max_known_peers {
            view.peers.len() as int
        } else {
            view.rules.max_known_peers as int
        },
    decreases addrs.len(),
{
    if addrs.len() > 0 {
        law_discovery_keeps_known(view, addrs.drop_last(), now);
    }
}

/// After a list was taken in, every admitted address of it is known, unless so many are
/// known that no more are wanted.
proof fn lemma_discovery_leaves_none(view: CrawlerView, addrs: Seq<PeerAddr>, now: u128, i: int)
    requires
        view.well_formed(),
        0 <= i < addrs.len(),
        view.rules.admits(addrs[i]),
    ensures
        ({
            let after = view.discovered(addrs, now).crawler;
            after.peers.contains_key(addrs[i]) || after.peers.len() >= view.rules.max_known_peers
        }),
    decreases addrs.len(),
{
    let front = addrs.drop_last();
    law_discovery_keeps_known(view, front, now);
    lemma_full_is_full(view, front, now);
    if i < front.len() {
        lemma_discovery_leaves_none(view, front, now, i);
        law_discovery_keeps_known(view, addrs, now);
        let before = view.discovered(front, now).crawler;
        assert(front[i] == addrs[i]);
        assert(before.peers.contains_key(addrs[i]) ==> view.discovered(
            addrs,
            now,
        ).crawler.peers.contains_key(addrs[i]));
    }
}

/// The list is cut short only where the limit is met.
proof fn lemma_full_is_full(view: CrawlerView, addrs: Seq<PeerAddr>, now: u128)
    ensures
        view.discovered(addrs, now).full ==> view.discovered(addrs, now).crawler.peers.len()
            >= view.rules.max_known_peers,
    decreases addrs.len(),
{
    if addrs.len() > 0 {
        lemma_full_is_full(view, addrs.drop_last(), now);
    }
}

/// A list adds nothing where each admitted address of it is known, or the limit is met.
proof fn lemma_nothing_to_add(view: CrawlerView, addrs: Seq<PeerAddr>, now: u128)
    requires
        forall|i: int|
            0 <= i < addrs.len() && view.rules.admits(#[trigger] addrs[i])
                ==> view.peers.contains_key(addrs[i]) || view.peers.len()
                >= view.rules.max_known_peers,
    ensures
        view.discovered(addrs, now).crawler == view,
        view.discovered(addrs, now).accepted.len() == 0,
    decreases addrs.len(),
{
    if addrs.len() > 0 {
        let front = addrs.drop_last();
        assert forall|i: int|
            0 <= i < front.len() && view.rules.admits(
                #[trigger] front[i],
            ) implies view.peers.contains_key(front[i]) || view.peers.len()
            >= view.rules.max_known_peers by {
            assert(front[i] == addrs[i]);
        }
        lemma_nothing_to_add(view, front, now);
        assert(addrs[addrs.len() - 1] == addrs.last());
    }
}

/// A list that comes again adds nothing.
pub proof fn law_repeated_discovery_adds_nothing(
    view: CrawlerView,
    addrs: Seq<PeerAddr>,
    now: u128,
    later: u128,
)
    requires
        view.well_formed(),
    ensures
        ({
            let after = view.discovered(addrs, now).crawler;
            &&& after.discovered(addrs, later).crawler == after
            &&& after.discovered(addrs, later).accepted.len() == 0
        }),
{
    let after = view.discovered(addrs, now).crawler;
    law_discovery_keeps_known(view, addrs, now);
    assert forall|i: int|
        0 <= i < addrs.len() && after.rules.admits(
            #[trigger] addrs[i],
        ) implies after.peers.contains_key(addrs[i]) || after.peers.len()
        >= after.rules.max_known_peers by {
        lemma_discovery_leaves_none(view, addrs, now, i);
    }
    lemma_nothing_to_add(after, addrs, later);
}

/// The addresses of a list at the given places.
pub open spec fn at_places(addrs: Seq<PeerAddr>, places: Seq<int>) -> Seq<PeerAddr> {
    Seq::new(places.len(), |i: int| addrs[places[i]])
}

/// A list adds exactly the addresses that are accepted, each once: they go to the end of
/// the queue in the order of the list, and besides the peers that were known they are
/// the only ones that are known afterwards.
pub proof fn law_discovery_adds_exactly_the_accepted(
    view: CrawlerView,
    addrs: Seq<PeerAddr>,
    now: u128,
)
    requires
        view.well_formed(),
    ensures
        ({
            let found = view.discovered(addrs, now);
            let added = at_places(addrs, found.accepted);
            &&& forall|i: int|
                0 <= i < found.accepted.len() ==> 0 <= #[trigger] found.accepted[i] < addrs.len()
            &&& forall|i: int, j: int|
                0 <= i < j < found.accepted.len() ==> #[trigger] found.accepted[i]
                    < #[trigger] found.accepted[j]
            &&& added.no_duplicates()
            &&& found.crawler.queue == view.queue + added
            &&& forall|a: PeerAddr| #[trigger]
                found.crawler.peers.contains_key(a) <==> view.peers.contains_key(a)
                    || added.contains(a)
            &&& found.crawler.peers.len() == view.peers.len() + added.len()
        }),
    decreases addrs.len(),
{
    let found = view.discovered(addrs, now);
    let added = at_places(addrs, found.accepted);
    if addrs.len() == 0 {
        assert(found.crawler.queue =~= view.queue + added);
    } else {
        let front = addrs.drop_last();
        law_discovery_adds_exactly_the_accepted(view, front, now);
        law_discovery_keeps_known(view, front, now);
        let before = view.discovered(front, now);
        let added_before = at_places(front, before.accepted);
        if found.accepted == before.accepted {
            assert(added =~= added_before);
        } else {
            assert(added =~= added_before.push(addrs.last()));
            assert(!before.crawler.peers.contains_key(addrs.last()));
            assert(found.crawler.queue =~= view.queue + added);
            assert(added.no_duplicates()) by {
                assert(!added_before.contains(addrs.last()));
                assert forall|i: int, j: int|
                    0 <= i < added.len() && 0 <= j < added.len() && i != j implies added[i]
                    != added[j] by {
                    assert(i < added_before.len() ==> added_before.contains(added[i]));
                    assert(j < added_before.len() ==> added_before.contains(added[j]));
                }
            }
            assert forall|a: PeerAddr| #[trigger]
                found.crawler.peers.contains_key(a) <==> view.peers.contains_key(a)
                    || added.contains(a) by {
                if added_before.contains(a) {
                    assert(added[added_before.index_of(a)] == a);
                }
                assert(added[added_before.len() as int] == addrs.last());
                if added.contains(a) && a != addrs.last() {
                    assert(added_before[added.index_of(a)] == a);
                }
            }
        }
    }
}

/// The addresses that a list adds were not known before, are known and queued
/// afterwards, and each was admitted by the rules.
pub proof fn law_discovery_adds_new(view: CrawlerView, addrs: Seq<PeerAddr>, now: u128, i: int)
    requires
        view.well_formed(),
        0 <= i < view.discovered(addrs, now).accepted.len(),
    ensures
        0 <= view.discovered(addrs, now).accepted[i] < addrs.len(),
        ({
            let a = addrs[view.discovered(addrs, now).accepted[i]];
            let after = view.discovered(addrs, now).crawler;
            &&& !view.peers.contains_key(a)
            &&& view.rules.admits(a)
            &&& after.peers.contains_key(a)
            &&& after.peers[a].queued
            &&& !after.peers[a].active
            &&& after.peers[a].eligible_at == now
            &&& after.peers[a].score == 0
        }),
    decreases addrs.len(),
{
    if addrs.len() > 0 {
        let before = view.discovered(addrs.drop_last(), now);
        law_discovery_keeps_known(view, addrs.drop_last(), now);
        if i < before.accepted.len() {
            law_discovery_adds_new(view, addrs.drop_last(), now, i);
        }
    }
}

/// A peer that is handed out is not handed out again until it is released: no choice
/// falls on it, and nothing but its own release ends that.
pub proof fn law_active_until_released(view: CrawlerView, addr: PeerAddr)
    requires
        view.well_formed(),
        view.peers.contains_key(addr),
        view.peers[addr].active,
    ensures
        forall|k: int, t: u128| #[trigger] view.is_choice(k, t) ==> view.queue[k] != addr,
        forall|k: int, t: u128| #[trigger]
            view.is_choice(k, t) ==> view.handed_out(k).peers[addr].active,
        forall|p: PeerAddr, outcome: PeerOutcome, t: u128|
            p != addr ==> (#[trigger] view.released(p, outcome, t)).peers[addr].active,
        forall|p: PeerAddr, delta: i64| (#[trigger] view.scored(p, delta)).peers[addr].active,
        forall|addrs: Seq<PeerAddr>, t: u128|
            (#[trigger] view.discovered(addrs, t)).crawler.peers[addr].active,
{
    assert forall|k: int, t: u128| #[trigger] view.is_choice(k, t) implies view.queue[k] != addr by {
        assert(view.eligible(k, t));
    }
    assert forall|addrs: Seq<PeerAddr>, t: u128|
        (#[trigger] view.discovered(addrs, t)).crawler.peers[addr].active by {
        law_discovery_keeps_known(view, addrs, t);
    }
}

/// A peer that was just handed out is active and no longer in the queue.
pub proof fn law_handed_out_is_active(view: CrawlerView, k: int, now: u128)
    requires
        view.well_formed(),
        view.is_choice(k, now),
    ensures
        view.handed_out(k).peers[view.queue[k]].active,
        !view.handed_out(k).queue.contains(view.queue[k]),
        view.handed_out(k).queue.len() == view.queue.len() - 1,
{
    let q = view.queue;
    let r = view.handed_out(k).queue;
    assert(view.eligible(k, now));
    if r.contains(q[k]) {
        let i = r.index_of(q[k]);
        if view.rules.peer_scoring_enabled {
            assert(q[if i < k { i } else { i + 1 }] == q[k]);
        } else {
            let m = q.len() - (k + 1);
            assert(q[if i < m { i + k + 1 } else { i - m }] == q[k]);
        }
    }
}

/// With rotation on, a peer that was released waits out its cooldown: it is in the
/// queue, it is not eligible before the cooldown is over, and it is from then on.
pub proof fn law_release_waits_out_cooldown(
    view: CrawlerView,
    addr: PeerAddr,
    outcome: PeerOutcome,
    now: u128,
    later: u128,
)
    requires
        view.well_formed(),
        view.peers.contains_key(addr),
        view.rules.rotation_enabled,
        now + view.rules.cooldown(outcome) <= u128::MAX,
    ensures
        ({
            let after = view.released(addr, outcome, now);
            &&& after.queue.contains(addr)
            &&& forall|k: int|
                0 <= k < after.queue.len() && #[trigger] after.queue[k] == addr ==> (after.eligible(
                    k,
                    later,
                ) <==> later >= now + view.rules.cooldown(outcome))
        }),
{
    let after = view.released(addr, outcome, now);
    if view.peers[addr].queued {
        assert(view.queue.contains(addr));
    } else {
        assert(after.queue[view.queue.len() as int] == addr);
    }
}

/// How long a released peer rests, on the settings themselves: with rotation on, one that
/// was rotated out is not eligible before `rotation_cooldown` is over and is from then on;
/// one that failed likewise with `rotation_failure_cooldown`, whatever the other setting
/// says. It is in the queue, and may be handed out again.
pub proof fn law_release_rests_as_configured(
    view: CrawlerView,
    addr: PeerAddr,
    now: u128,
    later: u128,
)
    requires
        view.well_formed(),
        view.peers.contains_key(addr),
        view.rules.rotation_enabled,
        now + view.rules.rotation_cooldown <= u128::MAX,
        now + view.rules.rotation_failure_cooldown <= u128::MAX,
    ensures
        ({
            let rotated = view.released(addr, PeerOutcome::Rotated, now);
            let errored = view.released(addr, PeerOutcome::Errored, now);
            &&& rotated.queue.contains(addr) && errored.queue.contains(addr)
            &&& !rotated.peers[addr].active && !errored.peers[addr].active
            &&& rotated.peers[addr].eligible_at == now + view.rules.rotation_cooldown
            &&& errored.peers[addr].eligible_at == now + view.rules.rotation_failure_cooldown
            &&& forall|k: int|
                0 <= k < rotated.queue.len() && #[trigger] rotated.queue[k] == addr ==> (
                rotated.eligible(k, later) <==> later >= now + view.rules.rotation_cooldown)
            &&& forall|k: int|
                0 <= k < errored.queue.len() && #[trigger] errored.queue[k] == addr ==> (
                errored.eligible(k, later) <==> later >= now
                    + view.rules.rotation_failure_cooldown)
        }),
{
    law_release_waits_out_cooldown(view, addr, PeerOutcome::Rotated, now, later);
    law_release_waits_out_cooldown(view, addr, PeerOutcome::Errored, now, later);
}

/// What is reported as the rest of a released peer: nothing with rotation off, else the
/// setting for how its session ended.
pub proof fn law_cooldown_is_a_setting(rules: CrawlerRules)
    ensures
        !rules.rotation_enabled ==> rules.cooldown(PeerOutcome::Rotated) == 0 && rules.cooldown(
            PeerOutcome::Errored,
        ) == 0,
        rules.rotation_enabled ==> rules.cooldown(PeerOutcome::Rotated) == rules.rotation_cooldown
            && rules.cooldown(PeerOutcome::Errored) == rules.rotation_failure_cooldown,
        PeerOutcome::Rotated.as_str()@ == "rotated"@,
        PeerOutcome::Errored.as_str()@ == "errored"@,
{
}

/// A release changes nothing of any other peer, and of the released one neither its score
/// nor its age. Those in the queue keep their places; the released one goes to the end
/// where rotation is on and it was not there.
pub proof fn law_release_touches_only_the_peer(
    view: CrawlerView,
    addr: PeerAddr,
    outcome: PeerOutcome,
    now: u128,
)
    requires
        view.well_formed(),
        view.peers.contains_key(addr),
    ensures
        ({
            let after = view.released(addr, outcome, now);
            &&& after.rules == view.rules
            &&& after.next_sequence == view.next_sequence
            &&& forall|a: PeerAddr| #[trigger]
                after.peers.contains_key(a) <==> view.peers.contains_key(a)
            &&& forall|a: PeerAddr| a != addr ==> #[trigger] after.peers[a] == view.peers[a]
            &&& after.peers[addr].score == view.peers[addr].score
            &&& after.peers[addr].sequence == view.peers[addr].sequence
            &&& !after.peers[addr].active
            &&& forall|i: int| 0 <= i < view.queue.len() ==> #[trigger] after.queue[i] == view.queue[i]
            &&& if view.rules.rotation_enabled && !view.queue.contains(addr) {
                after.queue.len() == view.queue.len() + 1 && after.queue.last() == addr
            } else {
                after.queue.len() == view.queue.len()
            }
            &&& !view.rules.rotation_enabled ==> after.peers[addr].queued
                == view.peers[addr].queued && after.peers[addr].eligible_at
                == view.peers[addr].eligible_at
        }),
{
}

/// What is handed out, in plain terms: a queued peer that is not in use and whose rest is
/// over. With scoring no other such peer has a higher score, and none of the same score
/// has been known longer; without it none stands before it in the queue.
pub proof fn law_choice_in_plain_terms(view: CrawlerView, k: int, j: int, now: u128)
    requires
        view.is_choice(k, now),
        0 <= j < view.queue.len(),
        !view.peers[view.queue[j]].active,
        view.peers[view.queue[j]].eligible_at <= now,
    ensures
        0 <= k < view.queue.len(),
        !view.peers[view.queue[k]].active,
        view.peers[view.queue[k]].eligible_at <= now,
        ({
            let chosen = view.peers[view.queue[k]];
            let other = view.peers[view.queue[j]];
            if view.rules.peer_scoring_enabled {
                ||| chosen.score > other.score
                ||| chosen.score == other.score && chosen.sequence < other.sequence
                ||| chosen.score == other.score && chosen.sequence == other.sequence && k <= j
            } else {
                k <= j
            }
        }),
{
    assert(view.eligible(j, now));
}

/// Nobody is handed out only where each queued peer is in use or still rests.
pub proof fn law_nobody_left_in_plain_terms(view: CrawlerView, now: u128)
    ensures
        (forall|k: int| !#[trigger] view.eligible(k, now)) <==> (forall|k: int|
            0 <= k < view.queue.len() ==> view.peers[#[trigger] view.queue[k]].active
                || view.peers[view.queue[k]].eligible_at > now),
{
    if forall|k: int| !#[trigger] view.eligible(k, now) {
        assert forall|k: int| 0 <= k < view.queue.len() implies view.peers[
            #[trigger] view.queue[k]
        ].active || view.peers[view.queue[k]].eligible_at > now by {
            assert(!view.eligible(k, now));
        }
    }
}

/// Handing out a peer changes nothing of any other, and of that peer only that it is in
/// use and no longer queued. With scoring the others keep their order in the queue;
/// without it those that were passed over stand behind the rest, in their order.
pub proof fn law_handing_out_touches_only_the_peer(view: CrawlerView, k: int)
    requires
        view.well_formed(),
        0 <= k < view.queue.len(),
    ensures
        ({
            let after = view.handed_out(k);
            let addr = view.queue[k];
            &&& after.rules == view.rules
            &&& after.next_sequence == view.next_sequence
            &&& forall|a: PeerAddr| #[trigger]
                after.peers.contains_key(a) <==> view.peers.contains_key(a)
            &&& forall|a: PeerAddr| a != addr ==> #[trigger] after.peers[a] == view.peers[a]
            &&& after.peers[addr].active && !after.peers[addr].queued
            &&& after.peers[addr].score == view.peers[addr].score
            &&& after.peers[addr].sequence == view.peers[addr].sequence
            &&& after.peers[addr].eligible_at == view.peers[addr].eligible_at
            &&& after.queue.len() == view.queue.len() - 1
            &&& forall|i: int|
                0 <= i < after.queue.len() ==> #[trigger] after.queue[i]
                    == if view.rules.peer_scoring_enabled {
                    if i < k {
                        view.queue[i]
                    } else {
                        view.queue[i + 1]
                    }
                } else if i + k + 1 < view.queue.len() {
                    view.queue[i + k + 1]
                } else {
                    view.queue[i + k + 1 - view.queue.len()]
                }
        }),
{
    assert(view.queue.contains(view.queue[k]));
}

/// Which addresses may become known: those on port 8233, and where other ports are
/// accepted those on any port but 16125 and 26125; none on an excluded host.
pub proof fn law_admitted_addresses(rules: CrawlerRules, addr: PeerAddr)
    ensures
        ({
            let port = match addr {
                PeerAddr::V4 { port, .. } => port,
                PeerAddr::V6 { port, .. } => port,
            };
            let host = match addr {
                PeerAddr::V4 { host, .. } => PeerIp::V4(host),
                PeerAddr::V6 { host, .. } => PeerIp::V6(host),
            };
            rules.admits(addr) <==> (port == 8233 || rules.accept_nonstandard_ports && port != 16125
                && port != 26125) && forall|i: int|
                0 <= i < rules.excluded_peer_ips.len() ==> #[trigger] rules.excluded_peer_ips[i]
                    != host
        }),
{
    let host = match addr {
        PeerAddr::V4 { host, .. } => PeerIp::V4(host),
        PeerAddr::V6 { host, .. } => PeerIp::V6(host),
    };
    if rules.excluded_peer_ips.contains(host) {
        let i = rules.excluded_peer_ips.index_of(host);
        assert(rules.excluded_peer_ips[i] == host);
    }
}

/// Each rule of a crawler is the setting of that name, and none depends on another.
pub proof fn law_rules_are_the_settings(config: Config)
    ensures
        ({
            let rules = CrawlerRules::of(config);
            &&& rules.enabled == config.crawler_enabled
            &&& rules.rotation_enabled == config.rotation_enabled
            &&& rules.rotation_cooldown == config.rotation_cooldown
            &&& rules.rotation_failure_cooldown == config.rotation_failure_cooldown
            &&& rules.max_known_peers == config.crawler_max_known_peers
            &&& rules.accept_nonstandard_ports == config.accept_nonstandard_ports
            &&& rules.excluded_peer_ips == config.excluded_peer_ips@
            &&& rules.peer_scoring_enabled == config.peer_scoring_enabled
        }),
{
}

/// Nothing that a list tells of is left out: each address of it that the rules admit is
/// known afterwards, unless so many are known as are wanted.
pub proof fn law_discovery_leaves_none_out(
    view: CrawlerView,
    addrs: Seq<PeerAddr>,
    now: u128,
    i: int,
)
    requires
        view.well_formed(),
        0 <= i < addrs.len(),
        view.rules.admits(addrs[i]),
    ensures
        ({
            let after = view.discovered(addrs, now).crawler;
            after.peers.contains_key(addrs[i]) || after.peers.len() >= view.rules.max_known_peers
        }),
{
    lemma_discovery_leaves_none(view, addrs, now, i);
}

/// The peers that a list adds are younger than all that were known, the later in the list
/// the younger.
pub proof fn law_discovered_are_numbered_on(
    view: CrawlerView,
    addrs: Seq<PeerAddr>,
    now: u128,
    i: int,
)
    requires
        view.well_formed(),
        view.next_sequence + addrs.len() <= u64::MAX,
        0 <= i < view.discovered(addrs, now).accepted.len(),
    ensures
        ({
            let found = view.discovered(addrs, now);
            let a = addrs[found.accepted[i]];
            found.crawler.peers[a].sequence == view.next_sequence + i
        }),
{
    lemma_discovered_sequences(view, addrs, now);
}

proof fn lemma_discovered_sequences(view: CrawlerView, addrs: Seq<PeerAddr>, now: u128)
    requires
        view.well_formed(),
        view.next_sequence + addrs.len() <= u64::MAX,
    ensures
        ({
            let found = view.discovered(addrs, now);
            &&& found.accepted.len() <= addrs.len()
            &&& found.crawler.next_sequence == view.next_sequence + found.accepted.len()
            &&& forall|i: int|
                0 <= i < found.accepted.len() ==> 0 <= #[trigger] found.accepted[i] < addrs.len()
                    && found.crawler.peers.contains_key(addrs[found.accepted[i]])
                    && found.crawler.peers[addrs[found.accepted[i]]].sequence
                    == view.next_sequence + i
        }),
    decreases addrs.len(),
{
    if addrs.len() > 0 {
        let front = addrs.drop_last();
        lemma_discovered_sequences(view, front, now);
        let before = view.discovered(front, now);
        let found = view.discovered(addrs, now);
        assert forall|i: int| 0 <= i < found.accepted.len() implies 0 <= #[trigger]
            found.accepted[i] < addrs.len() && found.crawler.peers.contains_key(
            addrs[found.accepted[i]],
        ) && found.crawler.peers[addrs[found.accepted[i]]].sequence == view.next_sequence + i by {
            if i < before.accepted.len() {
                assert(found.accepted[i] == before.accepted[i]);
                assert(front[before.accepted[i]] == addrs[found.accepted[i]]);
            }
        }
    }
}

/// The queue of a fresh crawler follows the list that it was given: of two peers in it,
/// the first stands in the list before every place of the second.
pub proof fn law_seeds_follow_the_list(
    rules: CrawlerRules,
    addrs: Seq<PeerAddr>,
    now: u128,
    p: int,
    q: int,
)
    requires
        0 <= p < q < CrawlerView::seeded(rules, addrs, now).queue.len(),
    ensures
        ({
            let queue = CrawlerView::seeded(rules, addrs, now).queue;
            &&& queue.no_duplicates()
            &&& exists|i: int|
                #![trigger addrs[i]]
                0 <= i < addrs.len() && addrs[i] == queue[p] && forall|j: int|
                    0 <= j < addrs.len() && #[trigger] addrs[j] == queue[q] ==> i < j
        }),
    decreases addrs.len(),
{
    lemma_seed_order(rules, addrs, now);
    let queue = CrawlerView::seeded(rules, addrs, now).queue;
    let i = first_place(addrs, queue[p]);
    assert(addrs[i] == queue[p]);
}

/// The first place at which the list holds the address.
spec fn first_place(addrs: Seq<PeerAddr>, addr: PeerAddr) -> int {
    choose|i: int|
        0 <= i < addrs.len() && #[trigger] addrs[i] == addr && forall|j: int|
            0 <= j < i ==> #[trigger] addrs[j] != addr
}

proof fn lemma_first_place(addrs: Seq<PeerAddr>, addr: PeerAddr, k: int)
    requires
        0 <= k < addrs.len(),
        addrs[k] == addr,
    ensures
        ({
            let i = first_place(addrs, addr);
            &&& 0 <= i <= k
            &&& addrs[i] == addr
            &&& forall|j: int| 0 <= j < i ==> #[trigger] addrs[j] != addr
        }),
    decreases k,
{
    if exists|j: int| 0 <= j < k && #[trigger] addrs[j] == addr {
        let j = choose|j: int| 0 <= j < k && #[trigger] addrs[j] == addr;
        lemma_first_place(addrs, addr, j);
    }
}

proof fn lemma_seed_order(rules: CrawlerRules, addrs: Seq<PeerAddr>, now: u128)
    ensures
        ({
            let start = CrawlerView::seeded(rules, addrs, now);
            &&& start.queue.no_duplicates()
            &&& forall|p: int|
                0 <= p < start.queue.len() ==> {
                    let i = first_place(addrs, #[trigger] start.queue[p]);
                    &&& start.peers.contains_key(start.queue[p])
                    &&& 0 <= i < addrs.len()
                    &&& addrs[i] == start.queue[p]
                    &&& forall|j: int| 0 <= j < i ==> #[trigger] addrs[j] != start.queue[p]
                }
            &&& forall|p: int, q: int|
                0 <= p < q < start.queue.len() ==> first_place(addrs, #[trigger] start.queue[p])
                    < first_place(addrs, #[trigger] start.queue[q])
        }),
    decreases addrs.len(),
{
    if addrs.len() > 0 {
        let front = addrs.drop_last();
        let last = addrs.last();
        lemma_seed_order(rules, front, now);
        law_seeds_are_known(rules, front, now, last);
        let before = CrawlerView::seeded(rules, front, now);
        let start = CrawlerView::seeded(rules, addrs, now);
        assert forall|p: int| 0 <= p < before.queue.len() implies first_place(
            addrs,
            #[trigger] before.queue[p],
        ) == first_place(front, before.queue[p]) by {
            let a = before.queue[p];
            let i = first_place(front, a);
            assert(addrs[i] == front[i]);
            lemma_first_place(addrs, a, i);
            let k = first_place(addrs, a);
            assert(front[k] == addrs[k]);
            if k < i {
                assert(front[k] != a);
            }
        }
        assert(addrs[addrs.len() - 1] == last);
        lemma_first_place(addrs, last, addrs.len() - 1);
        if start.queue.len() > before.queue.len() {
            let i = first_place(addrs, last);
            if i < front.len() {
                assert(front[i] == last);
                assert(front.contains(last));
            }
            assert forall|p: int| 0 <= p < start.queue.len() implies {
                let i = first_place(addrs, #[trigger] start.queue[p]);
                &&& start.peers.contains_key(start.queue[p])
                &&& 0 <= i < addrs.len()
                &&& addrs[i] == start.queue[p]
                &&& forall|j: int| 0 <= j < i ==> #[trigger] addrs[j] != start.queue[p]
            } by {
                if p < before.queue.len() {
                    assert(start.queue[p] == before.queue[p]);
                    lemma_first_place(addrs, before.queue[p], first_place(front, before.queue[p]));
                }
            }
            assert forall|p: int, q: int| 0 <= p < q < start.queue.len() implies first_place(
                addrs,
                #[trigger] start.queue[p],
            ) < first_place(addrs, #[trigger] start.queue[q]) by {
                assert(start.queue[p] == before.queue[p]);
                if q < before.queue.len() {
                    assert(start.queue[q] == before.queue[q]);
                }
            }
        } else {
            assert forall|p: int| 0 <= p < start.queue.len() implies {
                let i = first_place(addrs, #[trigger] start.queue[p]);
                &&& start.peers.contains_key(start.queue[p])
                &&& 0 <= i < addrs.len()
                &&& addrs[i] == start.queue[p]
                &&& forall|j: int| 0 <= j < i ==> #[trigger] addrs[j] != start.queue[p]
            } by {
                lemma_first_place(addrs, before.queue[p], first_place(front, before.queue[p]));
            }
        }
    }
}

/// With rotation off, a peer that was handed out once never comes back: its release
/// does not queue it, and nothing else does.
pub proof fn law_no_rotation_no_return(view: CrawlerView, addr: PeerAddr)
    requires
        view.well_formed(),
        !view.rules.rotation_enabled,
        view.peers.contains_key(addr),
        !view.peers[addr].queued,
    ensures
        forall|k: int, t: u128| #[trigger] view.is_choice(k, t) ==> view.queue[k] != addr,
        forall|k: int, t: u128| #[trigger]
            view.is_choice(k, t) ==> !view.handed_out(k).peers[addr].queued,
        forall|p: PeerAddr, outcome: PeerOutcome, t: u128|
            !(#[trigger] view.released(p, outcome, t)).peers[addr].queued,
        forall|p: PeerAddr, delta: i64| !(#[trigger] view.scored(p, delta)).peers[addr].queued,
        forall|addrs: Seq<PeerAddr>, t: u128|
            !(#[trigger] view.discovered(addrs, t)).crawler.peers[addr].queued,
{
    assert forall|k: int, t: u128| #[trigger] view.is_choice(k, t) implies view.queue[k] != addr by {
        assert(view.eligible(k, t));
        assert(view.queue.contains(view.queue[k]));
    }
    assert forall|addrs: Seq<PeerAddr>, t: u128|
        !(#[trigger] view.discovered(addrs, t)).crawler.peers[addr].queued by {
        law_discovery_keeps_known(view, addrs, t);
    }
}

/// No peer on an excluded host is ever known, on whatever port; and unless other ports
/// are accepted, no peer is known that is not on the port of the main network, so none
/// on the ports of the forks.
pub proof fn law_unwanted_peers_stay_unknown(view: CrawlerView, addr: PeerAddr)
    requires
        view.well_formed(),
    ensures
        view.rules.excluded_peer_ips.contains(addr.ip()) ==> !view.peers.contains_key(addr),
        !view.rules.accept_nonstandard_ports && addr.port() != ZCASH_MAINNET_PORT
            ==> !view.peers.contains_key(addr),
        addr.port() == FLUX_PORT || addr.port() == FLUX_ALT_PORT ==> !view.peers.contains_key(addr),
        view.rules.excluded_peer_ips.contains(addr.ip()) ==> !view.queue.contains(addr),
{
}

/// A score never leaves the range of `i64`, moves in the direction of what is added,
/// and nothing else of the peer changes.
pub proof fn law_score_saturates(view: CrawlerView, addr: PeerAddr, delta: i64)
    ensures
        delta >= 0 ==> view.scored(addr, delta).peers[addr].score >= view.peers[addr].score,
        delta <= 0 ==> view.scored(addr, delta).peers[addr].score <= view.peers[addr].score,
        i64::MIN <= view.peers[addr].score + delta <= i64::MAX ==> view.scored(
            addr,
            delta,
        ).peers[addr].score == view.peers[addr].score + delta,
        view.peers[addr].score + delta > i64::MAX ==> view.scored(addr, delta).peers[addr].score
            == i64::MAX,
        view.peers[addr].score + delta < i64::MIN ==> view.scored(addr, delta).peers[addr].score
            == i64::MIN,
        forall|a: PeerAddr|
            a != addr ==> #[trigger] view.scored(addr, delta).peers[a] == view.peers[a],
        view.scored(addr, delta).peers[addr].active == view.peers[addr].active,
        view.scored(addr, delta).peers[addr].queued == view.peers[addr].queued,
        view.scored(addr, delta).peers[addr].sequence == view.peers[addr].sequence,
        view.scored(addr, delta).queue == view.queue,
        view.scored(addr, delta).peers[addr].eligible_at == view.peers[addr].eligible_at,
{
}

/// Nothing is done for a peer that is not known, for a score that is not kept or does not
/// change, and for a list that a crawler which is off is told of. Otherwise a known peer is
/// released, its score changes by what is added, as far as the range of `i64` goes, and what
/// the list tells of is taken in.
pub proof fn law_when_operations_count(
    view: CrawlerView,
    addr: PeerAddr,
    outcome: PeerOutcome,
    delta: i64,
    addrs: Seq<PeerAddr>,
    now: u128,
)
    ensures
        !view.peers.contains_key(addr) ==> view.after_release(addr, outcome, now) == view
            && view.after_score(addr, delta) == view,
        view.peers.contains_key(addr) ==> !view.after_release(addr, outcome, now).peers[addr].active,
        !view.rules.peer_scoring_enabled || delta == 0 ==> view.after_score(addr, delta) == view,
        view.rules.peer_scoring_enabled && view.peers.contains_key(addr) ==> {
            let before = view.peers[addr].score;
            let after = view.after_score(addr, delta).peers[addr].score;
            &&& i64::MIN <= before + delta <= i64::MAX ==> after == before + delta
            &&& before + delta > i64::MAX ==> after == i64::MAX
            &&& before + delta < i64::MIN ==> after == i64::MIN
        },
        !view.rules.enabled ==> view.after_discovery(addrs, now) == view,
        view.rules.enabled ==> view.after_discovery(addrs, now) == view.discovered(
            addrs,
            now,
        ).crawler,
{
}

} // verus!
