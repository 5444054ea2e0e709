//! The blocks that were forwarded a moment ago.

use std::collections::VecDeque;
use vstd::prelude::*;

use crate::bytes::{same_hash, Hash32};

verus! {

/// The mathematical value of [`RecentForwardedHashes`].
pub struct RecentView {
    pub capacity: nat,
    /// How long an entry counts, in nanoseconds.
    pub window: nat,
    /// Each hash with the time at which it was recorded, oldest first.
    pub entries: Seq<(Hash32, u128)>,
}

/// The entry is older than the window at `now`. An entry from the future has no age.
pub open spec fn is_expired(window: nat, recorded_at: u128, now: u128) -> bool {
    now - recorded_at > window
}

/// What is left of the entries once the expired ones at the front are gone.
pub open spec fn live_entries(
    entries: Seq<(Hash32, u128)>,
    window: nat,
    now: u128,
) -> Seq<(Hash32, u128)>
    decreases entries.len(),
{
    if entries.len() > 0 && is_expired(window, entries[0].1, now) {
        live_entries(entries.skip(1), window, now)
    } else {
        entries
    }
}

/// The entries that are within the window, in their order.
pub open spec fn within_window(
    entries: Seq<(Hash32, u128)>,
    window: nat,
    now: u128,
) -> Seq<(Hash32, u128)> {
    entries.filter(|entry: (Hash32, u128)| !is_expired(window, entry.1, now))
}

/// Whether some entry is for this hash.
pub open spec fn lists_hash(entries: Seq<(Hash32, u128)>, hash: Hash32) -> bool {
    exists|i: int| 0 <= i < entries.len() && (#[trigger] entries[i]).0 == hash
}

impl RecentView {
    /// There are never more entries than the capacity.
    pub open spec fn well_formed(self) -> bool {
        self.entries.len() <= self.capacity
    }

    /// The entries stand in the order of their times, and none is later than `now`.
    pub open spec fn is_ordered(self, now: u128) -> bool {
        &&& forall|i: int, j: int|
            0 <= i <= j < self.entries.len() ==> (#[trigger] self.entries[i]).1 <= (
            #[trigger] self.entries[j]).1
        &&& forall|i: int| 0 <= i < self.entries.len() ==> (#[trigger] self.entries[i]).1 <= now
    }

    /// The ring without the entries that have expired at its front.
    pub open spec fn evicted(self, now: u128) -> RecentView {
        RecentView { entries: live_entries(self.entries, self.window, now), ..self }
    }

    /// Whether the hash was recorded and is still remembered at `now`.
    pub open spec fn remembers(self, hash: Hash32, now: u128) -> bool {
        lists_hash(self.evicted(now).entries, hash)
    }

    /// The ring with one more entry; the oldest leaves where the ring is full.
    pub open spec fn recorded(self, hash: Hash32, now: u128) -> RecentView {
        let live = self.evicted(now).entries;
        if self.capacity == 0 {
            self.evicted(now)
        } else {
            RecentView {
                entries: (if live.len() == self.capacity {
                    live.skip(1)
                } else {
                    live
                }).push((hash, now)),
                ..self
            }
        }
    }
}

impl RecentView {
    /// The ring once these were recorded, one after the other, each at its time.
    pub open spec fn recorded_all(self, records: Seq<(Hash32, u128)>) -> RecentView
        decreases records.len(),
    {
        if records.len() == 0 {
            self
        } else {
            self.recorded_all(records.drop_last()).recorded(records.last().0, records.last().1)
        }
    }
}

/// A bounded memory of the blocks that were forwarded within a span of time, oldest
/// first. A block that several peers deliver is then forwarded only once.
#[derive(Debug)]
pub struct RecentForwardedHashes {
    capacity: usize,
    window: u128,
    entries: VecDeque<(Hash32, u128)>,
}

impl View for RecentForwardedHashes {
    type V = RecentView;

    closed spec fn view(&self) -> RecentView {
        RecentView {
            capacity: self.capacity as nat,
            window: self.window as nat,
            entries: self.entries@,
        }
    }
}

impl RecentForwardedHashes {
    /// A memory for so many blocks that forgets each after `window` nanoseconds.
    pub fn new(capacity: usize, window: u128) -> (recent: RecentForwardedHashes)
        ensures
            recent@ == (RecentView {
                capacity: capacity as nat,
                window: window as nat,
                entries: seq![],
            }),
            recent@.well_formed(),
    {
        RecentForwardedHashes { capacity, window, entries: VecDeque::new() }
    }

    /// Whether the hash is remembered at `now`. Forgets what has expired.
    pub fn contains(&mut self, hash: &Hash32, now: u128) -> (found: bool)
        ensures
            final(self)@ == old(self)@.evicted(now),
            found == old(self)@.remembers(*hash, now),
            old(self)@.well_formed() ==> final(self)@.well_formed(),
    {
        self.evict_expired(now);
        proof {
            lemma_live_is_suffix(old(self)@.entries, old(self)@.window, now);
        }
        let mut i: usize = 0;
        while i < self.entries.len()
            invariant
                i <= self.entries@.len(),
                self@ == old(self)@.evicted(now),
                old(self)@.well_formed() ==> self@.well_formed(),
                forall|j: int| 0 <= j < i ==> (#[trigger] self.entries@[j]).0 != *hash,
            decreases self.entries@.len() - i,
        {
            if same_hash(&self.entries[i].0, hash) {
                assert(self.entries@[i as int].0 == *hash);
                return true;
            }
            i = i + 1;
        }
        false
    }

    /// Remembers the hash from `now` on. Forgets what has expired, and the oldest
    /// entry where there is no room. With a capacity of zero nothing is remembered.
    pub fn record(&mut self, hash: Hash32, now: u128)
        ensures
            final(self)@ == old(self)@.recorded(hash, now),
            old(self)@.well_formed() ==> final(self)@.well_formed(),
    {
        self.evict_expired(now);
        proof {
            lemma_live_is_suffix(old(self)@.entries, old(self)@.window, now);
        }
        if self.capacity == 0 {
            return;
        }
        if self.entries.len() == self.capacity {
            self.entries.pop_front();
            assert(self.entries@ =~= old(self)@.evicted(now).entries.skip(1));
        }
        self.entries.push_back((hash, now));
    }

    /// Forgets the entries at the front that are older than the window. While the clock
    /// does not go back these are all that are older, and the others stay in their order.
    /// Doing it again at the same time changes nothing, and nothing is forgotten at a time
    /// before every entry.
    pub fn evict_expired(&mut self, now: u128)
        ensures
            final(self)@ == old(self)@.evicted(now),
            final(self)@.capacity == old(self)@.capacity,
            final(self)@.window == old(self)@.window,
            old(self)@.is_ordered(now) ==> final(self)@.entries == within_window(
                old(self)@.entries,
                old(self)@.window,
                now,
            ),
            final(self)@.evicted(now) == final(self)@,
            (forall|i: int|
                0 <= i < old(self)@.entries.len() ==> now <= (#[trigger] old(self)@.entries[i]).1)
                ==> final(self)@ == old(self)@,
            old(self)@.well_formed() ==> final(self)@.well_formed(),
    {
        proof {
            law_eviction_keeps_the_window(old(self)@, now);
            lemma_live_is_suffix(old(self)@.entries, old(self)@.window, now);
        }
        while self.entries.len() > 0
            invariant_except_break
                self@.capacity == old(self)@.capacity,
                self@.window == old(self)@.window,
                live_entries(self.entries@, self.window as nat, now) == old(self)@.evicted(
                    now,
                ).entries,
            ensures
                self@ == old(self)@.evicted(now),
            decreases self.entries@.len(),
        {
            let recorded_at: u128 = self.entries[0].1;
            if now > recorded_at && now - recorded_at > self.window {
                let ghost before = self.entries@;
                self.entries.pop_front();
                assert(self.entries@ =~= before.skip(1));
            } else {
                break;
            }
        }
    }
}

/// What is left is the end of the entries.
proof fn lemma_live_is_suffix(entries: Seq<(Hash32, u128)>, window: nat, now: u128)
    ensures
        live_entries(entries, window, now).len() <= entries.len(),
        live_entries(entries, window, now) == entries.skip(
            entries.len() - live_entries(entries, window, now).len(),
        ),
        forall|i: int|
            0 <= i < entries.len() - live_entries(entries, window, now).len() ==> is_expired(
                window,
                (#[trigger] entries[i]).1,
                now,
            ),
    decreases entries.len(),
{
    if entries.len() > 0 && is_expired(window, entries[0].1, now) {
        lemma_live_is_suffix(entries.skip(1), window, now);
        let live = live_entries(entries, window, now);
        assert(live =~= entries.skip(entries.len() - live.len()));
        assert forall|i: int| 0 <= i < entries.len() - live.len() implies is_expired(
            window,
            (#[trigger] entries[i]).1,
            now,
        ) by {
            if i > 0 {
                assert(entries.skip(1)[i - 1] == entries[i]);
            }
        }
    } else {
        assert(entries.skip(0) =~= entries);
    }
}

/// In entries that stand in the order of their times, an expired one is dropped.
proof fn lemma_live_not_expired(view: RecentView, now: u128, i: int)
    requires
        view.is_ordered(now),
        0 <= i < view.evicted(now).entries.len(),
    ensures
        !is_expired(view.window, view.evicted(now).entries[i].1, now),
    decreases view.entries.len(),
{
    let entries = view.entries;
    if is_expired(view.window, entries[0].1, now) {
        let rest = RecentView { entries: entries.skip(1), ..view };
        assert forall|a: int, b: int| 0 <= a <= b < rest.entries.len() implies (
        #[trigger] rest.entries[a]).1 <= (#[trigger] rest.entries[b]).1 by {
            assert(entries[a + 1].1 <= entries[b + 1].1);
        }
        assert forall|a: int| 0 <= a < rest.entries.len() implies (#[trigger] rest.entries[a]).1
            <= now by {
            assert(entries[a + 1].1 <= now);
        }
        lemma_live_not_expired(rest, now, i);
    } else {
        assert(entries[0].1 <= entries[i].1);
    }
}

/// No entry expires: nothing is filtered out.
proof fn lemma_filter_keeps_all(entries: Seq<(Hash32, u128)>, window: nat, now: u128)
    requires
        forall|i: int|
            0 <= i < entries.len() ==> !is_expired(window, (#[trigger] entries[i]).1, now),
    ensures
        within_window(entries, window, now) == entries,
    decreases entries.len(),
{
    reveal(Seq::filter);
    if entries.len() > 0 {
        let front = entries.drop_last();
        assert forall|i: int| 0 <= i < front.len() implies !is_expired(
            window,
            (#[trigger] front[i]).1,
            now,
        ) by {
            assert(front[i] == entries[i]);
        }
        lemma_filter_keeps_all(front, window, now);
        assert(!is_expired(window, entries[entries.len() - 1].1, now));
        assert(front.push(entries.last()) =~= entries);
    } else {
        assert(within_window(entries, window, now) =~= entries);
    }
}

proof fn lemma_filter_skips_first(entries: Seq<(Hash32, u128)>, window: nat, now: u128)
    requires
        entries.len() > 0,
        is_expired(window, entries[0].1, now),
    ensures
        within_window(entries, window, now) == within_window(entries.skip(1), window, now),
    decreases entries.len(),
{
    reveal(Seq::filter);
    if entries.len() == 1 {
        assert(entries.drop_last() =~= seq![]);
        assert(entries.skip(1) =~= seq![]);
    } else {
        lemma_filter_skips_first(entries.drop_last(), window, now);
        assert(entries.drop_last().skip(1) =~= entries.skip(1).drop_last());
    }
}

/// While the clock does not go back, evicting leaves exactly the entries that are within
/// the window, in their order; the settings of the ring stay. Whatever the clock does,
/// evicting again changes nothing, and nothing is evicted at a time before every entry.
pub proof fn law_eviction_keeps_the_window(view: RecentView, now: u128)
    ensures
        view.is_ordered(now) ==> view.evicted(now).entries == within_window(
            view.entries,
            view.window,
            now,
        ),
        view.evicted(now).capacity == view.capacity,
        view.evicted(now).window == view.window,
        view.evicted(now).evicted(now) == view.evicted(now),
        (forall|i: int| 0 <= i < view.entries.len() ==> now <= (#[trigger] view.entries[i]).1)
            ==> view.evicted(now) == view,
    decreases view.entries.len(),
{
    let entries = view.entries;
    if entries.len() > 0 && is_expired(view.window, entries[0].1, now) {
        let rest = RecentView { entries: entries.skip(1), ..view };
        law_eviction_keeps_the_window(rest, now);
        lemma_filter_skips_first(entries, view.window, now);
        if view.is_ordered(now) {
            assert forall|a: int, b: int| 0 <= a <= b < rest.entries.len() implies (
            #[trigger] rest.entries[a]).1 <= (#[trigger] rest.entries[b]).1 by {
                assert(entries[a + 1].1 <= entries[b + 1].1);
            }
            assert forall|a: int| 0 <= a < rest.entries.len() implies (
            #[trigger] rest.entries[a]).1 <= now by {
                assert(entries[a + 1].1 <= now);
            }
        }
    } else if view.is_ordered(now) {
        assert forall|i: int| 0 <= i < entries.len() implies !is_expired(
            view.window,
            (#[trigger] entries[i]).1,
            now,
        ) by {
            assert(entries[0].1 <= entries[i].1);
        }
        lemma_filter_keeps_all(entries, view.window, now);
    }
}

/// Behind a recorded entry stand exactly the entries that were recorded since, while
/// these are fewer than the capacity and it has not expired.
proof fn lemma_entry_stays(
    view: RecentView,
    hash: Hash32,
    recorded_at: u128,
    since: Seq<(Hash32, u128)>,
)
    requires
        since.len() < view.capacity,
        forall|i: int|
            0 <= i < since.len() ==> !is_expired(
                view.window,
                recorded_at,
                (#[trigger] since[i]).1,
            ),
    ensures
        ({
            let after = view.recorded(hash, recorded_at).recorded_all(since);
            &&& after.capacity == view.capacity
            &&& after.window == view.window
            &&& after.entries.len() > since.len()
            &&& after.entries[after.entries.len() - 1 - since.len()] == (hash, recorded_at)
        }),
    decreases since.len(),
{
    if since.len() > 0 {
        let front = since.drop_last();
        let (other, at) = since.last();
        assert forall|i: int| 0 <= i < front.len() implies !is_expired(
            view.window,
            recorded_at,
            (#[trigger] front[i]).1,
        ) by {
            assert(front[i] == since[i]);
        }
        lemma_entry_stays(view, hash, recorded_at, front);
        let before = view.recorded(hash, recorded_at).recorded_all(front);
        let live = before.evicted(at).entries;
        lemma_live_is_suffix(before.entries, before.window, at);
        assert(!is_expired(view.window, recorded_at, since[since.len() - 1].1));
        let place = before.entries.len() - 1 - front.len();
        assert(before.entries[place] == (hash, recorded_at));
        assert(live.len() > front.len()) by {
            if live.len() <= front.len() {
                assert(is_expired(before.window, before.entries[place].1, at));
            }
        }
        assert(live[live.len() - 1 - front.len()] == (hash, recorded_at));
    }
}

/// A block that was recorded is remembered until the window is over, whatever was
/// recorded since, while that is fewer blocks than the capacity.
pub proof fn law_recorded_is_remembered_among_others(
    view: RecentView,
    hash: Hash32,
    recorded_at: u128,
    since: Seq<(Hash32, u128)>,
    later: u128,
)
    requires
        since.len() < view.capacity,
        forall|i: int| 0 <= i < since.len() ==> (#[trigger] since[i]).1 <= later,
        !is_expired(view.window, recorded_at, later),
    ensures
        view.recorded(hash, recorded_at).recorded_all(since).remembers(hash, later),
{
    lemma_entry_stays(view, hash, recorded_at, since);
    let after = view.recorded(hash, recorded_at).recorded_all(since);
    let place = after.entries.len() - 1 - since.len();
    let live = after.evicted(later).entries;
    lemma_live_is_suffix(after.entries, after.window, later);
    assert(live.len() > since.len()) by {
        if live.len() <= since.len() {
            assert(is_expired(after.window, after.entries[place].1, later));
        }
    }
    assert(live[live.len() - 1 - since.len()] == (hash, recorded_at));
}

/// A block that was recorded is remembered until the window is over.
pub proof fn law_recorded_is_remembered(view: RecentView, hash: Hash32, now: u128, later: u128)
    requires
        view.capacity > 0,
        !is_expired(view.window, now, later),
    ensures
        view.recorded(hash, now).remembers(hash, later),
{
    let entries = view.recorded(hash, now).entries;
    let live = live_entries(entries, view.window, later);
    lemma_live_is_suffix(entries, view.window, later);
    let last = entries.len() - 1;
    assert(entries[last] == (hash, now));
    if live.len() == 0 {
        assert(is_expired(view.window, entries[last].1, later));
    }
    assert(live[live.len() - 1] == entries[last]);
}

/// While the clock does not go back, a hash is remembered exactly where it was
/// recorded within the window.
pub proof fn law_remembered_iff_within_window(view: RecentView, hash: Hash32, now: u128)
    requires
        view.is_ordered(now),
    ensures
        view.remembers(hash, now) <==> exists|i: int|
            0 <= i < view.entries.len() && (#[trigger] view.entries[i]).0 == hash && !is_expired(
                view.window,
                view.entries[i].1,
                now,
            ),
{
    let live = view.evicted(now).entries;
    lemma_live_is_suffix(view.entries, view.window, now);
    let gone = view.entries.len() - live.len();
    if view.remembers(hash, now) {
        let i = choose|i: int| 0 <= i < live.len() && (#[trigger] live[i]).0 == hash;
        lemma_live_not_expired(view, now, i);
        assert(view.entries[gone + i] == live[i]);
    }
    if exists|i: int|
        0 <= i < view.entries.len() && (#[trigger] view.entries[i]).0 == hash && !is_expired(
            view.window,
            view.entries[i].1,
            now,
        ) {
        let i = choose|i: int|
            0 <= i < view.entries.len() && (#[trigger] view.entries[i]).0 == hash && !is_expired(
                view.window,
                view.entries[i].1,
                now,
            );
        assert(live[i - gone] == view.entries[i]);
    }
}

/// Recording keeps the entries in the order of their times, while the clock does not
/// go back.
pub proof fn law_recording_keeps_order(view: RecentView, hash: Hash32, now: u128)
    requires
        view.is_ordered(now),
    ensures
        view.recorded(hash, now).is_ordered(now),
        view.evicted(now).is_ordered(now),
{
    let live = view.evicted(now).entries;
    lemma_live_is_suffix(view.entries, view.window, now);
    let gone = view.entries.len() - live.len();
    assert forall|i: int, j: int| 0 <= i <= j < live.len() implies (#[trigger] live[i]).1 <= (
    #[trigger] live[j]).1 by {
        assert(view.entries[gone + i].1 <= view.entries[gone + j].1);
    }
    assert forall|i: int| 0 <= i < live.len() implies (#[trigger] live[i]).1 <= now by {
        assert(view.entries[gone + i].1 <= now);
    }
}

/// Recording a block forgets no other one that is within the window, but for the
/// oldest where the ring is full.
pub proof fn law_recording_forgets_only_the_oldest(
    view: RecentView,
    hash: Hash32,
    other: Hash32,
    now: u128,
)
    requires
        view.well_formed(),
        view.is_ordered(now),
        view.remembers(other, now),
        view.evicted(now).entries.len() < view.capacity || view.evicted(now).entries[0].0 != other,
    ensures
        view.recorded(hash, now).remembers(other, now),
{
    let live = view.evicted(now).entries;
    let after = view.recorded(hash, now).entries;
    lemma_live_is_suffix(view.entries, view.window, now);
    let i = choose|i: int| 0 <= i < live.len() && (#[trigger] live[i]).0 == other;
    lemma_live_not_expired(view, now, i);
    let j = if live.len() == view.capacity {
        i - 1
    } else {
        i
    };
    assert(after[j] == live[i]);
    lemma_live_is_suffix(after, view.window, now);
    let kept = live_entries(after, view.window, now);
    assert(kept[j - (after.len() - kept.len())] == after[j]);
}

/// Where the first `n` entries have expired, they are gone.
proof fn lemma_live_drops(entries: Seq<(Hash32, u128)>, window: nat, now: u128, n: int)
    requires
        0 <= n <= entries.len(),
        forall|i: int| 0 <= i < n ==> is_expired(window, (#[trigger] entries[i]).1, now),
    ensures
        live_entries(entries, window, now).len() <= entries.len() - n,
    decreases n,
{
    lemma_live_is_suffix(entries, window, now);
    if n > 0 {
        assert(is_expired(window, entries[0].1, now));
        let rest = entries.skip(1);
        assert forall|i: int| 0 <= i < n - 1 implies is_expired(
            window,
            (#[trigger] rest[i]).1,
            now,
        ) by {
            assert(rest[i] == entries[i + 1]);
        }
        lemma_live_drops(rest, window, now, n - 1);
    }
}

/// What is not remembered does not come back by evicting or by recording another block,
/// now or later.
pub proof fn law_nothing_else_becomes_remembered(
    view: RecentView,
    hash: Hash32,
    other: Hash32,
    at: u128,
    now: u128,
    later: u128,
)
    requires
        !view.remembers(other, now),
        now <= later,
    ensures
        !view.remembers(other, later),
        !view.evicted(at).remembers(other, later),
        other != hash ==> !view.recorded(hash, at).remembers(other, later),
{
    let gone = view.evicted(at).entries;
    lemma_live_is_suffix(view.entries, view.window, at);
    lemma_stays_forgotten(view, view, 0, other, now, later);
    lemma_stays_forgotten(
        view,
        view.evicted(at),
        view.entries.len() - gone.len(),
        other,
        now,
        later,
    );
    let after = view.recorded(hash, at);
    if view.capacity > 0 && other != hash {
        lemma_stays_forgotten(
            view,
            after,
            view.entries.len() - (after.entries.len() - 1),
            other,
            now,
            later,
        );
    }
}

/// A ring whose entries are those of another from place `gone` on, with at most one other
/// block behind them, remembers nothing that the other has forgotten.
proof fn lemma_stays_forgotten(
    view: RecentView,
    after: RecentView,
    gone: int,
    other: Hash32,
    now: u128,
    later: u128,
)
    requires
        !view.remembers(other, now),
        now <= later,
        after.window == view.window,
        0 <= gone <= view.entries.len(),
        view.entries.len() - gone <= after.entries.len() <= view.entries.len() - gone + 1,
        forall|i: int|
            0 <= i < view.entries.len() - gone ==> #[trigger] after.entries[i]
                == view.entries[gone + i],
        after.entries.len() > view.entries.len() - gone ==> after.entries.last().0 != other,
    ensures
        !after.remembers(other, later),
{
    let old_live = view.evicted(now).entries;
    let live = after.evicted(later).entries;
    lemma_live_is_suffix(view.entries, view.window, now);
    lemma_live_is_suffix(after.entries, after.window, later);
    if after.remembers(other, later) {
        let q = choose|q: int| 0 <= q < live.len() && (#[trigger] live[q]).0 == other;
        let e = q + (after.entries.len() - live.len());
        assert(after.entries[e].0 == other);
        let p = gone + e;
        assert(view.entries[p].0 == other);
        let dropped = view.entries.len() - old_live.len();
        if p >= dropped {
            assert(old_live[p - dropped].0 == other);
        }
        assert forall|i: int| 0 <= i < e + 1 implies is_expired(
            after.window,
            (#[trigger] after.entries[i]).1,
            later,
        ) by {
            assert(is_expired(view.window, view.entries[gone + i].1, now));
        }
        lemma_live_drops(after.entries, after.window, later, e + 1);
    }
}

/// A ring without capacity never remembers anything.
pub proof fn law_zero_capacity_remembers_nothing(view: RecentView, hash: Hash32, now: u128)
    requires
        view.well_formed(),
        view.capacity == 0,
    ensures
        !view.remembers(hash, now),
        view.recorded(hash, now).entries.len() == 0,
{
    lemma_live_is_suffix(view.entries, view.window, now);
}

/// While the clock does not go back, a block is remembered exactly where an entry for it is
/// no older than the window, in nanoseconds.
pub proof fn law_remembered_for_the_window(view: RecentView, hash: Hash32, now: u128)
    requires
        view.is_ordered(now),
    ensures
        view.remembers(hash, now) <==> exists|i: int|
            0 <= i < view.entries.len() && (#[trigger] view.entries[i]).0 == hash && now
                - view.entries[i].1 <= view.window,
{
    law_remembered_iff_within_window(view, hash, now);
}

/// Recording appends the block with its time, where there is room for any, keeps the
/// settings, and leaves of the rest only entries that were there, in their order. There are
/// never more than the capacity allows.
pub proof fn law_recording_appends(view: RecentView, hash: Hash32, now: u128)
    requires
        view.well_formed(),
    ensures
        ({
            let after = view.recorded(hash, now);
            &&& after.capacity == view.capacity
            &&& after.window == view.window
            &&& after.entries.len() <= view.capacity
            &&& view.capacity > 0 ==> after.entries.len() > 0 && after.entries.last() == (hash, now)
            &&& view.capacity > 0 ==> after.entries.len() - 1 <= view.entries.len()
            &&& view.capacity > 0 ==> forall|i: int|
                0 <= i < after.entries.len() - 1 ==> #[trigger] after.entries[i]
                    == view.entries[view.entries.len() - (after.entries.len() - 1) + i]
        }),
{
    lemma_live_is_suffix(view.entries, view.window, now);
}

} // verus!
