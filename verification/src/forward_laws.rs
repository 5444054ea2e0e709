//! What is done for a block from its arrival to the end of its delivery.

use vstd::arithmetic::div_mod::{
    lemma_fundamental_div_mod, lemma_fundamental_div_mod_converse, lemma_mod_bound,
};
use vstd::prelude::*;

use crate::error::ErrorView;
use crate::forward::{
    bytes_ahead, objects_ahead, segment_mode, ForwardActionView, ForwardEventView, ForwardPhase,
    ForwardStep, SegmentRun,
};
use crate::recent::law_recorded_is_remembered;
use crate::relay_bridge::{
    total_len, BridgeView, CompactSummary, ForwardMode, ForwardedBlock, SkeletonSummary,
};
use crate::text::occurs_in;

verus! {

/// What comes of each thing that is asked for in a delivery.
pub struct Surroundings {
    pub compact: Result<CompactSummary, ErrorView>,
    pub chunked: Result<(), Seq<char>>,
    pub skeleton: Option<SkeletonSummary>,
    pub skeleton_sent: Result<(), Seq<char>>,
    pub compact_sent: Result<(), Seq<char>>,
    pub split: Result<Seq<usize>, Seq<char>>,
}

/// A delivery: what was done, in order, and the bridge afterwards.
pub struct Delivery {
    pub actions: Seq<ForwardActionView>,
    pub bridge: BridgeView,
}

impl Surroundings {
    /// What comes of doing something. Every segment is taken by the relay.
    pub open spec fn answer(self, action: ForwardActionView) -> ForwardEventView {
        match action {
            ForwardActionView::BuildCompact { .. } => ForwardEventView::CompactBuilt(self.compact),
            ForwardActionView::Chunk => ForwardEventView::Chunked(self.chunked),
            ForwardActionView::BuildSkeleton => ForwardEventView::SkeletonBuilt(self.skeleton),
            ForwardActionView::SendSkeleton => ForwardEventView::Sent(self.skeleton_sent),
            ForwardActionView::SendCompact => ForwardEventView::Sent(self.compact_sent),
            ForwardActionView::Split { .. } => ForwardEventView::Split(self.split),
            ForwardActionView::SendSegment(_) => ForwardEventView::Sent(Ok(())),
            ForwardActionView::Pause(_) => ForwardEventView::PauseOver,
            ForwardActionView::Finish(_) => ForwardEventView::Start,
        }
    }

    /// The delivery from a step on, for at most `n` more steps. The clock says when each
    /// step is taken, by its number.
    #[verifier::opaque]
    pub open spec fn goes_on(
        self,
        step: ForwardStep,
        has_tx_cache: bool,
        clock: spec_fn(int) -> u128,
        number: int,
        n: nat,
    ) -> Delivery
        decreases n,
    {
        if n == 0 || step.action is Finish {
            Delivery { actions: seq![step.action], bridge: step.bridge }
        } else {
            let next = step.bridge.forward_next(
                step.phase,
                has_tx_cache,
                self.answer(step.action),
                clock(number),
            );
            let rest = self.goes_on(next, has_tx_cache, clock, number + 1, (n - 1) as nat);
            Delivery { actions: seq![step.action] + rest.actions, bridge: rest.bridge }
        }
    }

    /// The delivery of a block that has just arrived.
    #[verifier::opaque]
    pub open spec fn delivery(
        self,
        bridge: BridgeView,
        has_tx_cache: bool,
        clock: spec_fn(int) -> u128,
        n: nat,
    ) -> Delivery {
        let first = bridge.forward_next(
            ForwardPhase::Waiting,
            has_tx_cache,
            ForwardEventView::Start,
            clock(0),
        );
        self.goes_on(first, has_tx_cache, clock, 1, n)
    }
}

/// How many things are done to send so many segments in so many rounds, with a pause
/// between two rounds where one is set.
pub open spec fn run_length(count: int, rounds: int, pauses: bool) -> int {
    if pauses && rounds > 0 {
        (count + 1) * rounds - 1
    } else {
        count * rounds
    }
}

/// From which place on the next round starts.
pub open spec fn round_length(count: int, pauses: bool) -> int {
    if pauses {
        count + 1
    } else {
        count
    }
}

/// The place of a segment of a round among all that is done.
pub open spec fn place(round: int, index: int, round_length: int) -> int {
    round * round_length + index
}

/// What is done from a place on: each segment of each round at its place, the pauses
/// between the rounds, and one thing more.
spec fn follows_rounds(
    actions: Seq<ForwardActionView>,
    from: int,
    count: int,
    rounds: int,
    delay: u128,
) -> bool {
    let p = round_length(count, delay > 0);
    &&& actions.len() == run_length(count, rounds, delay > 0) - from + 1
    &&& forall|r: int, i: int|
        0 <= r < rounds && 0 <= i < count && #[trigger] place(r, i, p) >= from ==> actions[place(
            r,
            i,
            p,
        ) - from] == ForwardActionView::SendSegment(i as usize)
    &&& forall|r: int|
        delay > 0 && 0 <= r < rounds - 1 && #[trigger] place(r, count, p) >= from ==> actions[place(
            r,
            count,
            p,
        ) - from] == ForwardActionView::Pause(delay)
}

/// Two places in the rounds are the same only where round and segment are the same.
proof fn lemma_same_place(p: int, r: int, i: int, r2: int, i2: int)
    requires
        0 <= i < p,
        0 <= i2 < p,
        place(r, i, p) == place(r2, i2, p),
    ensures
        r == r2,
        i == i2,
{
    lemma_fundamental_div_mod_converse(r * p + i, p, r, i);
    lemma_fundamental_div_mod_converse(r * p + i, p, r2, i2);
}

/// Every segment of every round, and every pause, has its place before the end.
proof fn lemma_place_before_end(count: int, rounds: int, pauses: bool, r: int, i: int)
    requires
        0 <= r < rounds,
        0 <= i < count || (pauses && 0 <= i == count && r < rounds - 1),
    ensures
        0 <= place(r, i, round_length(count, pauses)) < run_length(count, rounds, pauses),
{
    let p = round_length(count, pauses);
    assert(0 <= r * p && r * p + p <= rounds * p) by (nonlinear_arith)
        requires
            0 <= r,
            r + 1 <= rounds,
            p >= 0,
    ;
    assert(rounds * p == p * rounds) by (nonlinear_arith);
    if i == count {
        assert(r * p + 2 * p <= rounds * p) by (nonlinear_arith)
            requires
                r + 2 <= rounds,
                p >= 0,
        ;
    }
}

/// The places of the rounds follow each other without a gap.
proof fn lemma_next_round(count: int, rounds: int, pauses: bool, r: int)
    requires
        count >= 0,
        0 <= r < rounds,
    ensures
        place(r + 1, 0, round_length(count, pauses)) == place(
            r,
            round_length(count, pauses),
            round_length(count, pauses),
        ),
        r + 1 == rounds ==> place(r, count, round_length(count, pauses)) == run_length(
            count,
            rounds,
            pauses,
        ),
        count == 0 && !pauses ==> run_length(count, rounds, pauses) == 0 && place(r, 0, 0) == 0,
        place(0, 0, round_length(count, pauses)) == 0,
{
    let p = round_length(count, pauses);
    assert((r + 1) * p == r * p + p) by (nonlinear_arith);
    assert(rounds * p == p * rounds) by (nonlinear_arith);
    assert(0 * p == 0 && r * 0 == 0 && 0 * rounds == 0) by (nonlinear_arith);
}

/// One more thing in front: the segment or the pause whose place it is.
proof fn lemma_one_more_in_front(
    action: ForwardActionView,
    rest: Seq<ForwardActionView>,
    r0: int,
    i0: int,
    count: int,
    rounds: int,
    delay: u128,
)
    requires
        0 <= r0 < rounds,
        0 <= i0 < count && action == ForwardActionView::SendSegment(i0 as usize) || (delay > 0 && i0
            == count && count >= 0 && action == ForwardActionView::Pause(delay)),
        follows_rounds(
            rest,
            place(r0, i0, round_length(count, delay > 0)) + 1,
            count,
            rounds,
            delay,
        ),
    ensures
        follows_rounds(
            seq![action] + rest,
            place(r0, i0, round_length(count, delay > 0)),
            count,
            rounds,
            delay,
        ),
{
    let p = round_length(count, delay > 0);
    let from = place(r0, i0, p);
    let actions = seq![action] + rest;
    assert forall|r: int, i: int|
        0 <= r < rounds && 0 <= i < count && #[trigger] place(r, i, p) >= from implies actions[place(
        r,
        i,
        p,
    ) - from] == ForwardActionView::SendSegment(i as usize) by {
        lemma_place_before_end(count, rounds, delay > 0, r, i);
        if place(r, i, p) == from {
            lemma_same_place(p, r0, i0, r, i);
        } else {
            assert(actions[place(r, i, p) - from] == rest[place(r, i, p) - (from + 1)]);
        }
    }
    assert forall|r: int|
        delay > 0 && 0 <= r < rounds - 1 && #[trigger] place(r, count, p)
            >= from implies actions[place(r, count, p) - from] == ForwardActionView::Pause(delay) by {
        lemma_place_before_end(count, rounds, delay > 0, r, count);
        if place(r, count, p) == from {
            lemma_same_place(p, r0, i0, r, count);
        } else {
            assert(actions[place(r, count, p) - from] == rest[place(r, count, p) - (from + 1)]);
        }
    }
}

/// Nothing but the end is left once every place is passed.
proof fn lemma_only_the_end(
    actions: Seq<ForwardActionView>,
    from: int,
    count: int,
    rounds: int,
    delay: u128,
)
    requires
        count >= 0,
        actions.len() == 1,
        from == run_length(count, rounds, delay > 0),
    ensures
        follows_rounds(actions, from, count, rounds, delay),
{
    let p = round_length(count, delay > 0);
    assert forall|r: int, i: int|
        0 <= r < rounds && 0 <= i < count && #[trigger] place(r, i, p) >= from implies false by {
        lemma_place_before_end(count, rounds, delay > 0, r, i);
    }
    assert forall|r: int|
        delay > 0 && 0 <= r < rounds - 1 && #[trigger] place(r, count, p)
            >= from implies false by {
        lemma_place_before_end(count, rounds, delay > 0, r, count);
    }
}

/// A segment is sent, then the rounds go on.
proof fn lemma_segment_is_sent(
    world: Surroundings,
    bridge: BridgeView,
    compact: CompactSummary,
    ahead: Option<usize>,
    run: SegmentRun,
    now: u128,
    has_tx_cache: bool,
    clock: spec_fn(int) -> u128,
    number: int,
    n: nat,
)
    requires
        run.round < bridge.raw_segment_send_rounds,
        run.index < run.count,
        n > 0,
    ensures
        ({
            let done = world.goes_on(
                bridge.at_segment(compact, ahead, run, now),
                has_tx_cache,
                clock,
                number,
                n,
            );
            let rest = world.goes_on(
                bridge.at_segment(
                    compact,
                    ahead,
                    SegmentRun { index: (run.index + 1) as usize, ..run },
                    clock(number),
                ),
                has_tx_cache,
                clock,
                number + 1,
                (n - 1) as nat,
            );
            &&& done.actions == seq![ForwardActionView::SendSegment(run.index)] + rest.actions
            &&& done.bridge == rest.bridge
        }),
{
    reveal_with_fuel(Surroundings::goes_on, 1);
}

/// A round is over and a pause is made, then the next round starts.
proof fn lemma_pause_is_made(
    world: Surroundings,
    bridge: BridgeView,
    compact: CompactSummary,
    ahead: Option<usize>,
    run: SegmentRun,
    now: u128,
    has_tx_cache: bool,
    clock: spec_fn(int) -> u128,
    number: int,
    n: nat,
)
    requires
        run.round + 1 < bridge.raw_segment_send_rounds,
        bridge.raw_segment_round_delay > 0,
        run.index == run.count,
        n > 0,
    ensures
        ({
            let done = world.goes_on(
                bridge.at_segment(compact, ahead, run, now),
                has_tx_cache,
                clock,
                number,
                n,
            );
            let rest = world.goes_on(
                bridge.at_segment(
                    compact,
                    ahead,
                    SegmentRun { round: (run.round + 1) as usize, index: 0, ..run },
                    clock(number),
                ),
                has_tx_cache,
                clock,
                number + 1,
                (n - 1) as nat,
            );
            &&& done.actions == seq![ForwardActionView::Pause(bridge.raw_segment_round_delay)]
                + rest.actions
            &&& done.bridge == rest.bridge
        }),
{
    reveal_with_fuel(Surroundings::goes_on, 1);
}

/// The last round is over, or there is nothing to send: the delivery ends.
proof fn lemma_rounds_are_over(
    world: Surroundings,
    bridge: BridgeView,
    compact: CompactSummary,
    ahead: Option<usize>,
    run: SegmentRun,
    now: u128,
    has_tx_cache: bool,
    clock: spec_fn(int) -> u128,
    number: int,
    n: nat,
)
    requires
        run.index == run.count || bridge.raw_segment_send_rounds == 0,
        run.round + 1 >= bridge.raw_segment_send_rounds || (run.count == 0
            && bridge.raw_segment_round_delay == 0),
    ensures
        ({
            let done = world.goes_on(
                bridge.at_segment(compact, ahead, run, now),
                has_tx_cache,
                clock,
                number,
                n,
            );
            &&& done.actions == seq![
                ForwardActionView::Finish(
                    Ok(
                        ForwardedBlock {
                            tx_count: compact.tx_count,
                            bytes: (bytes_ahead(ahead) + run.wire_bytes) as usize,
                            relay_objects: (run.count * bridge.raw_segment_send_rounds
                                + objects_ahead(ahead)) as usize,
                            mode: segment_mode(ahead),
                        },
                    ),
                ),
            ]
            &&& done.bridge == bridge.recorded(compact.header_hash, now)
        }),
{
    reveal_with_fuel(Surroundings::goes_on, 1);
}

/// What is done from a point of the rounds on.
proof fn lemma_rest_of_rounds(
    world: Surroundings,
    bridge: BridgeView,
    compact: CompactSummary,
    ahead: Option<usize>,
    run: SegmentRun,
    now: u128,
    has_tx_cache: bool,
    clock: spec_fn(int) -> u128,
    number: int,
    n: nat,
)
    requires
        run.index <= run.count,
        run.round < bridge.raw_segment_send_rounds || (bridge.raw_segment_send_rounds == 0
            && run.round == 0 && run.index == 0),
        ({
            let pauses = bridge.raw_segment_round_delay > 0;
            let p = round_length(run.count as int, pauses);
            n >= run_length(run.count as int, bridge.raw_segment_send_rounds as int, pauses)
                - place(run.round as int, run.index as int, p)
        }),
    ensures
        ({
            let rounds = bridge.raw_segment_send_rounds as int;
            let delay = bridge.raw_segment_round_delay;
            let total = run_length(run.count as int, rounds, delay > 0);
            let from = place(
                run.round as int,
                run.index as int,
                round_length(run.count as int, delay > 0),
            );
            let done = world.goes_on(
                bridge.at_segment(compact, ahead, run, now),
                has_tx_cache,
                clock,
                number,
                n,
            );
            &&& from <= total
            &&& follows_rounds(done.actions, from, run.count as int, rounds, delay)
            &&& done.actions.last() == ForwardActionView::Finish(
                Ok(
                    ForwardedBlock {
                        tx_count: compact.tx_count,
                        bytes: (bytes_ahead(ahead) + run.wire_bytes) as usize,
                        relay_objects: (run.count * rounds + objects_ahead(ahead)) as usize,
                        mode: segment_mode(ahead),
                    },
                ),
            )
            &&& done.bridge == bridge.recorded(
                compact.header_hash,
                if total == from {
                    now
                } else {
                    clock(number + (total - from) - 1)
                },
            )
        }),
    decreases n, bridge.raw_segment_send_rounds - run.round,
{
    let rounds = bridge.raw_segment_send_rounds as int;
    let delay = bridge.raw_segment_round_delay;
    let pauses = delay > 0;
    let c = run.count as int;
    let r0 = run.round as int;
    let i0 = run.index as int;
    let p = round_length(c, pauses);
    let from = place(r0, i0, p);
    let done = world.goes_on(
        bridge.at_segment(compact, ahead, run, now),
        has_tx_cache,
        clock,
        number,
        n,
    );
    if rounds == 0 {
        assert(c * rounds == 0 && r0 * p == 0) by (nonlinear_arith)
            requires
                rounds == 0,
                r0 == 0,
        ;
        lemma_rounds_are_over(
            world,
            bridge,
            compact,
            ahead,
            run,
            now,
            has_tx_cache,
            clock,
            number,
            n,
        );
        lemma_only_the_end(done.actions, from, c, rounds, delay);
    } else {
        lemma_next_round(c, rounds, pauses, r0);
        if i0 < c || (r0 + 1 < rounds && pauses) {
            lemma_place_before_end(c, rounds, pauses, r0, i0);
            let next_run = if i0 < c {
                SegmentRun { index: (run.index + 1) as usize, ..run }
            } else {
                SegmentRun { round: (run.round + 1) as usize, index: 0, ..run }
            };
            if i0 < c {
                lemma_segment_is_sent(
                    world,
                    bridge,
                    compact,
                    ahead,
                    run,
                    now,
                    has_tx_cache,
                    clock,
                    number,
                    n,
                );
            } else {
                lemma_pause_is_made(
                    world,
                    bridge,
                    compact,
                    ahead,
                    run,
                    now,
                    has_tx_cache,
                    clock,
                    number,
                    n,
                );
            }
            lemma_rest_of_rounds(
                world,
                bridge,
                compact,
                ahead,
                next_run,
                clock(number),
                has_tx_cache,
                clock,
                number + 1,
                (n - 1) as nat,
            );
            let rest = world.goes_on(
                bridge.at_segment(compact, ahead, next_run, clock(number)),
                has_tx_cache,
                clock,
                number + 1,
                (n - 1) as nat,
            );
            lemma_one_more_in_front(done.actions[0], rest.actions, r0, i0, c, rounds, delay);
            assert(done.actions.last() == rest.actions.last());
        } else if r0 + 1 < rounds && c > 0 {
            let next_run = SegmentRun { round: (run.round + 1) as usize, index: 0, ..run };
            assert(bridge.at_segment(compact, ahead, next_run, now) == bridge.at_segment(
                compact,
                ahead,
                run,
                now,
            ));
            lemma_rest_of_rounds(
                world,
                bridge,
                compact,
                ahead,
                next_run,
                now,
                has_tx_cache,
                clock,
                number,
                n,
            );
        } else {
            lemma_rounds_are_over(
                world,
                bridge,
                compact,
                ahead,
                run,
                now,
                has_tx_cache,
                clock,
                number,
                n,
            );
            lemma_only_the_end(done.actions, from, c, rounds, delay);
        }
    }
}

/// The raw block was cut into segments of the given lengths, and the relay takes all that
/// it is sent. Then each round sends every segment, in order, from the first segment of the
/// first round to the last of the last, with the pause that is set between two rounds;
/// nothing else is done, and the delivery ends well. What is reported is what was sent:
/// each segment once for every round, behind what went ahead.
pub proof fn law_every_round_sends_every_segment(
    world: Surroundings,
    bridge: BridgeView,
    compact: CompactSummary,
    ahead: Option<usize>,
    lens: Seq<usize>,
    has_tx_cache: bool,
    clock: spec_fn(int) -> u128,
    number: int,
    n: nat,
)
    requires
        lens.len() <= usize::MAX,
        total_len(lens) * bridge.raw_segment_send_rounds + bytes_ahead(ahead) <= usize::MAX,
        lens.len() * bridge.raw_segment_send_rounds + 1 <= usize::MAX,
        n >= (lens.len() + 1) * bridge.raw_segment_send_rounds,
    ensures
        ({
            let rounds = bridge.raw_segment_send_rounds as int;
            let delay = bridge.raw_segment_round_delay;
            let count = lens.len() as int;
            let p = if delay > 0 {
                count + 1
            } else {
                count
            };
            let total = if delay > 0 && rounds > 0 {
                (count + 1) * rounds - 1
            } else {
                count * rounds
            };
            let done = world.goes_on(
                bridge.forward_next(
                    ForwardPhase::Split(compact, ahead),
                    has_tx_cache,
                    ForwardEventView::Split(Ok(lens)),
                    clock(number),
                ),
                has_tx_cache,
                clock,
                number + 1,
                n,
            );
            &&& 0 <= total
            &&& done.actions.len() == total + 1
            &&& forall|x: int|
                0 <= x < total ==> #[trigger] done.actions[x] == if delay > 0 && x % p
                    == lens.len() {
                    ForwardActionView::Pause(delay)
                } else {
                    ForwardActionView::SendSegment((x % p) as usize)
                }
            &&& done.actions[total] matches ForwardActionView::Finish(Ok(forwarded)) && {
                &&& forwarded.tx_count == compact.tx_count
                &&& forwarded.bytes == total_len(lens) * rounds + match ahead {
                    Some(bytes) => bytes as int,
                    None => 0,
                }
                &&& forwarded.relay_objects == lens.len() * rounds + match ahead {
                    Some(_) => 1int,
                    None => 0,
                }
                &&& forwarded.mode == match ahead {
                    Some(_) => ForwardMode::CompactBlockWithRawFallback,
                    None => ForwardMode::RawBlockSegments,
                }
            }
            &&& done.bridge == bridge.recorded(compact.header_hash, clock(number + total))
        }),
{
    let rounds = bridge.raw_segment_send_rounds as int;
    let delay = bridge.raw_segment_round_delay;
    let c = lens.len() as int;
    let p = round_length(c, delay > 0);
    let total = run_length(c, rounds, delay > 0);
    let t = total_len(lens) as int;
    assert(0 <= t * rounds && 0 <= c * rounds && (c + 1) * rounds == c * rounds + rounds && 0 * p
        == 0) by (nonlinear_arith)
        requires
            t >= 0,
            rounds >= 0,
            c >= 0,
    ;
    let run = SegmentRun {
        count: lens.len() as usize,
        wire_bytes: (total_len(lens) * bridge.raw_segment_send_rounds) as usize,
        round: 0,
        index: 0,
    };
    let first = bridge.forward_next(
        ForwardPhase::Split(compact, ahead),
        has_tx_cache,
        ForwardEventView::Split(Ok(lens)),
        clock(number),
    );
    assert(first == bridge.at_segment(compact, ahead, run, clock(number)));
    assert(place(0, 0, p) == 0);
    lemma_rest_of_rounds(
        world,
        bridge,
        compact,
        ahead,
        run,
        clock(number),
        has_tx_cache,
        clock,
        number + 1,
        n,
    );
    let done = world.goes_on(first, has_tx_cache, clock, number + 1, n);
    assert(follows_rounds(done.actions, 0, c, rounds, delay));
    assert forall|x: int| 0 <= x < total implies #[trigger] done.actions[x] == if delay > 0 && x % p
        == lens.len() {
        ForwardActionView::Pause(delay)
    } else {
        ForwardActionView::SendSegment((x % p) as usize)
    } by {
        lemma_place_of(c, rounds, delay > 0, x);
        assert(place(x / p, x % p, p) == x);
    }
}

/// Every number below the length of a run is the place of a segment or of a pause.
proof fn lemma_place_of(count: int, rounds: int, pauses: bool, x: int)
    requires
        count >= 0,
        rounds >= 0,
        0 <= x < run_length(count, rounds, pauses),
    ensures
        ({
            let p = round_length(count, pauses);
            &&& p > 0
            &&& place(x / p, x % p, p) == x
            &&& 0 <= x / p < rounds
            &&& 0 <= x % p < p
            &&& pauses && x % p == count ==> x / p < rounds - 1
        }),
{
    let p = round_length(count, pauses);
    if count == 0 || rounds == 0 {
        assert(count * rounds == 0) by (nonlinear_arith)
            requires
                count == 0 || rounds == 0,
        ;
    }
    lemma_fundamental_div_mod(x, p);
    lemma_mod_bound(x, p);
    let (q, m) = (x / p, x % p);
    assert(q * p == p * q) by (nonlinear_arith);
    assert(p * rounds == rounds * p) by (nonlinear_arith);
    assert(0 <= q) by (nonlinear_arith)
        requires
            x == p * q + m,
            0 <= x,
            m < p,
            p > 0,
    ;
    assert(q < rounds) by (nonlinear_arith)
        requires
            x == p * q + m,
            x < p * rounds,
            0 <= m,
            p > 0,
    ;
    if pauses && m == count {
        assert(q < rounds - 1) by (nonlinear_arith)
            requires
                x == p * q + m,
                x < p * rounds - 1,
                m == p - 1,
                p > 0,
        ;
    }
}

/// One step of a delivery, and the rest.
proof fn lemma_one_step(
    world: Surroundings,
    step: ForwardStep,
    has_tx_cache: bool,
    clock: spec_fn(int) -> u128,
    number: int,
    n: nat,
)
    requires
        n > 0,
    ensures
        ({
            let done = world.goes_on(step, has_tx_cache, clock, number, n);
            let next = step.bridge.forward_next(
                step.phase,
                has_tx_cache,
                world.answer(step.action),
                clock(number),
            );
            let rest = world.goes_on(next, has_tx_cache, clock, number + 1, (n - 1) as nat);
            &&& !(step.action is Finish) ==> done.actions == seq![step.action] + rest.actions
                && done.bridge == rest.bridge
            &&& step.action is Finish ==> done.actions == seq![step.action] && done.bridge
                == step.bridge
        }),
{
    reveal_with_fuel(Surroundings::goes_on, 1);
}

/// A new block that fits: its compact block is made, then the chunker is tried.
proof fn lemma_new_block_is_chunked(
    world: Surroundings,
    bridge: BridgeView,
    has_tx_cache: bool,
    compact: CompactSummary,
    clock: spec_fn(int) -> u128,
    n: nat,
)
    requires
        world.compact == Ok::<CompactSummary, ErrorView>(compact),
        !bridge.recent.remembers(compact.header_hash, clock(1)),
        compact.wire_bytes <= bridge.data_shards * bridge.max_payload_size,
        n > 0,
    ensures
        ({
            let done = world.delivery(bridge, has_tx_cache, clock, n);
            let rest = world.goes_on(
                bridge.evicted(clock(1)).goes_on(
                    ForwardPhase::Chunk(compact),
                    ForwardActionView::Chunk,
                ),
                has_tx_cache,
                clock,
                2,
                (n - 1) as nat,
            );
            &&& done.actions == seq![
                ForwardActionView::BuildCompact {
                    with_tx_cache: bridge.compact_from_tx_cache && has_tx_cache,
                },
            ] + rest.actions
            &&& done.bridge == rest.bridge
        }),
{
    reveal(Surroundings::delivery);
    let s0 = bridge.forward_next(
        ForwardPhase::Waiting,
        has_tx_cache,
        ForwardEventView::Start,
        clock(0),
    );
    lemma_one_step(world, s0, has_tx_cache, clock, 1, n);
}

/// The chunker takes the compact block: a skeleton is made, or the compact block sent.
proof fn lemma_chunker_takes_it(
    world: Surroundings,
    kept: BridgeView,
    has_tx_cache: bool,
    compact: CompactSummary,
    clock: spec_fn(int) -> u128,
    number: int,
    n: nat,
)
    requires
        world.chunked == Ok::<(), Seq<char>>(()),
        compact.wire_bytes <= kept.data_shards * kept.max_payload_size,
        n > 0,
    ensures
        ({
            let done = world.goes_on(
                kept.goes_on(ForwardPhase::Chunk(compact), ForwardActionView::Chunk),
                has_tx_cache,
                clock,
                number,
                n,
            );
            let next = if kept.skeleton_first && kept.compact_from_tx_cache && has_tx_cache {
                kept.goes_on(ForwardPhase::BuildSkeleton(compact), ForwardActionView::BuildSkeleton)
            } else {
                kept.sends_compact(compact, 0)
            };
            let rest = world.goes_on(next, has_tx_cache, clock, number + 1, (n - 1) as nat);
            &&& done.actions == seq![ForwardActionView::Chunk] + rest.actions
            &&& done.bridge == rest.bridge
        }),
{
    lemma_one_step(
        world,
        kept.goes_on(ForwardPhase::Chunk(compact), ForwardActionView::Chunk),
        has_tx_cache,
        clock,
        number,
        n,
    );
}

/// The skeleton is sent where it is worth it, else the compact block is.
proof fn lemma_skeleton_is_made(
    world: Surroundings,
    kept: BridgeView,
    has_tx_cache: bool,
    compact: CompactSummary,
    clock: spec_fn(int) -> u128,
    number: int,
    n: nat,
)
    requires
        n > 0,
    ensures
        ({
            let done = world.goes_on(
                kept.goes_on(
                    ForwardPhase::BuildSkeleton(compact),
                    ForwardActionView::BuildSkeleton,
                ),
                has_tx_cache,
                clock,
                number,
                n,
            );
            let next = if world.skeleton matches Some(skeleton) && skeleton.short_ids > 0
                && skeleton.wire_bytes <= 8192 {
                kept.goes_on(
                    ForwardPhase::SendSkeleton(compact, (world.skeleton->0).wire_bytes),
                    ForwardActionView::SendSkeleton,
                )
            } else {
                kept.sends_compact(compact, 0)
            };
            let rest = world.goes_on(next, has_tx_cache, clock, number + 1, (n - 1) as nat);
            &&& done.actions == seq![ForwardActionView::BuildSkeleton] + rest.actions
            &&& done.bridge == rest.bridge
        }),
{
    lemma_one_step(
        world,
        kept.goes_on(ForwardPhase::BuildSkeleton(compact), ForwardActionView::BuildSkeleton),
        has_tx_cache,
        clock,
        number,
        n,
    );
}

/// The compact block is sent behind the skeleton, whatever came of it.
proof fn lemma_skeleton_is_sent(
    world: Surroundings,
    kept: BridgeView,
    has_tx_cache: bool,
    compact: CompactSummary,
    bytes: usize,
    clock: spec_fn(int) -> u128,
    number: int,
    n: nat,
)
    requires
        n > 0,
    ensures
        ({
            let done = world.goes_on(
                kept.goes_on(
                    ForwardPhase::SendSkeleton(compact, bytes),
                    ForwardActionView::SendSkeleton,
                ),
                has_tx_cache,
                clock,
                number,
                n,
            );
            let rest = world.goes_on(
                kept.sends_compact(
                    compact,
                    if world.skeleton_sent is Ok {
                        bytes
                    } else {
                        0
                    },
                ),
                has_tx_cache,
                clock,
                number + 1,
                (n - 1) as nat,
            );
            &&& done.actions == seq![ForwardActionView::SendSkeleton] + rest.actions
            &&& done.bridge == rest.bridge
        }),
{
    lemma_one_step(
        world,
        kept.goes_on(
            ForwardPhase::SendSkeleton(compact, bytes),
            ForwardActionView::SendSkeleton,
        ),
        has_tx_cache,
        clock,
        number,
        n,
    );
}

/// What is done before the compact block is sent.
proof fn lemma_until_compact(
    world: Surroundings,
    bridge: BridgeView,
    has_tx_cache: bool,
    compact: CompactSummary,
    clock: spec_fn(int) -> u128,
    n: nat,
) -> (early: usize)
    requires
        world.compact == Ok::<CompactSummary, ErrorView>(compact),
        world.chunked == Ok::<(), Seq<char>>(()),
        !bridge.recent.remembers(compact.header_hash, clock(1)),
        compact.wire_bytes <= bridge.data_shards * bridge.max_payload_size,
        n >= 6,
    ensures
        ({
            let tries_skeleton = bridge.skeleton_first && bridge.compact_from_tx_cache
                && has_tx_cache;
            let sends_skeleton = tries_skeleton && (world.skeleton matches Some(skeleton)
                && skeleton.short_ids > 0 && skeleton.wire_bytes <= 8192);
            let built = ForwardActionView::BuildCompact {
                with_tx_cache: bridge.compact_from_tx_cache && has_tx_cache,
            };
            let before = if sends_skeleton {
                seq![
                    built,
                    ForwardActionView::Chunk,
                    ForwardActionView::BuildSkeleton,
                    ForwardActionView::SendSkeleton,
                ]
            } else if tries_skeleton {
                seq![built, ForwardActionView::Chunk, ForwardActionView::BuildSkeleton]
            } else {
                seq![built, ForwardActionView::Chunk]
            };
            let at = before.len() as int;
            let done = world.delivery(bridge, has_tx_cache, clock, n);
            let rest = world.goes_on(
                bridge.evicted(clock(1)).sends_compact(compact, early),
                has_tx_cache,
                clock,
                at + 1,
                (n - at) as nat,
            );
            &&& done.actions == before + rest.actions
            &&& done.bridge == rest.bridge
            &&& early == if sends_skeleton && world.skeleton_sent is Ok {
                (world.skeleton->0).wire_bytes as int
            } else {
                0
            }
        }),
{
    let kept = bridge.evicted(clock(1));
    let tries_skeleton = bridge.skeleton_first && bridge.compact_from_tx_cache && has_tx_cache;
    let sends_skeleton = tries_skeleton && (world.skeleton matches Some(skeleton)
        && skeleton.short_ids > 0 && skeleton.wire_bytes <= 8192);
    let early: usize = if sends_skeleton && world.skeleton_sent is Ok {
        (world.skeleton->0).wire_bytes
    } else {
        0
    };
    lemma_new_block_is_chunked(world, bridge, has_tx_cache, compact, clock, n);
    lemma_chunker_takes_it(world, kept, has_tx_cache, compact, clock, 2, (n - 1) as nat);
    if tries_skeleton {
        lemma_skeleton_is_made(world, kept, has_tx_cache, compact, clock, 3, (n - 2) as nat);
        if sends_skeleton {
            lemma_skeleton_is_sent(
                world,
                kept,
                has_tx_cache,
                compact,
                (world.skeleton->0).wire_bytes,
                clock,
                4,
                (n - 3) as nat,
            );
        }
    }
    early
}

/// What is done from the sending of the compact block on.
proof fn lemma_from_compact(
    world: Surroundings,
    kept: BridgeView,
    has_tx_cache: bool,
    compact: CompactSummary,
    early: usize,
    lens: Seq<usize>,
    clock: spec_fn(int) -> u128,
    at: int,
    n: nat,
)
    requires
        world.compact_sent == Ok::<(), Seq<char>>(()),
        world.split == Ok::<Seq<usize>, Seq<char>>(lens),
        lens.len() <= usize::MAX,
        total_len(lens) * kept.raw_segment_send_rounds + compact.wire_bytes + early <= usize::MAX,
        lens.len() * kept.raw_segment_send_rounds + 1 <= usize::MAX,
        n >= 2 + (lens.len() + 1) * kept.raw_segment_send_rounds,
    ensures
        ({
            let rounds = kept.raw_segment_send_rounds as int;
            let delay = kept.raw_segment_round_delay;
            let count = lens.len() as int;
            let p = if delay > 0 {
                count + 1
            } else {
                count
            };
            let total = if delay > 0 && rounds > 0 {
                (count + 1) * rounds - 1
            } else {
                count * rounds
            };
            let raw_follows = kept.raw_fallback_with_tx_cache && kept.compact_from_tx_cache
                && compact.short_ids > 0;
            let end = if raw_follows {
                2 + total
            } else {
                1
            };
            let rest = world.goes_on(
                kept.sends_compact(compact, early),
                has_tx_cache,
                clock,
                at + 1,
                n,
            );
            &&& total >= 0
            &&& rest.actions.len() == end + 1
            &&& rest.actions[0] == ForwardActionView::SendCompact
            &&& raw_follows ==> rest.actions[1] == (ForwardActionView::Split {
                max_segment_frame_bytes: kept.frame_budget(),
            })
            &&& raw_follows ==> forall|x: int|
                #![trigger rest.actions[2 + x]]
                0 <= x < total ==> rest.actions[2 + x] == if delay > 0 && x % p == count {
                    ForwardActionView::Pause(delay)
                } else {
                    ForwardActionView::SendSegment((x % p) as usize)
                }
            &&& rest.actions[end] matches ForwardActionView::Finish(Ok(forwarded)) && {
                &&& forwarded.tx_count == compact.tx_count
                &&& forwarded.bytes == compact.wire_bytes + early + if raw_follows {
                    total_len(lens) * rounds
                } else {
                    0
                }
                &&& forwarded.relay_objects == 1 + if raw_follows {
                    count * rounds
                } else {
                    0
                }
                &&& forwarded.mode == if raw_follows {
                    ForwardMode::CompactBlockWithRawFallback
                } else {
                    ForwardMode::CompactBlock
                }
            }
            &&& rest.bridge == kept.recorded(compact.header_hash, clock(at + end))
        }),
{
    let t = total_len(lens) as int;
    let rounds = kept.raw_segment_send_rounds as int;
    let c = lens.len() as int;
    assert(0 <= t * rounds && 0 <= c * rounds && (c + 1) * rounds == c * rounds + rounds)
        by (nonlinear_arith)
        requires
            t >= 0,
            rounds >= 0,
            c >= 0,
    ;
    let sent = kept.sends_compact(compact, early);
    let rest = world.goes_on(sent, has_tx_cache, clock, at + 1, n);
    lemma_one_step(world, sent, has_tx_cache, clock, at + 1, n);
    let answered = sent.bridge.forward_next(
        sent.phase,
        has_tx_cache,
        world.answer(sent.action),
        clock(at + 1),
    );
    lemma_one_step(world, answered, has_tx_cache, clock, at + 2, (n - 1) as nat);
    if kept.raw_fallback_with_tx_cache && kept.compact_from_tx_cache && compact.short_ids > 0 {
        let ahead = Some((compact.wire_bytes + early) as usize);
        assert(answered == kept.splits(compact, ahead));
        law_every_round_sends_every_segment(
            world,
            kept,
            compact,
            ahead,
            lens,
            has_tx_cache,
            clock,
            at + 2,
            (n - 2) as nat,
        );
        let segments = world.goes_on(
            kept.forward_next(
                ForwardPhase::Split(compact, ahead),
                has_tx_cache,
                ForwardEventView::Split(Ok(lens)),
                clock(at + 2),
            ),
            has_tx_cache,
            clock,
            at + 3,
            (n - 2) as nat,
        );
        assert(rest.actions =~= seq![sent.action, answered.action] + segments.actions);
        assert forall|x: int| 0 <= x < segments.actions.len() implies #[trigger] rest.actions[2 + x]
            == segments.actions[x] by {}
    } else {
        assert(rest.actions =~= seq![sent.action, answered.action]);
    }
}

/// The whole delivery of a block that is new, fits the relay's frames and is taken by the
/// chunker and the relay. The compact block is made, with the cache where it is there and
/// wanted; a skeleton is made where that is asked for and there is a cache, and sent where it
/// names transactions by short id and has at most 8192 bytes; the compact block is sent
/// whatever came of the skeleton. Where the raw block is to follow a compact one with short
/// ids, every round sends every segment. What is reported is what the relay took, and the
/// block is remembered.
pub proof fn law_delivery_of_a_block_that_fits(
    world: Surroundings,
    bridge: BridgeView,
    has_tx_cache: bool,
    compact: CompactSummary,
    lens: Seq<usize>,
    clock: spec_fn(int) -> u128,
    n: nat,
)
    requires
        world.compact == Ok::<CompactSummary, ErrorView>(compact),
        world.chunked == Ok::<(), Seq<char>>(()),
        world.compact_sent == Ok::<(), Seq<char>>(()),
        world.split == Ok::<Seq<usize>, Seq<char>>(lens),
        !bridge.recent.remembers(compact.header_hash, clock(1)),
        compact.wire_bytes <= bridge.data_shards * bridge.max_payload_size,
        lens.len() <= usize::MAX,
        match world.skeleton {
            Some(skeleton) => total_len(lens) * bridge.raw_segment_send_rounds + compact.wire_bytes
                + skeleton.wire_bytes <= usize::MAX,
            None => total_len(lens) * bridge.raw_segment_send_rounds + compact.wire_bytes
                <= usize::MAX,
        },
        lens.len() * bridge.raw_segment_send_rounds + 1 <= usize::MAX,
        n >= 6 + (lens.len() + 1) * bridge.raw_segment_send_rounds,
    ensures
        ({
            let rounds = bridge.raw_segment_send_rounds as int;
            let delay = bridge.raw_segment_round_delay;
            let count = lens.len() as int;
            let p = if delay > 0 {
                count + 1
            } else {
                count
            };
            let total = if delay > 0 && rounds > 0 {
                (count + 1) * rounds - 1
            } else {
                count * rounds
            };
            let tries_skeleton = bridge.skeleton_first && bridge.compact_from_tx_cache
                && has_tx_cache;
            let sends_skeleton = tries_skeleton && (world.skeleton matches Some(skeleton)
                && skeleton.short_ids > 0 && skeleton.wire_bytes <= 8192);
            let early = if sends_skeleton && world.skeleton_sent is Ok {
                (world.skeleton->0).wire_bytes as int
            } else {
                0
            };
            let raw_follows = bridge.raw_fallback_with_tx_cache && bridge.compact_from_tx_cache
                && compact.short_ids > 0;
            // The number of the step that sends the compact block.
            let at = if sends_skeleton {
                4int
            } else if tries_skeleton {
                3
            } else {
                2
            };
            let end = if raw_follows {
                at + 2 + total
            } else {
                at + 1
            };
            let done = world.delivery(bridge, has_tx_cache, clock, n);
            &&& done.actions.len() == end + 1
            &&& done.actions[0] == (ForwardActionView::BuildCompact {
                with_tx_cache: bridge.compact_from_tx_cache && has_tx_cache,
            })
            &&& done.actions[1] == ForwardActionView::Chunk
            &&& tries_skeleton ==> done.actions[2] == ForwardActionView::BuildSkeleton
            &&& sends_skeleton ==> done.actions[3] == ForwardActionView::SendSkeleton
            &&& done.actions[at] == ForwardActionView::SendCompact
            &&& raw_follows ==> done.actions[at + 1] == (ForwardActionView::Split {
                max_segment_frame_bytes: bridge.frame_budget(),
            })
            &&& raw_follows ==> forall|x: int|
                #![trigger done.actions[at + 2 + x]]
                0 <= x < total ==> done.actions[at + 2 + x] == if delay > 0 && x % p == count {
                    ForwardActionView::Pause(delay)
                } else {
                    ForwardActionView::SendSegment((x % p) as usize)
                }
            &&& done.actions[end] matches ForwardActionView::Finish(Ok(forwarded)) && {
                &&& forwarded.tx_count == compact.tx_count
                &&& forwarded.bytes == compact.wire_bytes + early + if raw_follows {
                    total_len(lens) * rounds
                } else {
                    0
                }
                &&& forwarded.relay_objects == 1 + if raw_follows {
                    count * rounds
                } else {
                    0
                }
                &&& forwarded.mode == if raw_follows {
                    ForwardMode::CompactBlockWithRawFallback
                } else {
                    ForwardMode::CompactBlock
                }
            }
            &&& forall|later: u128|
                bridge.recent.capacity > 0 && later - clock(end) <= bridge.recent.window
                    ==> #[trigger] done.bridge.recent.remembers(compact.header_hash, later)
            &&& done.bridge.recent == bridge.recent.evicted(clock(1)).recorded(
                compact.header_hash,
                clock(end),
            )
            &&& done.bridge == BridgeView { recent: done.bridge.recent, ..bridge }
        }),
{
    let early = lemma_until_compact(world, bridge, has_tx_cache, compact, clock, n);
    let kept = bridge.evicted(clock(1));
    let done = world.delivery(bridge, has_tx_cache, clock, n);
    let tries_skeleton = bridge.skeleton_first && bridge.compact_from_tx_cache && has_tx_cache;
    let sends_skeleton = tries_skeleton && (world.skeleton matches Some(skeleton)
        && skeleton.short_ids > 0 && skeleton.wire_bytes <= 8192);
    let at: int = if sends_skeleton {
        4
    } else if tries_skeleton {
        3
    } else {
        2
    };
    lemma_from_compact(
        world,
        kept,
        has_tx_cache,
        compact,
        early,
        lens,
        clock,
        at,
        (n - at) as nat,
    );
    let rest = world.goes_on(
        kept.sends_compact(compact, early),
        has_tx_cache,
        clock,
        at + 1,
        (n - at) as nat,
    );
    assert forall|x: int| 0 <= x < rest.actions.len() implies #[trigger] done.actions[at + x]
        == rest.actions[x] by {}
    assert(done.actions.len() == at + rest.actions.len());
    let end = done.actions.len() - 1;
    assert(done.actions[at + 0] == rest.actions[0]);
    assert(done.actions[at + 1] == rest.actions[1]);
    assert(done.actions[at + (end - at)] == rest.actions[end - at]);
    assert forall|x: int| 0 <= x < rest.actions.len() - 2 implies #[trigger] done.actions[at + 2
        + x] == rest.actions[2 + x] by {
        assert(done.actions[at + (2 + x)] == rest.actions[2 + x]);
    }
    assert forall|later: u128|
        bridge.recent.capacity > 0 && later - clock(end)
            <= bridge.recent.window implies #[trigger] done.bridge.recent.remembers(
        compact.header_hash,
        later,
    ) by {
        law_recorded_is_remembered(kept.recent, compact.header_hash, clock(end), later);
    }
}

/// The whole delivery of a new block whose compact block is too large: one of more bytes
/// than the data shards hold, or one that the chunker refuses with the words for that.
/// Nothing of the compact block is sent; the raw block is cut up, and every round sends
/// every segment. What is reported is the segments alone, and the block is remembered.
pub proof fn law_delivery_of_a_block_that_is_too_large(
    world: Surroundings,
    bridge: BridgeView,
    has_tx_cache: bool,
    compact: CompactSummary,
    lens: Seq<usize>,
    clock: spec_fn(int) -> u128,
    n: nat,
)
    requires
        world.compact == Ok::<CompactSummary, ErrorView>(compact),
        world.split == Ok::<Seq<usize>, Seq<char>>(lens),
        !bridge.recent.remembers(compact.header_hash, clock(1)),
        bridge.data_shards * bridge.max_payload_size <= usize::MAX,
        compact.wire_bytes > bridge.data_shards * bridge.max_payload_size || (
        world.chunked matches Err(text) && occurs_in(
            "all-prefilled compact block too large"@,
            text,
        )),
        lens.len() <= usize::MAX,
        total_len(lens) * bridge.raw_segment_send_rounds <= usize::MAX,
        lens.len() * bridge.raw_segment_send_rounds + 1 <= usize::MAX,
        n >= 3 + (lens.len() + 1) * bridge.raw_segment_send_rounds,
    ensures
        ({
            let rounds = bridge.raw_segment_send_rounds as int;
            let delay = bridge.raw_segment_round_delay;
            let count = lens.len() as int;
            let p = if delay > 0 {
                count + 1
            } else {
                count
            };
            let total = if delay > 0 && rounds > 0 {
                (count + 1) * rounds - 1
            } else {
                count * rounds
            };
            // The number of the step that cuts up the block.
            let at = if compact.wire_bytes > bridge.data_shards * bridge.max_payload_size {
                1int
            } else {
                2
            };
            let end = at + 1 + total;
            let done = world.delivery(bridge, has_tx_cache, clock, n);
            &&& done.actions.len() == end + 1
            &&& done.actions[0] == (ForwardActionView::BuildCompact {
                with_tx_cache: bridge.compact_from_tx_cache && has_tx_cache,
            })
            &&& at == 2 ==> done.actions[1] == ForwardActionView::Chunk
            &&& done.actions[at] == (ForwardActionView::Split {
                max_segment_frame_bytes: bridge.frame_budget(),
            })
            &&& forall|x: int|
                #![trigger done.actions[at + 1 + x]]
                0 <= x < total ==> done.actions[at + 1 + x] == if delay > 0 && x % p == count {
                    ForwardActionView::Pause(delay)
                } else {
                    ForwardActionView::SendSegment((x % p) as usize)
                }
            &&& done.actions[end] matches ForwardActionView::Finish(Ok(forwarded)) && {
                &&& forwarded.tx_count == compact.tx_count
                &&& forwarded.bytes == total_len(lens) * rounds
                &&& forwarded.relay_objects == count * rounds
                &&& forwarded.mode == ForwardMode::RawBlockSegments
            }
            &&& forall|later: u128|
                bridge.recent.capacity > 0 && later - clock(end) <= bridge.recent.window
                    ==> #[trigger] done.bridge.recent.remembers(compact.header_hash, later)
            &&& done.bridge.recent == bridge.recent.evicted(clock(1)).recorded(
                compact.header_hash,
                clock(end),
            )
            &&& done.bridge == BridgeView { recent: done.bridge.recent, ..bridge }
        }),
{
    let t = total_len(lens) as int;
    let rounds = bridge.raw_segment_send_rounds as int;
    let c = lens.len() as int;
    assert(0 <= t * rounds && 0 <= c * rounds && (c + 1) * rounds == c * rounds + rounds)
        by (nonlinear_arith)
        requires
            t >= 0,
            rounds >= 0,
            c >= 0,
    ;
    let kept = bridge.evicted(clock(1));
    let at: int = if compact.wire_bytes > bridge.data_shards * bridge.max_payload_size {
        1
    } else {
        2
    };
    let done = world.delivery(bridge, has_tx_cache, clock, n);
    let cut = kept.splits(compact, None);
    let rest = world.goes_on(cut, has_tx_cache, clock, at + 1, (n - at) as nat);
    if at == 1 {
        lemma_large_block_is_split(world, bridge, has_tx_cache, compact, clock, n);
    } else {
        lemma_new_block_is_chunked(world, bridge, has_tx_cache, compact, clock, n);
        lemma_refused_block_is_split(
            world,
            kept,
            has_tx_cache,
            compact,
            clock,
            2,
            (n - 1) as nat,
        );
    }
    lemma_block_is_cut(world, kept, has_tx_cache, compact, lens, clock, at + 1, (n - at) as nat);
    law_every_round_sends_every_segment(
        world,
        kept,
        compact,
        None,
        lens,
        has_tx_cache,
        clock,
        at + 1,
        (n - at - 1) as nat,
    );
    let segments = world.goes_on(
        kept.forward_next(
            ForwardPhase::Split(compact, None),
            has_tx_cache,
            ForwardEventView::Split(Ok(lens)),
            clock(at + 1),
        ),
        has_tx_cache,
        clock,
        at + 2,
        (n - at - 1) as nat,
    );
    assert forall|x: int| 0 <= x < segments.actions.len() implies #[trigger] done.actions[at + 1 + x]
        == segments.actions[x] by {}
    assert(done.actions.len() == at + 1 + segments.actions.len());
    let end = done.actions.len() - 1;
    assert(done.actions[at + 1 + (end - at - 1)] == segments.actions[end - at - 1]);
    assert forall|later: u128|
        bridge.recent.capacity > 0 && later - clock(end)
            <= bridge.recent.window implies #[trigger] done.bridge.recent.remembers(
        compact.header_hash,
        later,
    ) by {
        law_recorded_is_remembered(kept.recent, compact.header_hash, clock(end), later);
    }
}

/// A new block that does not fit: its compact block is made, then the raw block is cut up.
proof fn lemma_large_block_is_split(
    world: Surroundings,
    bridge: BridgeView,
    has_tx_cache: bool,
    compact: CompactSummary,
    clock: spec_fn(int) -> u128,
    n: nat,
)
    requires
        world.compact == Ok::<CompactSummary, ErrorView>(compact),
        !bridge.recent.remembers(compact.header_hash, clock(1)),
        bridge.data_shards * bridge.max_payload_size <= usize::MAX,
        compact.wire_bytes > bridge.data_shards * bridge.max_payload_size,
        n > 0,
    ensures
        ({
            let done = world.delivery(bridge, has_tx_cache, clock, n);
            let rest = world.goes_on(
                bridge.evicted(clock(1)).splits(compact, None),
                has_tx_cache,
                clock,
                2,
                (n - 1) as nat,
            );
            &&& done.actions == seq![
                ForwardActionView::BuildCompact {
                    with_tx_cache: bridge.compact_from_tx_cache && has_tx_cache,
                },
            ] + rest.actions
            &&& done.bridge == rest.bridge
        }),
{
    reveal(Surroundings::delivery);
    let s0 = bridge.forward_next(
        ForwardPhase::Waiting,
        has_tx_cache,
        ForwardEventView::Start,
        clock(0),
    );
    lemma_one_step(world, s0, has_tx_cache, clock, 1, n);
}

/// The chunker refuses the compact block as too large: the raw block is cut up.
proof fn lemma_refused_block_is_split(
    world: Surroundings,
    kept: BridgeView,
    has_tx_cache: bool,
    compact: CompactSummary,
    clock: spec_fn(int) -> u128,
    number: int,
    n: nat,
)
    requires
        world.chunked matches Err(text) && occurs_in(
            "all-prefilled compact block too large"@,
            text,
        ),
        compact.wire_bytes <= kept.data_shards * kept.max_payload_size,
        n > 0,
    ensures
        ({
            let done = world.goes_on(
                kept.goes_on(ForwardPhase::Chunk(compact), ForwardActionView::Chunk),
                has_tx_cache,
                clock,
                number,
                n,
            );
            let rest = world.goes_on(
                kept.splits(compact, None),
                has_tx_cache,
                clock,
                number + 1,
                (n - 1) as nat,
            );
            &&& done.actions == seq![ForwardActionView::Chunk] + rest.actions
            &&& done.bridge == rest.bridge
        }),
{
    lemma_one_step(
        world,
        kept.goes_on(ForwardPhase::Chunk(compact), ForwardActionView::Chunk),
        has_tx_cache,
        clock,
        number,
        n,
    );
}

/// The raw block is cut up, then its segments are sent.
proof fn lemma_block_is_cut(
    world: Surroundings,
    kept: BridgeView,
    has_tx_cache: bool,
    compact: CompactSummary,
    lens: Seq<usize>,
    clock: spec_fn(int) -> u128,
    number: int,
    n: nat,
)
    requires
        world.split == Ok::<Seq<usize>, Seq<char>>(lens),
        n > 0,
    ensures
        ({
            let done = world.goes_on(
                kept.splits(compact, None),
                has_tx_cache,
                clock,
                number,
                n,
            );
            let rest = world.goes_on(
                kept.forward_next(
                    ForwardPhase::Split(compact, None),
                    has_tx_cache,
                    ForwardEventView::Split(Ok(lens)),
                    clock(number),
                ),
                has_tx_cache,
                clock,
                number + 1,
                (n - 1) as nat,
            );
            &&& done.actions == seq![
                ForwardActionView::Split { max_segment_frame_bytes: kept.frame_budget() },
            ] + rest.actions
            &&& done.bridge == rest.bridge
        }),
{
    lemma_one_step(world, kept.splits(compact, None), has_tx_cache, clock, number, n);
}

/// The whole delivery of a block that is remembered, and of one whose compact block cannot
/// be made: nothing is sent. The first ends well, with nothing to report as sent; the
/// second with the error that came up.
pub proof fn law_delivery_that_sends_nothing(
    world: Surroundings,
    bridge: BridgeView,
    has_tx_cache: bool,
    clock: spec_fn(int) -> u128,
    n: nat,
)
    requires
        n > 0,
        match world.compact {
            Ok(compact) => bridge.recent.remembers(compact.header_hash, clock(1)),
            Err(_) => true,
        },
    ensures
        ({
            let done = world.delivery(bridge, has_tx_cache, clock, n);
            &&& done.actions.len() == 2
            &&& done.actions[0] is BuildCompact
            &&& match world.compact {
                Ok(compact) => {
                    &&& done.actions[1] == ForwardActionView::Finish(
                        Ok(
                            ForwardedBlock {
                                tx_count: compact.tx_count,
                                bytes: 0,
                                relay_objects: 0,
                                mode: ForwardMode::Deduplicated,
                            },
                        ),
                    )
                    &&& done.bridge.recent == bridge.recent.evicted(clock(1))
                    &&& done.bridge == BridgeView { recent: done.bridge.recent, ..bridge }
                },
                Err(error) => done.actions[1] == ForwardActionView::Finish(Err(error))
                    && done.bridge == bridge,
            }
        }),
{
    reveal(Surroundings::delivery);
    let s0 = bridge.forward_next(
        ForwardPhase::Waiting,
        has_tx_cache,
        ForwardEventView::Start,
        clock(0),
    );
    lemma_one_step(world, s0, has_tx_cache, clock, 1, n);
    reveal_with_fuel(Surroundings::goes_on, 1);
}

/// What the relay refuses ends the delivery with its words, and nothing is remembered on
/// that account: the compact block, a segment, or a block that cannot be cut up. The one
/// exception is the skeleton, behind which the compact block is sent all the same.
pub proof fn law_refusal_ends_the_delivery(
    bridge: BridgeView,
    phase: ForwardPhase,
    has_tx_cache: bool,
    event: ForwardEventView,
    now: u128,
    text: Seq<char>,
    later: u128,
)
    requires
        phase.expects(event),
    ensures
        ({
            let step = bridge.forward_next(phase, has_tx_cache, event, now);
            let refused = step.bridge.forward_next(
                step.phase,
                has_tx_cache,
                ForwardEventView::Sent(Err(text)),
                later,
            );
            let uncut = step.bridge.forward_next(
                step.phase,
                has_tx_cache,
                ForwardEventView::Split(Err(text)),
                later,
            );
            let failure = ForwardActionView::Finish(Err(ErrorView::Relay(text)));
            &&& step.action is SendCompact || step.action is SendSegment ==> refused.action
                == failure && refused.bridge == step.bridge
            &&& step.action is SendSkeleton ==> refused.action is SendCompact && refused.bridge
                == step.bridge
            &&& step.action is Split ==> uncut.action == failure && uncut.bridge == step.bridge
        }),
{
}

/// A chunker that refuses a compact block which fits, in other words than those for one
/// that is too large, ends the delivery with its words.
pub proof fn law_refusal_of_the_chunker(
    bridge: BridgeView,
    has_tx_cache: bool,
    compact: CompactSummary,
    text: Seq<char>,
    now: u128,
    later: u128,
)
    requires
        !bridge.recent.remembers(compact.header_hash, now),
        compact.wire_bytes <= bridge.data_shards * bridge.max_payload_size,
        !occurs_in("all-prefilled compact block too large"@, text),
    ensures
        ({
            let step = bridge.forward_next(
                ForwardPhase::BuildCompact,
                has_tx_cache,
                ForwardEventView::CompactBuilt(Ok(compact)),
                now,
            );
            let refused = step.bridge.forward_next(
                step.phase,
                has_tx_cache,
                ForwardEventView::Chunked(Err(text)),
                later,
            );
            &&& step.action is Chunk
            &&& refused.action == ForwardActionView::Finish(Err(ErrorView::Relay(text)))
            &&& refused.bridge == step.bridge
        }),
{
}

} // verus!
