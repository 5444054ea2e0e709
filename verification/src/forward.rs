//! Forwarding one block, step by step: what to do next, given what came of the last
//! thing that was done.

use vstd::prelude::*;

use crate::bytes::Hash32;
use crate::error::{ErrorView, IngressError};
use crate::recent::{
    law_nothing_else_becomes_remembered, law_recorded_is_remembered_among_others,
};
use crate::relay_bridge::{
    explained_error, is_marked_too_large, law_too_large_is_marked, map_transport_error,
    too_large_mark, total_len, BridgeView, CompactSummary, ForwardMode, ForwardedBlock,
    RawBlockSegmentPlan, RelayBridge, SkeletonSummary, SKELETON_MAX_WIRE_BYTES,
};
use crate::text::occurs_in;

verus! {

/// How far the sending of raw segments is.
#[derive(Debug, Clone, Copy, PartialEq, Eq, Structural)]
pub struct SegmentRun {
    /// How many segments the block was cut into.
    pub count: usize,
    /// How many bytes all of them have, with every round counted.
    pub wire_bytes: usize,
    pub round: usize,
    /// The segment that is under way in this round.
    pub index: usize,
}

/// What is under way for a block.
#[derive(Debug, Clone, Copy, PartialEq, Eq)]
pub enum ForwardPhase {
    /// Nothing yet.
    Waiting,
    /// The compact block is being made.
    BuildCompact,
    /// The chunker is tried on the compact block.
    Chunk(CompactSummary),
    /// The skeleton is being made.
    BuildSkeleton(CompactSummary),
    /// The skeleton, of so many bytes, is being sent.
    SendSkeleton(CompactSummary, usize),
    /// The compact block is being sent, behind a skeleton of so many bytes; zero where
    /// none was sent.
    SendCompact(CompactSummary, usize),
    /// The raw block is being cut up, behind so many bytes of compact block and
    /// skeleton; none where the compact block was not sent.
    Split(CompactSummary, Option<usize>),
    SendSegment(CompactSummary, Option<usize>, SegmentRun),
    /// The pause after a round of segments.
    Pause(CompactSummary, Option<usize>, SegmentRun),
    Finished,
}

/// What came of the last thing that was done. Where it failed, the message.
#[derive(Debug)]
pub enum ForwardEvent {
    /// A block is there to be forwarded.
    Start,
    CompactBuilt(Result<CompactSummary, IngressError>),
    Chunked(Result<(), String>),
    /// The skeleton, or none where it could not be made.
    SkeletonBuilt(Option<SkeletonSummary>),
    Sent(Result<(), String>),
    /// The lengths of the segments.
    Split(Result<Vec<usize>, String>),
    PauseOver,
}

/// The mathematical value of a [`ForwardEvent`].
pub enum ForwardEventView {
    Start,
    CompactBuilt(Result<CompactSummary, ErrorView>),
    Chunked(Result<(), Seq<char>>),
    SkeletonBuilt(Option<SkeletonSummary>),
    Sent(Result<(), Seq<char>>),
    Split(Result<Seq<usize>, Seq<char>>),
    PauseOver,
}

/// What to do next.
#[derive(Debug)]
pub enum ForwardAction {
    /// Make the compact block, with the transaction cache or without.
    BuildCompact { with_tx_cache: bool },
    /// Try the chunker on the compact block.
    Chunk,
    BuildSkeleton,
    SendSkeleton,
    SendCompact,
    /// Cut the raw block into frames of at most so many bytes.
    Split { max_segment_frame_bytes: usize },
    /// Send the segment of this number.
    SendSegment(usize),
    /// Wait for so many nanoseconds.
    Pause(u128),
    Finish(Result<ForwardedBlock, IngressError>),
}

/// The mathematical value of a [`ForwardAction`].
pub enum ForwardActionView {
    BuildCompact { with_tx_cache: bool },
    Chunk,
    BuildSkeleton,
    SendSkeleton,
    SendCompact,
    Split { max_segment_frame_bytes: usize },
    SendSegment(usize),
    Pause(u128),
    Finish(Result<ForwardedBlock, ErrorView>),
}

impl View for ForwardEvent {
    type V = ForwardEventView;

    open spec fn view(&self) -> ForwardEventView {
        match self {
            ForwardEvent::Start => ForwardEventView::Start,
            ForwardEvent::CompactBuilt(Ok(compact)) => ForwardEventView::CompactBuilt(Ok(*compact)),
            ForwardEvent::CompactBuilt(Err(error)) => ForwardEventView::CompactBuilt(Err(error@)),
            ForwardEvent::Chunked(Ok(())) => ForwardEventView::Chunked(Ok(())),
            ForwardEvent::Chunked(Err(text)) => ForwardEventView::Chunked(Err(text@)),
            ForwardEvent::SkeletonBuilt(skeleton) => ForwardEventView::SkeletonBuilt(*skeleton),
            ForwardEvent::Sent(Ok(())) => ForwardEventView::Sent(Ok(())),
            ForwardEvent::Sent(Err(text)) => ForwardEventView::Sent(Err(text@)),
            ForwardEvent::Split(Ok(lens)) => ForwardEventView::Split(Ok(lens@)),
            ForwardEvent::Split(Err(text)) => ForwardEventView::Split(Err(text@)),
            ForwardEvent::PauseOver => ForwardEventView::PauseOver,
        }
    }
}

impl View for ForwardAction {
    type V = ForwardActionView;

    open spec fn view(&self) -> ForwardActionView {
        match self {
            ForwardAction::BuildCompact { with_tx_cache } => ForwardActionView::BuildCompact {
                with_tx_cache: *with_tx_cache,
            },
            ForwardAction::Chunk => ForwardActionView::Chunk,
            ForwardAction::BuildSkeleton => ForwardActionView::BuildSkeleton,
            ForwardAction::SendSkeleton => ForwardActionView::SendSkeleton,
            ForwardAction::SendCompact => ForwardActionView::SendCompact,
            ForwardAction::Split { max_segment_frame_bytes } => ForwardActionView::Split {
                max_segment_frame_bytes: *max_segment_frame_bytes,
            },
            ForwardAction::SendSegment(index) => ForwardActionView::SendSegment(*index),
            ForwardAction::Pause(delay) => ForwardActionView::Pause(*delay),
            ForwardAction::Finish(Ok(forwarded)) => ForwardActionView::Finish(Ok(*forwarded)),
            ForwardAction::Finish(Err(error)) => ForwardActionView::Finish(Err(error@)),
        }
    }
}

/// One step: the bridge afterwards, what is then under way, and what to do.
pub struct ForwardStep {
    pub bridge: BridgeView,
    pub phase: ForwardPhase,
    pub action: ForwardActionView,
}

impl ForwardPhase {
    /// The compact block that this phase has to do with.
    pub open spec fn compact(self) -> Option<CompactSummary> {
        match self {
            ForwardPhase::Chunk(compact) => Some(compact),
            ForwardPhase::BuildSkeleton(compact) => Some(compact),
            ForwardPhase::SendSkeleton(compact, _) => Some(compact),
            ForwardPhase::SendCompact(compact, _) => Some(compact),
            ForwardPhase::Split(compact, _) => Some(compact),
            ForwardPhase::SendSegment(compact, _, _) => Some(compact),
            ForwardPhase::Pause(compact, _, _) => Some(compact),
            _ => None,
        }
    }

    /// The event is one that can come of what is under way.
    pub open spec fn expects(self, event: ForwardEventView) -> bool {
        match self {
            ForwardPhase::Waiting => event is Start,
            ForwardPhase::BuildCompact => event is CompactBuilt,
            ForwardPhase::Chunk(_) => event is Chunked,
            ForwardPhase::BuildSkeleton(_) => event is SkeletonBuilt,
            ForwardPhase::SendSkeleton(_, _) => event is Sent,
            ForwardPhase::SendCompact(_, _) => event is Sent,
            ForwardPhase::Split(_, _) => event is Split,
            ForwardPhase::SendSegment(_, _, _) => event is Sent,
            ForwardPhase::Pause(_, _, _) => event is PauseOver,
            ForwardPhase::Finished => false,
        }
    }

    /// What holds of a phase: while segments are sent, the round and the segment are
    /// among those that there are, and all that is counted fits a `usize`.
    pub open spec fn well_formed(self, bridge: BridgeView) -> bool {
        match self {
            ForwardPhase::SendSkeleton(compact, skeleton) => compact.wire_bytes + skeleton
                <= usize::MAX,
            ForwardPhase::SendCompact(compact, skeleton) => compact.wire_bytes + skeleton
                <= usize::MAX,
            ForwardPhase::SendSegment(_, ahead, run) => run.fits(bridge, ahead) && run.round
                < bridge.raw_segment_send_rounds && run.index < run.count,
            ForwardPhase::Pause(_, ahead, run) => run.fits(bridge, ahead) && run.round + 1
                < bridge.raw_segment_send_rounds && bridge.raw_segment_round_delay > 0,
            _ => true,
        }
    }

    /// What came of the last thing can be counted: the skeleton that is to be sent
    /// together with the compact block, and the segments over all rounds together with
    /// what went ahead of them.
    pub open spec fn can_count(self, bridge: BridgeView, event: ForwardEventView) -> bool {
        match (self, event) {
            (
                ForwardPhase::BuildSkeleton(compact),
                ForwardEventView::SkeletonBuilt(Some(skeleton)),
            ) => skeleton.is_worth_sending() ==> compact.wire_bytes + skeleton.wire_bytes
                <= usize::MAX,
            (ForwardPhase::Split(_, ahead), ForwardEventView::Split(Ok(lens))) => segments_fit(
                bridge,
                ahead,
                lens,
            ),
            _ => true,
        }
    }
}

/// The bytes that went ahead of the segments.
pub open spec fn bytes_ahead(ahead: Option<usize>) -> int {
    match ahead {
        Some(bytes) => bytes as int,
        None => 0,
    }
}

/// The objects that went ahead of the segments: the compact block, where it was sent.
pub open spec fn objects_ahead(ahead: Option<usize>) -> int {
    match ahead {
        Some(_) => 1,
        None => 0,
    }
}

/// The mode of a block whose raw segments were sent.
pub open spec fn segment_mode(ahead: Option<usize>) -> ForwardMode {
    match ahead {
        Some(_) => ForwardMode::CompactBlockWithRawFallback,
        None => ForwardMode::RawBlockSegments,
    }
}

impl SegmentRun {
    /// What is reported in the end fits a `usize`.
    pub open spec fn fits(self, bridge: BridgeView, ahead: Option<usize>) -> bool {
        &&& self.wire_bytes + bytes_ahead(ahead) <= usize::MAX
        &&& self.count * bridge.raw_segment_send_rounds + objects_ahead(ahead) <= usize::MAX
    }

    /// How many segments were sent before the one that is under way.
    pub open spec fn sent(self) -> int {
        self.round * self.count + self.index
    }
}

/// The lengths of the segments can be added up and counted over all rounds, together
/// with what went ahead of them.
pub open spec fn segments_fit(
    bridge: BridgeView,
    ahead: Option<usize>,
    lens: Seq<usize>,
) -> bool {
    &&& lens.len() <= usize::MAX
    &&& total_len(lens) <= usize::MAX
    &&& total_len(lens) * bridge.raw_segment_send_rounds + bytes_ahead(ahead) <= usize::MAX
    &&& lens.len() * bridge.raw_segment_send_rounds + objects_ahead(ahead) <= usize::MAX
}

impl BridgeView {
    pub open spec fn evicted(self, now: u128) -> BridgeView {
        BridgeView { recent: self.recent.evicted(now), ..self }
    }

    pub open spec fn recorded(self, hash: Hash32, now: u128) -> BridgeView {
        BridgeView { recent: self.recent.recorded(hash, now), ..self }
    }

    /// The step that goes on without changing the bridge.
    pub open spec fn goes_on(self, phase: ForwardPhase, action: ForwardActionView) -> ForwardStep {
        ForwardStep { bridge: self, phase, action }
    }

    /// The step that ends with an error of the relay.
    pub open spec fn fails(self, error: ErrorView) -> ForwardStep {
        ForwardStep {
            bridge: self,
            phase: ForwardPhase::Finished,
            action: ForwardActionView::Finish(Err(error)),
        }
    }

    /// The step that ends with success, and remembers the block.
    pub open spec fn succeeds(
        self,
        compact: CompactSummary,
        bytes: usize,
        relay_objects: usize,
        mode: ForwardMode,
        now: u128,
    ) -> ForwardStep {
        ForwardStep {
            bridge: self.recorded(compact.header_hash, now),
            phase: ForwardPhase::Finished,
            action: ForwardActionView::Finish(
                Ok(ForwardedBlock { tx_count: compact.tx_count, bytes, relay_objects, mode }),
            ),
        }
    }

    /// The step that cuts up the raw block.
    pub open spec fn splits(self, compact: CompactSummary, ahead: Option<usize>) -> ForwardStep {
        self.goes_on(
            ForwardPhase::Split(compact, ahead),
            ForwardActionView::Split { max_segment_frame_bytes: self.frame_budget() },
        )
    }

    /// The step that sends the compact block, behind a skeleton of so many bytes.
    pub open spec fn sends_compact(self, compact: CompactSummary, skeleton: usize) -> ForwardStep {
        self.goes_on(ForwardPhase::SendCompact(compact, skeleton), ForwardActionView::SendCompact)
    }

    /// The step once the compact block is there: nothing more for a block that is
    /// remembered, raw segments for one that is too large, else the chunker is tried.
    pub open spec fn after_compact(self, compact: CompactSummary, now: u128) -> ForwardStep {
        let bridge = self.evicted(now);
        if self.recent.remembers(compact.header_hash, now) {
            bridge.goes_on(
                ForwardPhase::Finished,
                ForwardActionView::Finish(
                    Ok(
                        ForwardedBlock {
                            tx_count: compact.tx_count,
                            bytes: 0,
                            relay_objects: 0,
                            mode: ForwardMode::Deduplicated,
                        },
                    ),
                ),
            )
        } else if compact.wire_bytes > self.max_data_bytes() {
            bridge.splits(compact, None)
        } else {
            bridge.goes_on(ForwardPhase::Chunk(compact), ForwardActionView::Chunk)
        }
    }

    /// Whether a skeleton goes out ahead of the compact block.
    pub open spec fn wants_skeleton(self, has_tx_cache: bool) -> bool {
        self.skeleton_first && self.compact_from_tx_cache && has_tx_cache
    }

    /// Whether the raw block follows the compact one.
    pub open spec fn wants_fallback(self, compact: CompactSummary) -> bool {
        self.raw_fallback_with_tx_cache && self.compact_from_tx_cache && compact.short_ids > 0
    }

    /// The step at a point of the run of segments: the segment that is next, the pause
    /// between two rounds, or the end.
    pub open spec fn at_segment(
        self,
        compact: CompactSummary,
        ahead: Option<usize>,
        run: SegmentRun,
        now: u128,
    ) -> ForwardStep {
        let next_round = SegmentRun { round: (run.round + 1) as usize, index: 0, ..run };
        if run.round < self.raw_segment_send_rounds && run.index < run.count {
            self.goes_on(
                ForwardPhase::SendSegment(compact, ahead, run),
                ForwardActionView::SendSegment(run.index),
            )
        } else if run.round + 1 < self.raw_segment_send_rounds && self.raw_segment_round_delay > 0 {
            self.goes_on(
                ForwardPhase::Pause(compact, ahead, run),
                ForwardActionView::Pause(self.raw_segment_round_delay),
            )
        } else if run.round + 1 < self.raw_segment_send_rounds && run.count > 0 {
            self.goes_on(
                ForwardPhase::SendSegment(compact, ahead, next_round),
                ForwardActionView::SendSegment(0),
            )
        } else {
            self.segments_done(compact, ahead, run, now)
        }
    }

    /// The step once every segment was sent in every round.
    pub open spec fn segments_done(
        self,
        compact: CompactSummary,
        ahead: Option<usize>,
        run: SegmentRun,
        now: u128,
    ) -> ForwardStep {
        self.succeeds(
            compact,
            (bytes_ahead(ahead) + run.wire_bytes) as usize,
            (run.count * self.raw_segment_send_rounds + objects_ahead(ahead)) as usize,
            segment_mode(ahead),
            now,
        )
    }

    /// What to do next for a block, given what is under way and what came of it.
    pub open spec fn forward_next(
        self,
        phase: ForwardPhase,
        has_tx_cache: bool,
        event: ForwardEventView,
        now: u128,
    ) -> ForwardStep {
        match (phase, event) {
            (ForwardPhase::Waiting, ForwardEventView::Start) => self.goes_on(
                ForwardPhase::BuildCompact,
                ForwardActionView::BuildCompact {
                    with_tx_cache: self.compact_from_tx_cache && has_tx_cache,
                },
            ),
            (ForwardPhase::BuildCompact, ForwardEventView::CompactBuilt(Ok(compact))) =>
                self.after_compact(compact, now),
            (ForwardPhase::BuildCompact, ForwardEventView::CompactBuilt(Err(error))) => self.fails(
                error,
            ),
            (ForwardPhase::Chunk(compact), ForwardEventView::Chunked(chunked)) =>
                match self.preflight(compact.wire_bytes, chunked) {
                    Ok(()) => if self.wants_skeleton(has_tx_cache) {
                        self.goes_on(
                            ForwardPhase::BuildSkeleton(compact),
                            ForwardActionView::BuildSkeleton,
                        )
                    } else {
                        self.sends_compact(compact, 0)
                    },
                    Err(error) => if occurs_in(too_large_mark(), error.text()) {
                        self.splits(compact, None)
                    } else {
                        self.fails(error)
                    },
                },
            (ForwardPhase::BuildSkeleton(compact), ForwardEventView::SkeletonBuilt(skeleton)) =>
                match skeleton {
                    Some(skeleton) if skeleton.is_worth_sending() => self.goes_on(
                        ForwardPhase::SendSkeleton(compact, skeleton.wire_bytes),
                        ForwardActionView::SendSkeleton,
                    ),
                    _ => self.sends_compact(compact, 0),
                },
            (ForwardPhase::SendSkeleton(compact, skeleton), ForwardEventView::Sent(sent)) =>
                self.sends_compact(
                    compact,
                    if sent is Ok {
                        skeleton
                    } else {
                        0
                    },
                ),
            (_, ForwardEventView::Sent(Err(text))) => self.fails(ErrorView::Relay(text)),
            (ForwardPhase::SendCompact(compact, skeleton), ForwardEventView::Sent(Ok(()))) => {
                let bytes = (compact.wire_bytes + skeleton) as usize;
                if self.wants_fallback(compact) {
                    self.splits(compact, Some(bytes))
                } else {
                    self.succeeds(compact, bytes, 1, ForwardMode::CompactBlock, now)
                }
            },
            (ForwardPhase::Split(compact, ahead), ForwardEventView::Split(Ok(lens))) =>
                self.at_segment(
                    compact,
                    ahead,
                    SegmentRun {
                        count: lens.len() as usize,
                        wire_bytes: (total_len(lens) * self.raw_segment_send_rounds) as usize,
                        round: 0,
                        index: 0,
                    },
                    now,
                ),
            (ForwardPhase::Split(_, _), ForwardEventView::Split(Err(text))) => self.fails(
                ErrorView::Relay(text),
            ),
            (
                ForwardPhase::SendSegment(compact, ahead, run),
                ForwardEventView::Sent(Ok(())),
            ) => self.at_segment(
                compact,
                ahead,
                SegmentRun { index: (run.index + 1) as usize, ..run },
                now,
            ),
            (ForwardPhase::Pause(compact, ahead, run), ForwardEventView::PauseOver) =>
                self.at_segment(
                    compact,
                    ahead,
                    SegmentRun { round: (run.round + 1) as usize, index: 0, ..run },
                    now,
                ),
            _ => arbitrary(),
        }
    }

    /// The last step of a delivery, given what came of each thing in turn and when.
    pub open spec fn delivered(
        self,
        phase: ForwardPhase,
        has_tx_cache: bool,
        events: Seq<(ForwardEventView, u128)>,
    ) -> ForwardStep
        decreases events.len(),
    {
        let step = self.forward_next(phase, has_tx_cache, events[0].0, events[0].1);
        if events.len() <= 1 {
            step
        } else {
            step.bridge.delivered(step.phase, has_tx_cache, events.skip(1))
        }
    }

    /// The events are such that each can come of what is then under way.
    pub open spec fn can_come(
        self,
        phase: ForwardPhase,
        has_tx_cache: bool,
        events: Seq<(ForwardEventView, u128)>,
    ) -> bool
        decreases events.len(),
    {
        let step = self.forward_next(phase, has_tx_cache, events[0].0, events[0].1);
        &&& events.len() > 0
        &&& phase.expects(events[0].0)
        &&& events.len() > 1 ==> step.bridge.can_come(step.phase, has_tx_cache, events.skip(1))
    }
}

impl RelayBridge {
    /// The step at a point of the run of segments.
    fn segment_step(
        &mut self,
        compact: CompactSummary,
        ahead: Option<usize>,
        run: SegmentRun,
        now: u128,
    ) -> (step: (ForwardPhase, ForwardAction))
        requires
            run.fits(old(self)@, ahead),
            run.index <= run.count,
        ensures
            ({
                let next = old(self)@.at_segment(compact, ahead, run, now);
                &&& final(self)@ == next.bridge
                &&& step.0 == next.phase
                &&& step.1@ == next.action
                &&& step.0.well_formed(final(self)@)
            }),
    {
        let rounds: usize = self.raw_segment_send_rounds;
        if run.round < rounds && run.index < run.count {
            return (
                ForwardPhase::SendSegment(compact, ahead, run),
                ForwardAction::SendSegment(run.index),
            );
        }
        if run.round < rounds && rounds - run.round > 1 {
            if self.raw_segment_round_delay > 0 {
                return (
                    ForwardPhase::Pause(compact, ahead, run),
                    ForwardAction::Pause(self.raw_segment_round_delay),
                );
            }
            if run.count > 0 {
                let next_round = SegmentRun { round: run.round + 1, index: 0, ..run };
                return (
                    ForwardPhase::SendSegment(compact, ahead, next_round),
                    ForwardAction::SendSegment(0),
                );
            }
        }
        self.record_forwarded(compact.header_hash, now);
        let objects: usize = run.count * rounds;
        let forwarded = match ahead {
            Some(bytes) => ForwardedBlock {
                tx_count: compact.tx_count,
                bytes: bytes + run.wire_bytes,
                relay_objects: objects + 1,
                mode: ForwardMode::CompactBlockWithRawFallback,
            },
            None => ForwardedBlock {
                tx_count: compact.tx_count,
                bytes: run.wire_bytes,
                relay_objects: objects,
                mode: ForwardMode::RawBlockSegments,
            },
        };
        (ForwardPhase::Finished, ForwardAction::Finish(Ok(forwarded)))
    }

    fn split_step(&self, compact: CompactSummary, ahead: Option<usize>) -> (step: (
        ForwardPhase,
        ForwardAction,
    ))
        ensures
            step.0 == self@.splits(compact, ahead).phase,
            step.1@ == self@.splits(compact, ahead).action,
    {
        (
            ForwardPhase::Split(compact, ahead),
            ForwardAction::Split { max_segment_frame_bytes: self.raw_segment_frame_budget() },
        )
    }

    /// What to do next for a block. `phase` is what was under way, `event` what came of
    /// it; the first call has `Waiting` and `Start`. The block is remembered as
    /// forwarded once all of it was sent, so one that failed half-way is tried again
    /// when it comes again.
    pub fn forward_block(
        &mut self,
        phase: ForwardPhase,
        has_tx_cache: bool,
        event: ForwardEvent,
        now: u128,
    ) -> (step: (ForwardPhase, ForwardAction))
        requires
            phase.expects(event@),
            phase.well_formed(old(self)@),
            phase.can_count(old(self)@, event@),
        ensures
            ({
                let next = old(self)@.forward_next(phase, has_tx_cache, event@, now);
                &&& final(self)@ == next.bridge
                &&& step.0 == next.phase
                &&& step.1@ == next.action
                &&& step.0.well_formed(final(self)@)
            }),
    {
        match (phase, event) {
            (ForwardPhase::Waiting, ForwardEvent::Start) => {
                let with_tx_cache = self.compact_from_tx_cache && has_tx_cache;
                (ForwardPhase::BuildCompact, ForwardAction::BuildCompact { with_tx_cache })
            },
            (ForwardPhase::BuildCompact, ForwardEvent::CompactBuilt(Ok(compact))) => {
                if self.recent_forwarded.contains(&compact.header_hash, now) {
                    let forwarded = ForwardedBlock {
                        tx_count: compact.tx_count,
                        bytes: 0,
                        relay_objects: 0,
                        mode: ForwardMode::Deduplicated,
                    };
                    return (ForwardPhase::Finished, ForwardAction::Finish(Ok(forwarded)));
                }
                if self.is_too_large(compact.wire_bytes) {
                    return self.split_step(compact, None);
                }
                (ForwardPhase::Chunk(compact), ForwardAction::Chunk)
            },
            (ForwardPhase::BuildCompact, ForwardEvent::CompactBuilt(Err(error))) => {
                (ForwardPhase::Finished, ForwardAction::Finish(Err(error)))
            },
            (ForwardPhase::Chunk(compact), ForwardEvent::Chunked(chunked)) => {
                match self.preflight_chunks(compact.wire_bytes, chunked) {
                    Ok(()) => {
                        if self.skeleton_first && self.compact_from_tx_cache && has_tx_cache {
                            (ForwardPhase::BuildSkeleton(compact), ForwardAction::BuildSkeleton)
                        } else {
                            (ForwardPhase::SendCompact(compact, 0), ForwardAction::SendCompact)
                        }
                    },
                    Err(error) => {
                        if is_marked_too_large(&error) {
                            return self.split_step(compact, None);
                        }
                        (ForwardPhase::Finished, ForwardAction::Finish(Err(error)))
                    },
                }
            },
            (ForwardPhase::BuildSkeleton(compact), ForwardEvent::SkeletonBuilt(skeleton)) => {
                if let Some(skeleton) = skeleton {
                    if skeleton.short_ids > 0 && skeleton.wire_bytes <= SKELETON_MAX_WIRE_BYTES {
                        return (
                            ForwardPhase::SendSkeleton(compact, skeleton.wire_bytes),
                            ForwardAction::SendSkeleton,
                        );
                    }
                }
                (ForwardPhase::SendCompact(compact, 0), ForwardAction::SendCompact)
            },
            (ForwardPhase::SendSkeleton(compact, skeleton), ForwardEvent::Sent(sent)) => {
                let sent_bytes: usize = match sent {
                    Ok(()) => skeleton,
                    Err(_) => 0,
                };
                (ForwardPhase::SendCompact(compact, sent_bytes), ForwardAction::SendCompact)
            },
            (_, ForwardEvent::Sent(Err(text))) => {
                (ForwardPhase::Finished, ForwardAction::Finish(Err(map_transport_error(text))))
            },
            (ForwardPhase::SendCompact(compact, skeleton), ForwardEvent::Sent(Ok(()))) => {
                let bytes: usize = compact.wire_bytes + skeleton;
                if self.raw_fallback_with_tx_cache && self.compact_from_tx_cache
                    && compact.short_ids > 0 {
                    return self.split_step(compact, Some(bytes));
                }
                self.record_forwarded(compact.header_hash, now);
                let forwarded = ForwardedBlock {
                    tx_count: compact.tx_count,
                    bytes,
                    relay_objects: 1,
                    mode: ForwardMode::CompactBlock,
                };
                (ForwardPhase::Finished, ForwardAction::Finish(Ok(forwarded)))
            },
            (ForwardPhase::Split(compact, ahead), ForwardEvent::Split(Ok(lens))) => {
                let wire_bytes = self.raw_segments_wire_bytes(&lens);
                let run = SegmentRun { count: lens.len(), wire_bytes, round: 0, index: 0 };
                self.segment_step(compact, ahead, run, now)
            },
            (ForwardPhase::Split(_, _), ForwardEvent::Split(Err(text))) => {
                (ForwardPhase::Finished, ForwardAction::Finish(Err(map_transport_error(text))))
            },
            (ForwardPhase::SendSegment(compact, ahead, run), ForwardEvent::Sent(Ok(()))) => {
                let run = SegmentRun { index: run.index + 1, ..run };
                self.segment_step(compact, ahead, run, now)
            },
            (ForwardPhase::Pause(compact, ahead, run), ForwardEvent::PauseOver) => {
                let run = SegmentRun { round: run.round + 1, index: 0, ..run };
                self.segment_step(compact, ahead, run, now)
            },
            _ => vstd::pervasive::unreached(),
        }
    }
}

/// A block that is remembered is not sent again: nothing goes into the relay for it.
pub proof fn law_remembered_block_is_not_sent(
    bridge: BridgeView,
    has_tx_cache: bool,
    compact: CompactSummary,
    now: u128,
)
    requires
        bridge.recent.remembers(compact.header_hash, now),
    ensures
        bridge.forward_next(
            ForwardPhase::BuildCompact,
            has_tx_cache,
            ForwardEventView::CompactBuilt(Ok(compact)),
            now,
        ).action == ForwardActionView::Finish(
            Ok(
                ForwardedBlock {
                    tx_count: compact.tx_count,
                    bytes: 0,
                    relay_objects: 0,
                    mode: ForwardMode::Deduplicated,
                },
            ),
        ),
{
}

/// No step changes the settings of the bridge. A block is remembered in the step that
/// reports that it was sent, and in no other; every other step at most forgets what
/// has expired.
pub proof fn law_only_success_is_remembered(
    bridge: BridgeView,
    phase: ForwardPhase,
    has_tx_cache: bool,
    event: ForwardEventView,
    now: u128,
)
    requires
        phase.expects(event),
    ensures
        ({
            let next = bridge.forward_next(phase, has_tx_cache, event, now);
            &&& next.bridge == BridgeView { recent: next.bridge.recent, ..bridge }
            &&& next.phase is Finished <==> next.action is Finish
            &&& match next.action {
                ForwardActionView::Finish(Ok(forwarded)) if forwarded.mode
                    != ForwardMode::Deduplicated => {
                    &&& phase.compact() is Some
                    &&& next.bridge.recent == bridge.recent.recorded(
                        (phase.compact()->0).header_hash,
                        now,
                    )
                },
                _ => next.bridge.recent == bridge.recent || next.bridge.recent
                    == bridge.recent.evicted(now),
            }
        }),
{
}

/// The same block, delivered again within the window after it was forwarded, is not
/// sent again, whatever other blocks were forwarded since, while these are fewer than the
/// ring has room for.
pub proof fn law_forwarded_once_within_window(
    bridge: BridgeView,
    phase: ForwardPhase,
    has_tx_cache: bool,
    event: ForwardEventView,
    now: u128,
    since: Seq<(Hash32, u128)>,
    again: CompactSummary,
    later: u128,
)
    requires
        phase.expects(event),
        since.len() < bridge.recent.capacity,
        forall|i: int| 0 <= i < since.len() ==> (#[trigger] since[i]).1 <= later,
        phase.compact() is Some,
        again.header_hash == (phase.compact()->0).header_hash,
        bridge.forward_next(phase, has_tx_cache, event, now).action is Finish,
        (bridge.forward_next(phase, has_tx_cache, event, now).action->Finish_0) is Ok,
        later - now <= bridge.recent.window,
    ensures
        (BridgeView {
            recent: bridge.forward_next(
                phase,
                has_tx_cache,
                event,
                now,
            ).bridge.recent.recorded_all(since),
            ..bridge
        }).after_compact(
            again,
            later,
        ).action == ForwardActionView::Finish(
            Ok(
                ForwardedBlock {
                    tx_count: again.tx_count,
                    bytes: 0,
                    relay_objects: 0,
                    mode: ForwardMode::Deduplicated,
                },
            ),
        ),
{
    law_recorded_is_remembered_among_others(
        bridge.recent,
        again.header_hash,
        now,
        since,
        later,
    );
}

/// A delivery that fails makes no block remembered.
pub proof fn law_failed_forward_is_not_remembered(
    bridge: BridgeView,
    phase: ForwardPhase,
    has_tx_cache: bool,
    events: Seq<(ForwardEventView, u128)>,
    hash: Hash32,
    now: u128,
    later: u128,
)
    requires
        bridge.can_come(phase, has_tx_cache, events),
        bridge.delivered(phase, has_tx_cache, events).action matches ForwardActionView::Finish(
            result,
        ) && result is Err,
        !bridge.recent.remembers(hash, now),
        now <= later,
    ensures
        !bridge.delivered(phase, has_tx_cache, events).bridge.recent.remembers(hash, later),
    decreases events.len(),
{
    let (event, at) = events[0];
    let step = bridge.forward_next(phase, has_tx_cache, event, at);
    law_nothing_else_becomes_remembered(bridge.recent, hash, hash, at, now, now);
    law_nothing_else_becomes_remembered(bridge.recent, hash, hash, at, now, later);
    if events.len() > 1 {
        assert(step.bridge.can_come(step.phase, has_tx_cache, events.skip(1)));
        law_failed_forward_is_not_remembered(
            step.bridge,
            step.phase,
            has_tx_cache,
            events.skip(1),
            hash,
            now,
            later,
        );
    }
}

/// A block whose delivery failed is tried again when it comes again, however soon and
/// from whichever peer: the second delivery does not end at the compact block.
pub proof fn law_failed_forward_is_tried_again(
    bridge: BridgeView,
    has_tx_cache: bool,
    events: Seq<(ForwardEventView, u128)>,
    compact: CompactSummary,
    again: CompactSummary,
    later: u128,
)
    requires
        bridge.can_come(ForwardPhase::Waiting, has_tx_cache, events),
        bridge.delivered(
            ForwardPhase::Waiting,
            has_tx_cache,
            events,
        ).action matches ForwardActionView::Finish(result) && result is Err,
        events.len() > 1,
        events[1].0 == ForwardEventView::CompactBuilt(Ok(compact)),
        again.header_hash == compact.header_hash,
        events[1].1 <= later,
    ensures
        ({
            let after = bridge.delivered(ForwardPhase::Waiting, has_tx_cache, events).bridge;
            let step = after.forward_next(
                ForwardPhase::BuildCompact,
                has_tx_cache,
                ForwardEventView::CompactBuilt(Ok(again)),
                later,
            );
            step.action is Split || step.action is Chunk
        }),
{
    let rest = events.skip(1);
    let built_at = events[1].1;
    assert(rest[0] == events[1]);
    let step = bridge.forward_next(
        ForwardPhase::BuildCompact,
        has_tx_cache,
        rest[0].0,
        built_at,
    );
    assert(bridge.can_come(ForwardPhase::BuildCompact, has_tx_cache, rest));
    if bridge.recent.remembers(compact.header_hash, built_at) {
        assert(rest.len() > 1 ==> step.bridge.can_come(step.phase, has_tx_cache, rest.skip(1)));
    }
    law_failed_forward_is_not_remembered(
        bridge,
        ForwardPhase::BuildCompact,
        has_tx_cache,
        rest,
        compact.header_hash,
        built_at,
        later,
    );
}

/// The skeleton never takes the place of the compact block: once the relay has been
/// found to take the compact block, it is sent, whatever came of the skeleton.
pub proof fn law_skeleton_never_replaces_compact(
    bridge: BridgeView,
    has_tx_cache: bool,
    compact: CompactSummary,
    skeleton: Option<SkeletonSummary>,
    bytes: usize,
    sent: Result<(), Seq<char>>,
    now: u128,
)
    requires
        compact.wire_bytes <= bridge.max_data_bytes(),
    ensures
        ({
            let chunked = bridge.forward_next(
                ForwardPhase::Chunk(compact),
                has_tx_cache,
                ForwardEventView::Chunked(Ok(())),
                now,
            );
            let built = bridge.forward_next(
                ForwardPhase::BuildSkeleton(compact),
                has_tx_cache,
                ForwardEventView::SkeletonBuilt(skeleton),
                now,
            );
            let tried = bridge.forward_next(
                ForwardPhase::SendSkeleton(compact, bytes),
                has_tx_cache,
                ForwardEventView::Sent(sent),
                now,
            );
            &&& chunked == bridge.sends_compact(compact, 0) || chunked.phase
                == ForwardPhase::BuildSkeleton(compact)
            &&& built == bridge.sends_compact(compact, 0) || (skeleton is Some && built.phase
                == ForwardPhase::SendSkeleton(compact, (skeleton->0).wire_bytes))
            &&& tried == bridge.sends_compact(
                compact,
                if sent is Ok {
                    bytes
                } else {
                    0
                },
            )
        }),
{
}

/// A skeleton goes out only where it is asked for, there is a transaction cache, it
/// names transactions by short id and it is small.
pub proof fn law_skeleton_is_guarded(
    bridge: BridgeView,
    has_tx_cache: bool,
    compact: CompactSummary,
    skeleton: Option<SkeletonSummary>,
    chunked: Result<(), Seq<char>>,
    now: u128,
)
    ensures
        bridge.forward_next(
            ForwardPhase::Chunk(compact),
            has_tx_cache,
            ForwardEventView::Chunked(chunked),
            now,
        ).action is BuildSkeleton ==> bridge.skeleton_first && bridge.compact_from_tx_cache
            && has_tx_cache,
        bridge.forward_next(
            ForwardPhase::BuildSkeleton(compact),
            has_tx_cache,
            ForwardEventView::SkeletonBuilt(skeleton),
            now,
        ).action is SendSkeleton <==> skeleton is Some && (skeleton->0).short_ids > 0 && (
        skeleton->0).wire_bytes <= SKELETON_MAX_WIRE_BYTES,
{
}

/// Before the compact block was sent, the raw segments are chosen exactly where the
/// preflight fails with the mark of a block that is too large. Any other failure of it
/// ends the forward with that very error, to which no plan adds a word.
pub proof fn law_preflight_decides_raw_segments(
    bridge: BridgeView,
    has_tx_cache: bool,
    compact: CompactSummary,
    chunked: Result<(), Seq<char>>,
    plan: Result<RawBlockSegmentPlan, ErrorView>,
    now: u128,
)
    requires
        !bridge.recent.remembers(compact.header_hash, now),
    ensures
        ({
            let built = bridge.forward_next(
                ForwardPhase::BuildCompact,
                has_tx_cache,
                ForwardEventView::CompactBuilt(Ok(compact)),
                now,
            );
            let tried = built.bridge.forward_next(
                ForwardPhase::Chunk(compact),
                has_tx_cache,
                ForwardEventView::Chunked(chunked),
                now,
            );
            let chosen = built.action is Split || (built.action is Chunk && tried.action is Split);
            match bridge.preflight(compact.wire_bytes, chunked) {
                Ok(()) => built.action is Chunk && !chosen && !(tried.action is Finish),
                Err(error) => {
                    &&& chosen <==> occurs_in(too_large_mark(), error.text())
                    &&& !chosen ==> built.action is Chunk && tried.action
                        == ForwardActionView::Finish(Err(explained_error(error, plan)))
                },
            }
        }),
{
    law_too_large_is_marked(bridge, compact.wire_bytes);
}

/// The raw block is cut up as planned: with frames of the planned size, and where it
/// cannot be cut up the forward ends with the error of the plan.
pub proof fn law_split_follows_plan(
    bridge: BridgeView,
    has_tx_cache: bool,
    compact: CompactSummary,
    ahead: Option<usize>,
    block_len: usize,
    segment_count: usize,
    cause: Seq<char>,
    now: u128,
)
    ensures
        bridge.planned(block_len, Ok(segment_count)) is Ok,
        bridge.splits(compact, ahead).action == (ForwardActionView::Split {
            max_segment_frame_bytes: (bridge.planned(
                block_len,
                Ok(segment_count),
            )->Ok_0).max_segment_frame_bytes,
        }),
        bridge.planned(block_len, Err(cause)) is Err,
        bridge.forward_next(
            ForwardPhase::Split(compact, ahead),
            has_tx_cache,
            ForwardEventView::Split(Err(cause)),
            now,
        ).action == ForwardActionView::Finish(
            Err(bridge.planned(block_len, Err(cause))->Err_0),
        ),
{
}

/// Segments are sent in order, round after round: each step of the run sends the
/// segment that follows the one before, and the run ends when all rounds are sent.
pub proof fn law_segments_are_sent_in_rounds(
    bridge: BridgeView,
    has_tx_cache: bool,
    compact: CompactSummary,
    ahead: Option<usize>,
    run: SegmentRun,
    now: u128,
)
    requires
        ForwardPhase::SendSegment(compact, ahead, run).well_formed(bridge),
    ensures
        ({
            let next = bridge.forward_next(
                ForwardPhase::SendSegment(compact, ahead, run),
                has_tx_cache,
                ForwardEventView::Sent(Ok(())),
                now,
            );
            let resumed = bridge.forward_next(
                ForwardPhase::Pause(compact, ahead, SegmentRun { index: run.count, ..run }),
                has_tx_cache,
                ForwardEventView::PauseOver,
                now,
            );
            match next.phase {
                ForwardPhase::SendSegment(_, _, after) => after.sent() == run.sent() + 1
                    && next.action == ForwardActionView::SendSegment(after.index) && after.index
                    == (if run.index + 1 == run.count {
                    0
                } else {
                    run.index + 1
                }),
                ForwardPhase::Pause(_, _, after) => {
                    &&& after == SegmentRun { index: run.count, ..run }
                    &&& resumed.action == ForwardActionView::SendSegment(0)
                    &&& resumed.phase matches ForwardPhase::SendSegment(_, _, first) && first.sent()
                        == run.sent() + 1
                },
                _ => {
                    &&& next.phase is Finished
                    &&& run.sent() + 1 == run.count * bridge.raw_segment_send_rounds
                },
            }
        }),
{
    let (r, c, i, n) = (
        run.round as int,
        run.count as int,
        run.index as int,
        bridge.raw_segment_send_rounds as int,
    );
    assert((r + 1) * c == r * c + c) by (nonlinear_arith);
    if r + 1 == n {
        assert(c * n == (r + 1) * c) by (nonlinear_arith)
            requires
                r + 1 == n,
        ;
    }
}

/// What is reported of a block that was sent, by mode: the bytes that the relay took,
/// those of the skeleton among them, and the objects, the skeleton not counted.
pub proof fn law_reported_bytes(
    bridge: BridgeView,
    phase: ForwardPhase,
    has_tx_cache: bool,
    event: ForwardEventView,
    now: u128,
)
    requires
        phase.expects(event),
        phase.well_formed(bridge),
        phase.can_count(bridge, event),
        bridge.forward_next(phase, has_tx_cache, event, now).action is Finish,
        (bridge.forward_next(phase, has_tx_cache, event, now).action->Finish_0) is Ok,
    ensures
        ({
            let forwarded = (bridge.forward_next(
                phase,
                has_tx_cache,
                event,
                now,
            ).action->Finish_0)->Ok_0;
            let rounds = bridge.raw_segment_send_rounds;
            match (phase, event) {
                (ForwardPhase::BuildCompact, _) => {
                    &&& forwarded.mode == ForwardMode::Deduplicated
                    &&& forwarded.bytes == 0
                    &&& forwarded.relay_objects == 0
                },
                (ForwardPhase::SendCompact(compact, skeleton), _) => {
                    &&& forwarded.mode == ForwardMode::CompactBlock
                    &&& forwarded.bytes == skeleton + compact.wire_bytes
                    &&& forwarded.relay_objects == 1
                },
                (ForwardPhase::Split(_, ahead), ForwardEventView::Split(Ok(lens))) => {
                    &&& forwarded.mode == segment_mode(ahead)
                    &&& forwarded.bytes == bytes_ahead(ahead) + total_len(lens) * rounds
                    &&& forwarded.relay_objects == objects_ahead(ahead) + lens.len() * rounds
                },
                (ForwardPhase::SendSegment(_, ahead, run), _) => {
                    &&& forwarded.mode == segment_mode(ahead)
                    &&& forwarded.bytes == bytes_ahead(ahead) + run.wire_bytes
                    &&& forwarded.relay_objects == objects_ahead(ahead) + run.count * rounds
                },
                (ForwardPhase::Pause(_, ahead, run), _) => {
                    &&& forwarded.mode == segment_mode(ahead)
                    &&& forwarded.bytes == bytes_ahead(ahead) + run.wire_bytes
                    &&& forwarded.relay_objects == objects_ahead(ahead) + run.count * rounds
                },
                _ => false,
            }
        }),
{
    match (phase, event) {
        (ForwardPhase::Split(_, _), ForwardEventView::Split(Ok(lens))) => {
            let (t, n) = (total_len(lens) as int, bridge.raw_segment_send_rounds as int);
            assert(0 <= t * n) by (nonlinear_arith)
                requires
                    t >= 0,
                    n >= 0,
            ;
            assert(0 <= lens.len() * n) by (nonlinear_arith)
                requires
                    n >= 0,
            ;
        },
        _ => {},
    }
}

/// The bytes that a skeleton, the compact block and the raw block come to: what each
/// step hands on is what the relay took.
pub proof fn law_bytes_are_carried(
    bridge: BridgeView,
    has_tx_cache: bool,
    compact: CompactSummary,
    skeleton: SkeletonSummary,
    now: u128,
)
    requires
        skeleton.is_worth_sending(),
        compact.wire_bytes + skeleton.wire_bytes <= usize::MAX,
    ensures
        ({
            let built = bridge.forward_next(
                ForwardPhase::BuildSkeleton(compact),
                has_tx_cache,
                ForwardEventView::SkeletonBuilt(Some(skeleton)),
                now,
            );
            let sent = bridge.forward_next(
                built.phase,
                has_tx_cache,
                ForwardEventView::Sent(Ok(())),
                now,
            );
            let done = bridge.forward_next(
                sent.phase,
                has_tx_cache,
                ForwardEventView::Sent(Ok(())),
                now,
            );
            let bytes = (skeleton.wire_bytes + compact.wire_bytes) as usize;
            if bridge.wants_fallback(compact) {
                done.phase == ForwardPhase::Split(compact, Some(bytes))
            } else {
                done.action == ForwardActionView::Finish(
                    Ok(
                        ForwardedBlock {
                            tx_count: compact.tx_count,
                            bytes,
                            relay_objects: 1,
                            mode: ForwardMode::CompactBlock,
                        },
                    ),
                )
            }
        }),
{
}

} // verus!
