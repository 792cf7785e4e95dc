use vstd::prelude::*;

use crate::headless::geometry::HeadlessSurface;
use crate::headless::platform::HeadlessPointerTargetV1;
use crate::scheduler::{FakeClockDomainV1, FakeClockV1};

verus! {

/// Closed failure sources for the fixed headless experiment.
#[derive(Clone, Copy, Debug, PartialEq, Eq, Structural)]
pub enum HeadlessFailureCauseV1 {
    /// Runtime construction, mutation, or publication failed.
    Runtime,
    /// Candidate projection observation or comparison failed.
    Projection,
    /// Independent clean-rebuild oracle work failed.
    Oracle,
    /// Scheduler protocol work failed.
    Scheduler,
    /// Fake renderer work failed.
    Renderer,
    /// Bounded trace recording failed.
    Trace,
}

/// Closed stages represented in the headless trace.
#[derive(Clone, Copy, Debug, PartialEq, Eq, Structural)]
pub enum HeadlessTraceStageV1 {
    /// Fixed fixture construction.
    Build,
    /// Synthetic input observation or admission.
    Input,
    /// A committed-only callback scope.
    Callback,
    /// One direct logical transaction.
    Transaction,
    /// Independent projection comparison.
    Projection,
    /// One scheduler turn.
    Scheduler,
    /// Fake renderer feedback.
    Renderer,
}

/// Closed causal input vocabulary for one trace event.
#[derive(Clone, Copy, Debug, PartialEq, Eq, Structural)]
pub enum HeadlessInputKindV1 {
    /// No external or logical input is associated with the event.
    Absent,
    /// Headless pointer query or callback input.
    Pointer,
    /// Direct property mutation.
    Direct,
    /// Keyed insertion.
    Insert,
    /// Keyed move.
    Move,
    /// Keyed update.
    Update,
    /// Keyed removal.
    Remove,
    /// Headless surface resize.
    Resize,
    /// Frame-ready delivery.
    FrameReady,
    /// Renderer completion.
    Completion,
    /// Renderer loss.
    Loss,
    /// Shutdown request.
    Shutdown,
}

/// Closed result of one headless trace event.
#[derive(Clone, Copy, Debug, PartialEq, Eq, Structural)]
pub enum HeadlessOutcomeV1 {
    /// State was observed without mutation.
    Observed,
    /// Callback work was deferred.
    Deferred,
    /// One effective generation was published.
    Published,
    /// The operation was a true no-op.
    NoChange,
    /// Candidate and clean projection matched.
    Matched,
    /// One scheduler action or idle result was produced.
    Action,
    /// Input or renderer work was accepted.
    Accepted,
    /// Renderer work was recoverably rejected.
    Rejected,
    /// One completion was admitted or processed.
    Completed,
    /// Renderer loss was admitted or processed.
    Lost,
    /// The scheduler reached its stopped state.
    Stopped,
    /// The operation failed with one privacy-safe source.
    Failed(HeadlessFailureCauseV1),
}

/// Inclusive storage bounds for one headless trace.
#[derive(Clone, Copy, Debug, PartialEq, Eq, Structural)]
pub struct HeadlessTraceCapacityV1 {
    max_events: usize,
    max_bytes: usize,
}

impl HeadlessTraceCapacityV1 {
    /// The inclusive accepted-event ceiling.
    pub closed spec fn spec_max_events(self) -> usize {
        self.max_events
    }

    /// The inclusive accounted-byte ceiling.
    pub closed spec fn spec_max_bytes(self) -> usize {
        self.max_bytes
    }

    /// Creates the bounds from their two ceilings.
    pub fn new(max_events: usize, max_bytes: usize) -> (capacity: Self)
        ensures
            capacity.spec_max_events() == max_events,
            capacity.spec_max_bytes() == max_bytes,
    {
        HeadlessTraceCapacityV1 { max_events, max_bytes }
    }

    /// Returns the inclusive accepted-event ceiling.
    pub fn max_events(self) -> (max_events: usize)
        ensures
            max_events == self.spec_max_events(),
    {
        self.max_events
    }

    /// Returns the inclusive accounted-byte ceiling.
    pub fn max_bytes(self) -> (max_bytes: usize)
        ensures
            max_bytes == self.spec_max_bytes(),
    {
        self.max_bytes
    }
}

/// Copyable counts for the five deterministic projection families.
#[derive(Clone, Copy, Debug, PartialEq, Eq, Structural)]
pub struct HeadlessTraceProjectionCountsV1 {
    computed_styles: usize,
    geometries: usize,
    semantics: usize,
    hit_regions: usize,
    scene_rectangles: usize,
}

/// Mathematical form of projection counts, family by family.
pub struct ProjectionCountsView {
    pub computed_styles: usize,
    pub geometries: usize,
    pub semantics: usize,
    pub hit_regions: usize,
    pub scene_rectangles: usize,
}

impl View for HeadlessTraceProjectionCountsV1 {
    type V = ProjectionCountsView;

    closed spec fn view(&self) -> ProjectionCountsView {
        ProjectionCountsView {
            computed_styles: self.computed_styles,
            geometries: self.geometries,
            semantics: self.semantics,
            hit_regions: self.hit_regions,
            scene_rectangles: self.scene_rectangles,
        }
    }
}

/// Projection counts are determined by their five family sizes.
pub proof fn lemma_counts_view_injective(
    first: HeadlessTraceProjectionCountsV1,
    second: HeadlessTraceProjectionCountsV1,
)
    ensures
        first@ == second@ ==> first == second,
{
}

impl HeadlessTraceProjectionCountsV1 {
    /// Creates counts from the five family sizes.
    pub fn new(
        computed_styles: usize,
        geometries: usize,
        semantics: usize,
        hit_regions: usize,
        scene_rectangles: usize,
    ) -> (counts: Self)
        ensures
            counts@ == (ProjectionCountsView {
                computed_styles,
                geometries,
                semantics,
                hit_regions,
                scene_rectangles,
            }),
    {
        HeadlessTraceProjectionCountsV1 {
            computed_styles,
            geometries,
            semantics,
            hit_regions,
            scene_rectangles,
        }
    }

    /// Returns the computed-style record count.
    pub fn computed_styles(self) -> (count: usize)
        ensures
            count == self@.computed_styles,
    {
        self.computed_styles
    }

    /// Returns the geometry record count.
    pub fn geometries(self) -> (count: usize)
        ensures
            count == self@.geometries,
    {
        self.geometries
    }

    /// Returns the semantic record count.
    pub fn semantics(self) -> (count: usize)
        ensures
            count == self@.semantics,
    {
        self.semantics
    }

    /// Returns the hit-region count.
    pub fn hit_regions(self) -> (count: usize)
        ensures
            count == self@.hit_regions,
    {
        self.hit_regions
    }

    /// Returns the scene-rectangle count.
    pub fn scene_rectangles(self) -> (count: usize)
        ensures
            count == self@.scene_rectangles,
    {
        self.scene_rectangles
    }
}

/// Copyable item and byte accounting for one scheduler lane.
#[derive(Clone, Copy, Debug, PartialEq, Eq, Structural)]
pub struct HeadlessTraceQueueStatsV1 {
    items: usize,
    accounted_bytes: usize,
}

impl HeadlessTraceQueueStatsV1 {
    /// The retained item count.
    pub closed spec fn spec_items(self) -> usize {
        self.items
    }

    /// The protocol-accounted bytes.
    pub closed spec fn spec_accounted_bytes(self) -> usize {
        self.accounted_bytes
    }

    /// Records one lane's accounting.
    pub fn new(items: usize, accounted_bytes: usize) -> (stats: Self)
        ensures
            stats.spec_items() == items,
            stats.spec_accounted_bytes() == accounted_bytes,
    {
        HeadlessTraceQueueStatsV1 { items, accounted_bytes }
    }

    /// Returns the retained item count.
    pub fn items(self) -> (items: usize)
        ensures
            items == self.spec_items(),
    {
        self.items
    }

    /// Returns protocol-accounted bytes.
    pub fn accounted_bytes(self) -> (bytes: usize)
        ensures
            bytes == self.spec_accounted_bytes(),
    {
        self.accounted_bytes
    }
}

/// Copyable item and byte accounting for the fake renderer ledger.
#[derive(Clone, Copy, Debug, PartialEq, Eq, Structural)]
pub struct HeadlessTraceRendererStatsV1 {
    items: usize,
    accounted_bytes: usize,
}

impl HeadlessTraceRendererStatsV1 {
    /// The retained resource count.
    pub closed spec fn spec_items(self) -> usize {
        self.items
    }

    /// The protocol-accounted bytes.
    pub closed spec fn spec_accounted_bytes(self) -> usize {
        self.accounted_bytes
    }

    /// Records the renderer ledger's accounting.
    pub fn new(items: usize, accounted_bytes: usize) -> (stats: Self)
        ensures
            stats.spec_items() == items,
            stats.spec_accounted_bytes() == accounted_bytes,
    {
        HeadlessTraceRendererStatsV1 { items, accounted_bytes }
    }

    /// Returns the retained resource count.
    pub fn items(self) -> (items: usize)
        ensures
            items == self.spec_items(),
    {
        self.items
    }

    /// Returns protocol-accounted bytes.
    pub fn accounted_bytes(self) -> (bytes: usize)
        ensures
            bytes == self.spec_accounted_bytes(),
    {
        self.accounted_bytes
    }
}

/// What one recorded step says of itself.
#[derive(Clone, Copy, Debug, PartialEq, Eq, Structural)]
pub struct HeadlessTraceStep {
    pub stage: HeadlessTraceStageV1,
    pub input: HeadlessInputKindV1,
    pub outcome: HeadlessOutcomeV1,
    pub captured_generation: Option<u64>,
    pub records_publication: bool,
    pub target: HeadlessPointerTargetV1,
    pub frame: Option<u64>,
    pub control: Option<u64>,
}

impl HeadlessTraceStep {
    /// A step with no generation, target, frame or control attached.
    pub fn new(
        stage: HeadlessTraceStageV1,
        input: HeadlessInputKindV1,
        outcome: HeadlessOutcomeV1,
    ) -> (step: Self)
        ensures
            step == (HeadlessTraceStep {
                stage,
                input,
                outcome,
                captured_generation: None,
                records_publication: false,
                target: HeadlessPointerTargetV1::Absent,
                frame: None,
                control: None,
            }),
    {
        HeadlessTraceStep {
            stage,
            input,
            outcome,
            captured_generation: None,
            records_publication: false,
            target: HeadlessPointerTargetV1::Absent,
            frame: None,
            control: None,
        }
    }
}

/// The committed projection's identity, as the scheduler reports it.
#[derive(Clone, Copy, Debug, PartialEq, Eq, Structural)]
pub struct TraceProjectionStateV1 {
    pub generation: u64,
    pub surface: HeadlessSurface,
    pub counts: HeadlessTraceProjectionCountsV1,
}

/// Everything one trace event observes of the scheduler and renderer.
#[derive(Clone, Copy, Debug, PartialEq, Eq, Structural)]
pub struct HeadlessTraceObservationV1 {
    pub committed_generation: u64,
    pub projection: Option<TraceProjectionStateV1>,
    pub deferred: HeadlessTraceQueueStatsV1,
    pub controls: HeadlessTraceQueueStatsV1,
    pub visual: HeadlessTraceQueueStatsV1,
    pub in_flight: HeadlessTraceQueueStatsV1,
    pub renderer: HeadlessTraceRendererStatsV1,
}

/// Why a trace event could not be recorded.
#[derive(Clone, Copy, Debug, PartialEq, Eq, Structural)]
pub enum HeadlessTraceErrorKind {
    EventLimitExceeded,
    ByteLimitExceeded,
    ClockDomainMismatch,
    TickRegression,
    ArithmeticExhausted,
    ProjectionUnavailable,
    IdentityMismatch,
}

/// A refused trace event.
#[derive(Clone, Copy, Debug, PartialEq, Eq, Structural)]
pub struct HeadlessTraceError {
    pub kind: HeadlessTraceErrorKind,
}

impl HeadlessTraceError {
    /// Creates an error of the given kind.
    pub fn new(kind: HeadlessTraceErrorKind) -> (error: Self)
        ensures
            error.kind == kind,
    {
        HeadlessTraceError { kind }
    }

    /// Returns the error's kind.
    pub fn kind(self) -> (kind: HeadlessTraceErrorKind)
        ensures
            kind == self.kind,
    {
        self.kind
    }
}

/// One fixed-accounting, privacy-safe deterministic headless observation.
#[derive(Clone, Copy, Debug, PartialEq, Eq, Structural)]
pub struct HeadlessTraceEventV1 {
    pub schema_revision: u32,
    pub sequence: u64,
    pub domain: FakeClockDomainV1,
    pub tick: u64,
    pub stage: HeadlessTraceStageV1,
    pub input: HeadlessInputKindV1,
    pub outcome: HeadlessOutcomeV1,
    pub captured_generation: Option<u64>,
    pub published_generation: Option<u64>,
    pub target: HeadlessPointerTargetV1,
    pub frame: Option<u64>,
    pub control: Option<u64>,
    pub surface: HeadlessSurface,
    pub projection_counts: HeadlessTraceProjectionCountsV1,
    pub deferred: HeadlessTraceQueueStatsV1,
    pub controls: HeadlessTraceQueueStatsV1,
    pub visual: HeadlessTraceQueueStatsV1,
    pub in_flight: HeadlessTraceQueueStatsV1,
    pub renderer: HeadlessTraceRendererStatsV1,
}

/// Fixed protocol-accounted weight of one headless trace event.
pub const HEADLESS_EVENT_ACCOUNTED_BYTES: usize = 160;

/// The event schema revision written by this library.
pub const HEADLESS_EVENT_SCHEMA_REVISION: u32 = 1;

/// Why an observation cannot be projected into an event, if it cannot.
pub open spec fn projection_failure(
    observation: HeadlessTraceObservationV1,
) -> Option<HeadlessTraceErrorKind> {
    match observation.projection {
        None => Some(HeadlessTraceErrorKind::ProjectionUnavailable),
        Some(state) => if state.generation != observation.committed_generation {
            Some(HeadlessTraceErrorKind::IdentityMismatch)
        } else {
            None
        },
    }
}

/// The event that a step projects at a sequence number and tick.
pub open spec fn projected_event(
    sequence: u64,
    domain: FakeClockDomainV1,
    tick: u64,
    step: HeadlessTraceStep,
    observation: HeadlessTraceObservationV1,
) -> HeadlessTraceEventV1 {
    let state = observation.projection.unwrap();
    HeadlessTraceEventV1 {
        schema_revision: HEADLESS_EVENT_SCHEMA_REVISION,
        sequence,
        domain,
        tick,
        stage: step.stage,
        input: step.input,
        outcome: step.outcome,
        captured_generation: step.captured_generation,
        published_generation: if step.records_publication {
            Some(state.generation)
        } else {
            None
        },
        target: step.target,
        frame: step.frame,
        control: step.control,
        surface: state.surface,
        projection_counts: state.counts,
        deferred: observation.deferred,
        controls: observation.controls,
        visual: observation.visual,
        in_flight: observation.in_flight,
        renderer: observation.renderer,
    }
}

/// A projected event carries the observation's queue and renderer
/// accounting lane for lane: the deferred lane as the deferred lane, the
/// control lane as the control lane, and likewise the visual, in-flight and
/// renderer statistics.
pub proof fn lemma_projected_event_lanes(
    sequence: u64,
    domain: FakeClockDomainV1,
    tick: u64,
    step: HeadlessTraceStep,
    observation: HeadlessTraceObservationV1,
)
    ensures
        ({
            let event = projected_event(sequence, domain, tick, step, observation);
            &&& event.deferred == observation.deferred
            &&& event.controls == observation.controls
            &&& event.visual == observation.visual
            &&& event.in_flight == observation.in_flight
            &&& event.renderer == observation.renderer
        }),
{
}

/// Projects one step and its observation into an event.
pub fn project_event(
    sequence: u64,
    domain: FakeClockDomainV1,
    tick: u64,
    step: HeadlessTraceStep,
    observation: HeadlessTraceObservationV1,
) -> (result: Result<HeadlessTraceEventV1, HeadlessTraceError>)
    ensures
        match result {
            Ok(event) => projection_failure(observation) is None && event == projected_event(
                sequence,
                domain,
                tick,
                step,
                observation,
            ),
            Err(error) => projection_failure(observation) == Some(error.kind),
        },
        result is Ok ==> {
            let event = result->Ok_0;
            &&& event.deferred == observation.deferred
            &&& event.controls == observation.controls
            &&& event.visual == observation.visual
            &&& event.in_flight == observation.in_flight
            &&& event.renderer == observation.renderer
        },
        result is Ok ==> {
            let event = result->Ok_0;
            let state = observation.projection->Some_0;
            &&& event.schema_revision == HEADLESS_EVENT_SCHEMA_REVISION
            &&& event.sequence == sequence
            &&& event.domain == domain
            &&& event.tick == tick
            &&& event.stage == step.stage
            &&& event.input == step.input
            &&& event.outcome == step.outcome
            &&& event.captured_generation == step.captured_generation
            &&& event.published_generation == if step.records_publication {
                Some(observation.committed_generation)
            } else {
                None
            }
            &&& event.target == step.target
            &&& event.frame == step.frame
            &&& event.control == step.control
            &&& event.surface == state.surface
            &&& event.projection_counts == state.counts
        },
{
    let state = match observation.projection {
        Some(state) => state,
        None => return Err(HeadlessTraceError::new(HeadlessTraceErrorKind::ProjectionUnavailable)),
    };
    if state.generation != observation.committed_generation {
        return Err(HeadlessTraceError::new(HeadlessTraceErrorKind::IdentityMismatch));
    }
    let published_generation = if step.records_publication {
        Some(state.generation)
    } else {
        None
    };
    Ok(
        HeadlessTraceEventV1 {
            schema_revision: HEADLESS_EVENT_SCHEMA_REVISION,
            sequence,
            domain,
            tick,
            stage: step.stage,
            input: step.input,
            outcome: step.outcome,
            captured_generation: step.captured_generation,
            published_generation,
            target: step.target,
            frame: step.frame,
            control: step.control,
            surface: state.surface,
            projection_counts: state.counts,
            deferred: observation.deferred,
            controls: observation.controls,
            visual: observation.visual,
            in_flight: observation.in_flight,
            renderer: observation.renderer,
        },
    )
}

impl HeadlessTraceEventV1 {
    /// Returns the event schema revision.
    pub fn schema_revision(self) -> (revision: u32)
        ensures
            revision == self.schema_revision,
    {
        self.schema_revision
    }

    /// Returns the dense zero-based sequence.
    pub fn sequence(self) -> (sequence: u64)
        ensures
            sequence == self.sequence,
    {
        self.sequence
    }

    /// Returns the shared fake-clock domain.
    pub fn clock_domain(self) -> (domain: FakeClockDomainV1)
        ensures
            domain == self.domain,
    {
        self.domain
    }

    /// Returns the logical scheduler tick.
    pub fn tick(self) -> (tick: u64)
        ensures
            tick == self.tick,
    {
        self.tick
    }

    /// Returns the closed trace stage.
    pub fn stage(self) -> (stage: HeadlessTraceStageV1)
        ensures
            stage == self.stage,
    {
        self.stage
    }

    /// Returns the closed causal input.
    pub fn input(self) -> (input: HeadlessInputKindV1)
        ensures
            input == self.input,
    {
        self.input
    }

    /// Returns the closed event outcome.
    pub fn outcome(self) -> (outcome: HeadlessOutcomeV1)
        ensures
            outcome == self.outcome,
    {
        self.outcome
    }

    /// Returns a captured committed generation, when applicable.
    pub fn captured_generation(self) -> (generation: Option<u64>)
        ensures
            generation == self.captured_generation,
    {
        self.captured_generation
    }

    /// Returns a generation published by the operation, when applicable.
    pub fn published_generation(self) -> (generation: Option<u64>)
        ensures
            generation == self.published_generation,
    {
        self.published_generation
    }

    /// Returns the closed semantic target.
    pub fn target(self) -> (target: HeadlessPointerTargetV1)
        ensures
            target == self.target,
    {
        self.target
    }

    /// Returns the named frame identity, when applicable.
    pub fn frame(self) -> (frame: Option<u64>)
        ensures
            frame == self.frame,
    {
        self.frame
    }

    /// Returns the named control sequence, when applicable.
    pub fn control(self) -> (control: Option<u64>)
        ensures
            control == self.control,
    {
        self.control
    }

    /// Returns the committed headless surface.
    pub fn surface(self) -> (surface: HeadlessSurface)
        ensures
            surface == self.surface,
    {
        self.surface
    }

    /// Returns counts for every projection family.
    pub fn projection_counts(self) -> (counts: HeadlessTraceProjectionCountsV1)
        ensures
            counts == self.projection_counts,
    {
        self.projection_counts
    }

    /// Returns deferred lane accounting.
    pub fn deferred(self) -> (stats: HeadlessTraceQueueStatsV1)
        ensures
            stats == self.deferred,
    {
        self.deferred
    }

    /// Returns control lane accounting.
    pub fn controls(self) -> (stats: HeadlessTraceQueueStatsV1)
        ensures
            stats == self.controls,
    {
        self.controls
    }

    /// Returns visual lane accounting.
    pub fn visual(self) -> (stats: HeadlessTraceQueueStatsV1)
        ensures
            stats == self.visual,
    {
        self.visual
    }

    /// Returns in-flight lane accounting.
    pub fn in_flight(self) -> (stats: HeadlessTraceQueueStatsV1)
        ensures
            stats == self.in_flight,
    {
        self.in_flight
    }

    /// Returns fake renderer ledger accounting.
    pub fn renderer(self) -> (stats: HeadlessTraceRendererStatsV1)
        ensures
            stats == self.renderer,
    {
        self.renderer
    }
}

/// Mathematical form of a headless trace.
pub struct HeadlessTraceView {
    pub domain: FakeClockDomainV1,
    pub capacity: HeadlessTraceCapacityV1,
    pub events: Seq<HeadlessTraceEventV1>,
    pub accounted_bytes: usize,
    pub next_sequence: Option<u64>,
    pub last_tick: Option<u64>,
}

/// Bounded deterministic observations from the fixed headless experiment.
#[derive(Debug)]
pub struct HeadlessTraceV1 {
    domain: FakeClockDomainV1,
    capacity: HeadlessTraceCapacityV1,
    events: Vec<HeadlessTraceEventV1>,
    accounted_bytes: usize,
    next_sequence: Option<u64>,
    last_tick: Option<u64>,
}

impl View for HeadlessTraceV1 {
    type V = HeadlessTraceView;

    closed spec fn view(&self) -> HeadlessTraceView {
        HeadlessTraceView {
            domain: self.domain,
            capacity: self.capacity,
            events: self.events@,
            accounted_bytes: self.accounted_bytes,
            next_sequence: self.next_sequence,
            last_tick: self.last_tick,
        }
    }
}

/// A well-formed trace: every event carries the trace's domain and its own
/// dense sequence number, ticks never decrease, the accounted bytes are the
/// fixed weight of each event, and both inclusive ceilings hold.
pub open spec fn trace_wf(trace: HeadlessTraceView) -> bool {
    &&& trace.accounted_bytes == trace.events.len() * HEADLESS_EVENT_ACCOUNTED_BYTES
    &&& trace.events.len() <= trace.capacity.spec_max_events()
    &&& trace.accounted_bytes <= trace.capacity.spec_max_bytes()
    &&& trace.next_sequence == Some(trace.events.len() as u64)
    &&& forall|i: int|
        0 <= i < trace.events.len() ==> (#[trigger] trace.events[i]).sequence == i
            && trace.events[i].domain == trace.domain
    &&& forall|i: int, j: int|
        0 <= i <= j < trace.events.len() ==> (#[trigger] trace.events[i]).tick
            <= (#[trigger] trace.events[j]).tick
    &&& if trace.events.len() == 0 {
        trace.last_tick is None
    } else {
        trace.last_tick == Some(trace.events.last().tick)
    }
}

/// Why recording one more event fails, if it does: a foreign clock domain,
/// a tick that runs backwards, exhausted arithmetic, the event ceiling, the
/// byte ceiling, then an observation that cannot be projected, in that order.
pub open spec fn record_failure(
    trace: HeadlessTraceView,
    clock: FakeClockV1,
    observation: HeadlessTraceObservationV1,
) -> Option<HeadlessTraceErrorKind> {
    if clock.domain != trace.domain {
        Some(HeadlessTraceErrorKind::ClockDomainMismatch)
    } else if trace.last_tick is Some && clock.now < trace.last_tick.unwrap() {
        Some(HeadlessTraceErrorKind::TickRegression)
    } else if trace.events.len() + 1 > usize::MAX || trace.accounted_bytes
        + HEADLESS_EVENT_ACCOUNTED_BYTES > usize::MAX {
        Some(HeadlessTraceErrorKind::ArithmeticExhausted)
    } else if trace.events.len() + 1 > trace.capacity.spec_max_events() {
        Some(HeadlessTraceErrorKind::EventLimitExceeded)
    } else if trace.accounted_bytes + HEADLESS_EVENT_ACCOUNTED_BYTES
        > trace.capacity.spec_max_bytes() {
        Some(HeadlessTraceErrorKind::ByteLimitExceeded)
    } else if trace.next_sequence is None {
        Some(HeadlessTraceErrorKind::ArithmeticExhausted)
    } else {
        projection_failure(observation)
    }
}

impl HeadlessTraceV1 {
    /// Whether the trace is well formed.
    pub open spec fn wf(&self) -> bool {
        trace_wf(self@)
    }

    /// Creates an empty trace for one clock domain and capacity.
    pub fn new(domain: FakeClockDomainV1, capacity: HeadlessTraceCapacityV1) -> (trace: Self)
        ensures
            trace.wf(),
            trace@.domain == domain,
            trace@.capacity == capacity,
            trace@.events.len() == 0,
    {
        let trace = HeadlessTraceV1 {
            domain,
            capacity,
            events: Vec::new(),
            accounted_bytes: 0,
            next_sequence: Some(0),
            last_tick: None,
        };
        proof {
            assert(trace@.events.len() == 0);
        }
        trace
    }

    /// Records one step, or refuses it and leaves the trace unchanged.
    pub fn record(
        &mut self,
        clock: FakeClockV1,
        step: HeadlessTraceStep,
        observation: HeadlessTraceObservationV1,
    ) -> (result: Result<(), HeadlessTraceError>)
        requires
            old(self).wf(),
        ensures
            final(self).wf(),
            match result {
                Ok(()) => {
                    &&& record_failure(old(self)@, clock, observation) is None
                    &&& final(self)@.domain == old(self)@.domain
                    &&& final(self)@.capacity == old(self)@.capacity
                    &&& final(self)@.events == old(self)@.events.push(
                        projected_event(
                            old(self)@.events.len() as u64,
                            old(self)@.domain,
                            clock.now,
                            step,
                            observation,
                        ),
                    )
                },
                Err(error) => record_failure(old(self)@, clock, observation) == Some(error.kind)
                    && final(self)@ == old(self)@,
            },
            result is Ok ==> {
                let event = final(self)@.events.last();
                &&& final(self)@.events.len() == old(self)@.events.len() + 1
                &&& event.deferred == observation.deferred
                &&& event.controls == observation.controls
                &&& event.visual == observation.visual
                &&& event.in_flight == observation.in_flight
                &&& event.renderer == observation.renderer
                &&& event.sequence == old(self)@.events.len()
                &&& event.tick == clock.now
                &&& event.captured_generation == step.captured_generation
                &&& event.published_generation == if step.records_publication {
                    Some(observation.committed_generation)
                } else {
                    None
                }
                &&& event.frame == step.frame
                &&& event.control == step.control
                &&& event.surface == observation.projection->Some_0.surface
                &&& event.projection_counts == observation.projection->Some_0.counts
            },
    {
        let tick = match self.validate_clock(clock) {
            Ok(tick) => tick,
            Err(error) => return Err(error),
        };
        let (next_len, next_bytes) = match self.preflight_capacity() {
            Ok(next) => next,
            Err(error) => return Err(error),
        };
        let sequence = match self.next_sequence {
            Some(sequence) => sequence,
            None => return Err(HeadlessTraceError::new(HeadlessTraceErrorKind::ArithmeticExhausted)),
        };
        let event = match project_event(sequence, self.domain, tick, step, observation) {
            Ok(event) => event,
            Err(error) => return Err(error),
        };
        let ghost old_events = self.events@;
        assert(sequence < u64::MAX) by {
            assert(next_len * HEADLESS_EVENT_ACCOUNTED_BYTES == next_bytes);
        }
        self.events.push(event);
        self.accounted_bytes = next_bytes;
        self.next_sequence = Some(sequence + 1);
        self.last_tick = Some(tick);
        proof {
            assert(self.events@ == old_events.push(event));
            assert forall|i: int, j: int|
                0 <= i <= j < self.events@.len() implies (#[trigger] self.events@[i]).tick
                <= (#[trigger] self.events@[j]).tick by {
                if j == old_events.len() && i < j {
                    assert(old_events[i].tick <= old_events.last().tick);
                }
            }
        }
        Ok(())
    }

    /// Returns the fixed fake-clock domain shared with the scheduler trace.
    pub fn domain(&self) -> (domain: FakeClockDomainV1)
        ensures
            domain == self@.domain,
    {
        self.domain
    }

    /// Returns the inclusive event and accounted-byte ceilings.
    pub fn capacity(&self) -> (capacity: HeadlessTraceCapacityV1)
        ensures
            capacity == self@.capacity,
    {
        self.capacity
    }

    /// Returns the accepted deterministic event prefix.
    pub fn events(&self) -> (events: &[HeadlessTraceEventV1])
        ensures
            events@ == self@.events,
    {
        self.events.as_slice()
    }

    /// Returns the number of accepted events.
    pub fn len(&self) -> (len: usize)
        ensures
            len == self@.events.len(),
    {
        self.events.len()
    }

    /// Reports whether no event has been accepted.
    pub fn is_empty(&self) -> (empty: bool)
        ensures
            empty == (self@.events.len() == 0),
    {
        self.events.len() == 0
    }

    /// Returns the sequence number the next event will carry.
    pub fn next_sequence(&self) -> (sequence: Option<u64>)
        ensures
            sequence == self@.next_sequence,
    {
        self.next_sequence
    }

    /// Returns the tick of the last accepted event, if any.
    pub fn last_tick(&self) -> (tick: Option<u64>)
        ensures
            tick == self@.last_tick,
    {
        self.last_tick
    }

    /// Returns protocol-accounted bytes for the accepted prefix.
    pub fn accounted_bytes(&self) -> (bytes: usize)
        ensures
            bytes == self@.accounted_bytes,
    {
        self.accounted_bytes
    }

    fn validate_clock(&self, clock: FakeClockV1) -> (result: Result<u64, HeadlessTraceError>)
        ensures
            match result {
                Ok(tick) => tick == clock.now && clock.domain == self@.domain && !(
                self@.last_tick is Some && clock.now < self@.last_tick.unwrap()),
                Err(error) => (error.kind == HeadlessTraceErrorKind::ClockDomainMismatch
                    && clock.domain != self@.domain) || (error.kind
                    == HeadlessTraceErrorKind::TickRegression && clock.domain == self@.domain
                    && self@.last_tick is Some && clock.now < self@.last_tick.unwrap()),
            },
    {
        if clock.domain != self.domain {
            return Err(HeadlessTraceError::new(HeadlessTraceErrorKind::ClockDomainMismatch));
        }
        let tick = clock.now;
        match self.last_tick {
            Some(last) => if tick < last {
                return Err(HeadlessTraceError::new(HeadlessTraceErrorKind::TickRegression));
            },
            None => {},
        }
        Ok(tick)
    }

    fn preflight_capacity(&self) -> (result: Result<(usize, usize), HeadlessTraceError>)
        requires
            self.wf(),
        ensures
            match result {
                Ok((next_len, next_bytes)) => {
                    &&& next_len == self@.events.len() + 1
                    &&& next_bytes == self@.accounted_bytes + HEADLESS_EVENT_ACCOUNTED_BYTES
                    &&& next_len <= self@.capacity.spec_max_events()
                    &&& next_bytes <= self@.capacity.spec_max_bytes()
                },
                Err(error) => {
                    ||| (error.kind == HeadlessTraceErrorKind::ArithmeticExhausted && (
                    self@.events.len() + 1 > usize::MAX || self@.accounted_bytes
                        + HEADLESS_EVENT_ACCOUNTED_BYTES > usize::MAX))
                    ||| (error.kind == HeadlessTraceErrorKind::EventLimitExceeded
                        && self@.events.len() + 1 <= usize::MAX && self@.accounted_bytes
                        + HEADLESS_EVENT_ACCOUNTED_BYTES <= usize::MAX && self@.events.len() + 1
                        > self@.capacity.spec_max_events())
                    ||| (error.kind == HeadlessTraceErrorKind::ByteLimitExceeded
                        && self@.events.len() + 1 <= self@.capacity.spec_max_events()
                        && self@.accounted_bytes + HEADLESS_EVENT_ACCOUNTED_BYTES <= usize::MAX
                        && self@.accounted_bytes + HEADLESS_EVENT_ACCOUNTED_BYTES
                        > self@.capacity.spec_max_bytes())
                },
            },
    {
        let next_len = match self.events.len().checked_add(1) {
            Some(next_len) => next_len,
            None => return Err(HeadlessTraceError::new(HeadlessTraceErrorKind::ArithmeticExhausted)),
        };
        let next_bytes = match self.accounted_bytes.checked_add(HEADLESS_EVENT_ACCOUNTED_BYTES) {
            Some(next_bytes) => next_bytes,
            None => return Err(HeadlessTraceError::new(HeadlessTraceErrorKind::ArithmeticExhausted)),
        };
        if next_len > self.capacity.max_events() {
            return Err(HeadlessTraceError::new(HeadlessTraceErrorKind::EventLimitExceeded));
        }
        if next_bytes > self.capacity.max_bytes() {
            return Err(HeadlessTraceError::new(HeadlessTraceErrorKind::ByteLimitExceeded));
        }
        Ok((next_len, next_bytes))
    }
}

/// A trace keeps its accounting laws: the accounted bytes are the fixed event
/// weight times the number of events, both inclusive ceilings hold, and each
/// event carries its dense sequence number.
pub proof fn lemma_trace_accounting(trace: &HeadlessTraceV1)
    requires
        trace.wf(),
    ensures
        trace@.accounted_bytes == trace@.events.len() * HEADLESS_EVENT_ACCOUNTED_BYTES,
        trace@.events.len() <= trace@.capacity.spec_max_events(),
        trace@.accounted_bytes <= trace@.capacity.spec_max_bytes(),
        forall|i: int| 0 <= i < trace@.events.len() ==> (#[trigger] trace@.events[i]).sequence == i,
{
}

} // verus!
