use vstd::prelude::*;

use crate::headless::geometry::HeadlessSurface;
use crate::headless::oracle::{
    NormalizedHeadlessComputedStyleV1, NormalizedHeadlessGeometryV1, NormalizedHeadlessHitRegionV1,
    NormalizedHeadlessSceneRectangleV1, NormalizedHeadlessSemanticV1,
};
use crate::headless::platform::HeadlessPointerTargetV1;
use crate::headless::runner::HeadlessResultV1;
use crate::headless::trace::{
    HeadlessInputKindV1, HeadlessOutcomeV1, HeadlessTraceProjectionCountsV1, HeadlessTraceStageV1,
};
use crate::scheduler::FakeClockDomainV1;

verus! {

/// Identity of the fixture an artifact was recorded against.
#[derive(Clone, Copy, Debug, PartialEq, Eq, Structural)]
pub struct ArtifactMetadataV1 {
    pub fixture_revision: u32,
    pub clock_domain: FakeClockDomainV1,
}

/// The registered fixture revision of headless artifacts.
pub const REGISTERED_HEADLESS_FIXTURE_REVISION: u32 = 1;

/// The clock domain of the registered headless run.
pub const REGISTERED_HEADLESS_CLOCK_DOMAIN: u64 = 8001;

impl ArtifactMetadataV1 {
    /// The metadata of the registered fixture.
    pub open spec fn spec_registered() -> ArtifactMetadataV1 {
        ArtifactMetadataV1 {
            fixture_revision: REGISTERED_HEADLESS_FIXTURE_REVISION,
            clock_domain: FakeClockDomainV1(REGISTERED_HEADLESS_CLOCK_DOMAIN),
        }
    }

    /// Returns the metadata of the registered fixture.
    pub fn registered() -> (metadata: Self)
        ensures
            metadata == Self::spec_registered(),
    {
        ArtifactMetadataV1 {
            fixture_revision: REGISTERED_HEADLESS_FIXTURE_REVISION,
            clock_domain: FakeClockDomainV1(REGISTERED_HEADLESS_CLOCK_DOMAIN),
        }
    }
}

/// The capacity that each layer of the run was configured with, one ceiling
/// per layer.
#[derive(Clone, Copy, Debug, PartialEq, Eq, Structural)]
pub struct ArtifactCapacitiesV1 {
    pub ir: u64,
    pub style: u64,
    pub runtime: u64,
    pub projection: u64,
    pub scheduler: u64,
    pub renderer: u64,
    pub scheduler_trace: u64,
    pub headless_trace: u64,
    pub artifact: u64,
}

impl ArtifactCapacitiesV1 {
    /// The capacities of the registered fixture.
    pub open spec fn spec_registered() -> ArtifactCapacitiesV1 {
        ArtifactCapacitiesV1 {
            ir: 8,
            style: 8,
            runtime: 40,
            projection: 8,
            scheduler: 128,
            renderer: 192,
            scheduler_trace: 24576,
            headless_trace: 20480,
            artifact: 65536,
        }
    }

    /// Returns the capacities of the registered fixture.
    pub fn registered() -> (capacities: Self)
        ensures
            capacities == Self::spec_registered(),
    {
        ArtifactCapacitiesV1 {
            ir: 8,
            style: 8,
            runtime: 40,
            projection: 8,
            scheduler: 128,
            renderer: 192,
            scheduler_trace: 24576,
            headless_trace: 20480,
            artifact: 65536,
        }
    }
}

/// The final projection of a run, family by family.
#[derive(Clone, Debug)]
pub struct ArtifactProjectionV1 {
    pub computed: Vec<NormalizedHeadlessComputedStyleV1>,
    pub geometry: Vec<NormalizedHeadlessGeometryV1>,
    pub semantics: Vec<NormalizedHeadlessSemanticV1>,
    pub hits: Vec<NormalizedHeadlessHitRegionV1>,
    pub scene: Vec<NormalizedHeadlessSceneRectangleV1>,
}

/// Items and bytes of one accounted ledger.
#[derive(Clone, Copy, Debug, PartialEq, Eq, Structural)]
pub struct LedgerRecordV1 {
    pub items: usize,
    pub bytes: usize,
}

/// One stored headless trace event, field by field in wire order.
#[derive(Clone, Copy, Debug, PartialEq, Eq, Structural)]
pub struct TraceEventRecordV1 {
    pub schema: u32,
    pub sequence: u64,
    pub domain: FakeClockDomainV1,
    pub tick: u64,
    pub stage: HeadlessTraceStageV1,
    pub input: HeadlessInputKindV1,
    pub outcome: HeadlessOutcomeV1,
    pub captured: Option<u64>,
    pub published: Option<u64>,
    pub target: HeadlessPointerTargetV1,
    pub frame: Option<u64>,
    pub control: Option<u64>,
    pub surface: HeadlessSurface,
    pub counts: HeadlessTraceProjectionCountsV1,
    pub deferred: LedgerRecordV1,
    pub controls: LedgerRecordV1,
    pub visual: LedgerRecordV1,
    pub in_flight: LedgerRecordV1,
    pub renderer: LedgerRecordV1,
}

/// One scheduler action as stored.
#[derive(Clone, Copy, Debug, PartialEq, Eq, Structural)]
pub enum ActionRecordV1 {
    /// Nothing to do.
    Idle,
    /// A frame was requested from the renderer.
    RequestFrame,
}

/// One scheduler step as stored.
#[derive(Clone, Copy, Debug, PartialEq, Eq, Structural)]
pub enum StepRecordV1 {
    /// The scheduler produced an action.
    Action(ActionRecordV1),
}

/// Lifecycle state of the scheduler.
#[derive(Clone, Copy, Debug, PartialEq, Eq, Structural)]
pub enum SchedulerState {
    /// Accepting work.
    Running,
    /// Shut down.
    Stopped,
    /// Failed and refusing work.
    Faulted,
}

/// One scheduler lane as stored: accounting and residence.
#[derive(Clone, Copy, Debug, PartialEq, Eq, Structural)]
pub struct LaneRecordV1 {
    pub items: usize,
    pub bytes: usize,
    pub residence: Option<u64>,
}

/// The renderer ledger as stored.
#[derive(Clone, Copy, Debug, PartialEq, Eq, Structural)]
pub struct RendererRecordV1 {
    pub items: usize,
    pub bytes: usize,
    pub residence: Option<u64>,
    pub last: Option<u64>,
    pub completed: u64,
    pub pending: bool,
}

/// One stored scheduler trace event, field by field in wire order.
#[derive(Clone, Copy, Debug, PartialEq, Eq, Structural)]
pub struct SchedulerEventRecordV1 {
    pub schema: u32,
    pub sequence: u64,
    pub domain: FakeClockDomainV1,
    pub tick: u64,
    pub step: StepRecordV1,
    pub lifecycle: SchedulerState,
    pub generation: u64,
    pub frame: Option<u64>,
    pub control: Option<u64>,
    pub deferred: LaneRecordV1,
    pub controls: LaneRecordV1,
    pub visual: LaneRecordV1,
    pub in_flight: LaneRecordV1,
    pub renderer: RendererRecordV1,
}

/// Stored evidence of one complete headless run.
#[derive(Clone, Debug)]
pub struct HeadlessArtifactV1 {
    pub metadata: ArtifactMetadataV1,
    pub capacities: ArtifactCapacitiesV1,
    pub result: HeadlessResultV1,
    pub projection: ArtifactProjectionV1,
    pub headless_events: Vec<TraceEventRecordV1>,
    pub scheduler_events: Vec<SchedulerEventRecordV1>,
}

} // verus!
