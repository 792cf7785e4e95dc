use vstd::prelude::*;

use crate::headless::artifact::model::{SchedulerEventRecordV1, TraceEventRecordV1};
use crate::headless::trace::lemma_counts_view_injective;

verus! {

/// A field of a stored headless trace event, in wire order.
#[derive(Clone, Copy, Debug, PartialEq, Eq, Structural)]
pub enum HeadlessTraceFieldV1 {
    Schema,
    Sequence,
    Domain,
    Tick,
    Stage,
    Input,
    Outcome,
    Captured,
    Published,
    Target,
    Frame,
    Control,
    SurfaceWidth,
    SurfaceHeight,
    ComputedStyles,
    Geometries,
    Semantics,
    HitRegions,
    SceneRectangles,
    DeferredItems,
    DeferredBytes,
    ControlItems,
    ControlBytes,
    VisualItems,
    VisualBytes,
    InFlightItems,
    InFlightBytes,
    RendererItems,
    RendererBytes,
    Cardinality,
}

/// A field of a stored scheduler trace event, in wire order.
#[derive(Clone, Copy, Debug, PartialEq, Eq, Structural)]
pub enum SchedulerTraceFieldV1 {
    Schema,
    Sequence,
    Domain,
    Tick,
    Step,
    Lifecycle,
    Generation,
    Frame,
    Control,
    DeferredItems,
    DeferredBytes,
    DeferredResidence,
    ControlItems,
    ControlBytes,
    ControlResidence,
    VisualItems,
    VisualBytes,
    VisualResidence,
    InFlightItems,
    InFlightBytes,
    InFlightResidence,
    RendererItems,
    RendererBytes,
    RendererResidence,
    RendererLast,
    RendererCompleted,
    RendererPending,
    Cardinality,
}

/// The first wire-order field on which two headless events differ.
pub open spec fn headless_field_spec(
    left: &TraceEventRecordV1,
    right: &TraceEventRecordV1,
) -> Option<HeadlessTraceFieldV1> {
    if left.schema != right.schema {
        Some(HeadlessTraceFieldV1::Schema)
    } else if left.sequence != right.sequence {
        Some(HeadlessTraceFieldV1::Sequence)
    } else if left.domain != right.domain {
        Some(HeadlessTraceFieldV1::Domain)
    } else if left.tick != right.tick {
        Some(HeadlessTraceFieldV1::Tick)
    } else if left.stage != right.stage {
        Some(HeadlessTraceFieldV1::Stage)
    } else if left.input != right.input {
        Some(HeadlessTraceFieldV1::Input)
    } else if left.outcome != right.outcome {
        Some(HeadlessTraceFieldV1::Outcome)
    } else if left.captured != right.captured {
        Some(HeadlessTraceFieldV1::Captured)
    } else if left.published != right.published {
        Some(HeadlessTraceFieldV1::Published)
    } else if left.target != right.target {
        Some(HeadlessTraceFieldV1::Target)
    } else if left.frame != right.frame {
        Some(HeadlessTraceFieldV1::Frame)
    } else if left.control != right.control {
        Some(HeadlessTraceFieldV1::Control)
    } else if left.surface.width != right.surface.width {
        Some(HeadlessTraceFieldV1::SurfaceWidth)
    } else if left.surface.height != right.surface.height {
        Some(HeadlessTraceFieldV1::SurfaceHeight)
    } else if left.counts@.computed_styles != right.counts@.computed_styles {
        Some(HeadlessTraceFieldV1::ComputedStyles)
    } else if left.counts@.geometries != right.counts@.geometries {
        Some(HeadlessTraceFieldV1::Geometries)
    } else if left.counts@.semantics != right.counts@.semantics {
        Some(HeadlessTraceFieldV1::Semantics)
    } else if left.counts@.hit_regions != right.counts@.hit_regions {
        Some(HeadlessTraceFieldV1::HitRegions)
    } else if left.counts@.scene_rectangles != right.counts@.scene_rectangles {
        Some(HeadlessTraceFieldV1::SceneRectangles)
    } else if left.deferred.items != right.deferred.items {
        Some(HeadlessTraceFieldV1::DeferredItems)
    } else if left.deferred.bytes != right.deferred.bytes {
        Some(HeadlessTraceFieldV1::DeferredBytes)
    } else if left.controls.items != right.controls.items {
        Some(HeadlessTraceFieldV1::ControlItems)
    } else if left.controls.bytes != right.controls.bytes {
        Some(HeadlessTraceFieldV1::ControlBytes)
    } else if left.visual.items != right.visual.items {
        Some(HeadlessTraceFieldV1::VisualItems)
    } else if left.visual.bytes != right.visual.bytes {
        Some(HeadlessTraceFieldV1::VisualBytes)
    } else if left.in_flight.items != right.in_flight.items {
        Some(HeadlessTraceFieldV1::InFlightItems)
    } else if left.in_flight.bytes != right.in_flight.bytes {
        Some(HeadlessTraceFieldV1::InFlightBytes)
    } else if left.renderer.items != right.renderer.items {
        Some(HeadlessTraceFieldV1::RendererItems)
    } else if left.renderer.bytes != right.renderer.bytes {
        Some(HeadlessTraceFieldV1::RendererBytes)
    } else {
        None
    }
}

/// Two headless events differ on no wire field exactly when they are equal:
/// every field, the published generation and each ledger among them, is
/// compared.
pub proof fn lemma_headless_field_exact(left: &TraceEventRecordV1, right: &TraceEventRecordV1)
    ensures
        headless_field_spec(left, right) is None <==> *left == *right,
{
    lemma_counts_view_injective(left.counts, right.counts);
}

/// Returns the first wire-order field on which two headless events differ.
pub fn headless_event_field(left: &TraceEventRecordV1, right: &TraceEventRecordV1) -> (field:
    Option<HeadlessTraceFieldV1>)
    ensures
        field == headless_field_spec(left, right),
        field is None <==> *left == *right,
{
    proof {
        lemma_headless_field_exact(left, right);
    }
    if left.schema != right.schema {
        Some(HeadlessTraceFieldV1::Schema)
    } else if left.sequence != right.sequence {
        Some(HeadlessTraceFieldV1::Sequence)
    } else if left.domain != right.domain {
        Some(HeadlessTraceFieldV1::Domain)
    } else if left.tick != right.tick {
        Some(HeadlessTraceFieldV1::Tick)
    } else if left.stage != right.stage {
        Some(HeadlessTraceFieldV1::Stage)
    } else if left.input != right.input {
        Some(HeadlessTraceFieldV1::Input)
    } else if left.outcome != right.outcome {
        Some(HeadlessTraceFieldV1::Outcome)
    } else if left.captured != right.captured {
        Some(HeadlessTraceFieldV1::Captured)
    } else if left.published != right.published {
        Some(HeadlessTraceFieldV1::Published)
    } else if left.target != right.target {
        Some(HeadlessTraceFieldV1::Target)
    } else if left.frame != right.frame {
        Some(HeadlessTraceFieldV1::Frame)
    } else if left.control != right.control {
        Some(HeadlessTraceFieldV1::Control)
    } else if left.surface.width != right.surface.width {
        Some(HeadlessTraceFieldV1::SurfaceWidth)
    } else if left.surface.height != right.surface.height {
        Some(HeadlessTraceFieldV1::SurfaceHeight)
    } else if left.counts.computed_styles() != right.counts.computed_styles() {
        Some(HeadlessTraceFieldV1::ComputedStyles)
    } else if left.counts.geometries() != right.counts.geometries() {
        Some(HeadlessTraceFieldV1::Geometries)
    } else if left.counts.semantics() != right.counts.semantics() {
        Some(HeadlessTraceFieldV1::Semantics)
    } else if left.counts.hit_regions() != right.counts.hit_regions() {
        Some(HeadlessTraceFieldV1::HitRegions)
    } else if left.counts.scene_rectangles() != right.counts.scene_rectangles() {
        Some(HeadlessTraceFieldV1::SceneRectangles)
    } else if left.deferred.items != right.deferred.items {
        Some(HeadlessTraceFieldV1::DeferredItems)
    } else if left.deferred.bytes != right.deferred.bytes {
        Some(HeadlessTraceFieldV1::DeferredBytes)
    } else if left.controls.items != right.controls.items {
        Some(HeadlessTraceFieldV1::ControlItems)
    } else if left.controls.bytes != right.controls.bytes {
        Some(HeadlessTraceFieldV1::ControlBytes)
    } else if left.visual.items != right.visual.items {
        Some(HeadlessTraceFieldV1::VisualItems)
    } else if left.visual.bytes != right.visual.bytes {
        Some(HeadlessTraceFieldV1::VisualBytes)
    } else if left.in_flight.items != right.in_flight.items {
        Some(HeadlessTraceFieldV1::InFlightItems)
    } else if left.in_flight.bytes != right.in_flight.bytes {
        Some(HeadlessTraceFieldV1::InFlightBytes)
    } else if left.renderer.items != right.renderer.items {
        Some(HeadlessTraceFieldV1::RendererItems)
    } else if left.renderer.bytes != right.renderer.bytes {
        Some(HeadlessTraceFieldV1::RendererBytes)
    } else {
        None
    }
}

/// The first wire-order field on which two scheduler events differ.
pub open spec fn scheduler_field_spec(
    left: &SchedulerEventRecordV1,
    right: &SchedulerEventRecordV1,
) -> Option<SchedulerTraceFieldV1> {
    if left.schema != right.schema {
        Some(SchedulerTraceFieldV1::Schema)
    } else if left.sequence != right.sequence {
        Some(SchedulerTraceFieldV1::Sequence)
    } else if left.domain != right.domain {
        Some(SchedulerTraceFieldV1::Domain)
    } else if left.tick != right.tick {
        Some(SchedulerTraceFieldV1::Tick)
    } else if left.step != right.step {
        Some(SchedulerTraceFieldV1::Step)
    } else if left.lifecycle != right.lifecycle {
        Some(SchedulerTraceFieldV1::Lifecycle)
    } else if left.generation != right.generation {
        Some(SchedulerTraceFieldV1::Generation)
    } else if left.frame != right.frame {
        Some(SchedulerTraceFieldV1::Frame)
    } else if left.control != right.control {
        Some(SchedulerTraceFieldV1::Control)
    } else if left.deferred.items != right.deferred.items {
        Some(SchedulerTraceFieldV1::DeferredItems)
    } else if left.deferred.bytes != right.deferred.bytes {
        Some(SchedulerTraceFieldV1::DeferredBytes)
    } else if left.deferred.residence != right.deferred.residence {
        Some(SchedulerTraceFieldV1::DeferredResidence)
    } else if left.controls.items != right.controls.items {
        Some(SchedulerTraceFieldV1::ControlItems)
    } else if left.controls.bytes != right.controls.bytes {
        Some(SchedulerTraceFieldV1::ControlBytes)
    } else if left.controls.residence != right.controls.residence {
        Some(SchedulerTraceFieldV1::ControlResidence)
    } else if left.visual.items != right.visual.items {
        Some(SchedulerTraceFieldV1::VisualItems)
    } else if left.visual.bytes != right.visual.bytes {
        Some(SchedulerTraceFieldV1::VisualBytes)
    } else if left.visual.residence != right.visual.residence {
        Some(SchedulerTraceFieldV1::VisualResidence)
    } else if left.in_flight.items != right.in_flight.items {
        Some(SchedulerTraceFieldV1::InFlightItems)
    } else if left.in_flight.bytes != right.in_flight.bytes {
        Some(SchedulerTraceFieldV1::InFlightBytes)
    } else if left.in_flight.residence != right.in_flight.residence {
        Some(SchedulerTraceFieldV1::InFlightResidence)
    } else if left.renderer.items != right.renderer.items {
        Some(SchedulerTraceFieldV1::RendererItems)
    } else if left.renderer.bytes != right.renderer.bytes {
        Some(SchedulerTraceFieldV1::RendererBytes)
    } else if left.renderer.residence != right.renderer.residence {
        Some(SchedulerTraceFieldV1::RendererResidence)
    } else if left.renderer.last != right.renderer.last {
        Some(SchedulerTraceFieldV1::RendererLast)
    } else if left.renderer.completed != right.renderer.completed {
        Some(SchedulerTraceFieldV1::RendererCompleted)
    } else if left.renderer.pending != right.renderer.pending {
        Some(SchedulerTraceFieldV1::RendererPending)
    } else {
        None
    }
}

/// Two scheduler events differ on no wire field exactly when they are equal.
pub proof fn lemma_scheduler_field_exact(
    left: &SchedulerEventRecordV1,
    right: &SchedulerEventRecordV1,
)
    ensures
        scheduler_field_spec(left, right) is None <==> *left == *right,
{
}

/// Returns the first wire-order field on which two scheduler events differ.
pub fn scheduler_event_field(
    left: &SchedulerEventRecordV1,
    right: &SchedulerEventRecordV1,
) -> (field: Option<SchedulerTraceFieldV1>)
    ensures
        field == scheduler_field_spec(left, right),
        field is None <==> *left == *right,
{
    proof {
        lemma_scheduler_field_exact(left, right);
    }
    if left.schema != right.schema {
        Some(SchedulerTraceFieldV1::Schema)
    } else if left.sequence != right.sequence {
        Some(SchedulerTraceFieldV1::Sequence)
    } else if left.domain != right.domain {
        Some(SchedulerTraceFieldV1::Domain)
    } else if left.tick != right.tick {
        Some(SchedulerTraceFieldV1::Tick)
    } else if left.step != right.step {
        Some(SchedulerTraceFieldV1::Step)
    } else if left.lifecycle != right.lifecycle {
        Some(SchedulerTraceFieldV1::Lifecycle)
    } else if left.generation != right.generation {
        Some(SchedulerTraceFieldV1::Generation)
    } else if left.frame != right.frame {
        Some(SchedulerTraceFieldV1::Frame)
    } else if left.control != right.control {
        Some(SchedulerTraceFieldV1::Control)
    } else if left.deferred.items != right.deferred.items {
        Some(SchedulerTraceFieldV1::DeferredItems)
    } else if left.deferred.bytes != right.deferred.bytes {
        Some(SchedulerTraceFieldV1::DeferredBytes)
    } else if left.deferred.residence != right.deferred.residence {
        Some(SchedulerTraceFieldV1::DeferredResidence)
    } else if left.controls.items != right.controls.items {
        Some(SchedulerTraceFieldV1::ControlItems)
    } else if left.controls.bytes != right.controls.bytes {
        Some(SchedulerTraceFieldV1::ControlBytes)
    } else if left.controls.residence != right.controls.residence {
        Some(SchedulerTraceFieldV1::ControlResidence)
    } else if left.visual.items != right.visual.items {
        Some(SchedulerTraceFieldV1::VisualItems)
    } else if left.visual.bytes != right.visual.bytes {
        Some(SchedulerTraceFieldV1::VisualBytes)
    } else if left.visual.residence != right.visual.residence {
        Some(SchedulerTraceFieldV1::VisualResidence)
    } else if left.in_flight.items != right.in_flight.items {
        Some(SchedulerTraceFieldV1::InFlightItems)
    } else if left.in_flight.bytes != right.in_flight.bytes {
        Some(SchedulerTraceFieldV1::InFlightBytes)
    } else if left.in_flight.residence != right.in_flight.residence {
        Some(SchedulerTraceFieldV1::InFlightResidence)
    } else if left.renderer.items != right.renderer.items {
        Some(SchedulerTraceFieldV1::RendererItems)
    } else if left.renderer.bytes != right.renderer.bytes {
        Some(SchedulerTraceFieldV1::RendererBytes)
    } else if left.renderer.residence != right.renderer.residence {
        Some(SchedulerTraceFieldV1::RendererResidence)
    } else if left.renderer.last != right.renderer.last {
        Some(SchedulerTraceFieldV1::RendererLast)
    } else if left.renderer.completed != right.renderer.completed {
        Some(SchedulerTraceFieldV1::RendererCompleted)
    } else if left.renderer.pending != right.renderer.pending {
        Some(SchedulerTraceFieldV1::RendererPending)
    } else {
        None
    }
}

/// A stored trace event whose fields compare in a fixed order.
pub trait TraceRecordV1: Sized {
    type Field: Copy;

    /// The first field on which two events differ.
    spec fn spec_field(&self, other: &Self) -> Option<Self::Field>;

    /// The field that reports traces of different lengths.
    spec fn spec_cardinality() -> Self::Field;

    /// Two events differ on no field exactly when they are equal.
    proof fn lemma_field_exact(&self, other: &Self)
        ensures
            self.spec_field(other) is None <==> *self == *other,
    ;

    /// Returns the first field on which two events differ.
    fn event_field(&self, other: &Self) -> (field: Option<Self::Field>)
        ensures
            field == self.spec_field(other),
    ;

    /// Returns the field that reports traces of different lengths.
    fn cardinality() -> (field: Self::Field)
        ensures
            field == Self::spec_cardinality(),
    ;
}

impl TraceRecordV1 for TraceEventRecordV1 {
    type Field = HeadlessTraceFieldV1;

    open spec fn spec_field(&self, other: &Self) -> Option<HeadlessTraceFieldV1> {
        headless_field_spec(self, other)
    }

    proof fn lemma_field_exact(&self, other: &Self) {
        lemma_headless_field_exact(self, other);
    }

    open spec fn spec_cardinality() -> HeadlessTraceFieldV1 {
        HeadlessTraceFieldV1::Cardinality
    }

    fn event_field(&self, other: &Self) -> (field: Option<HeadlessTraceFieldV1>) {
        headless_event_field(self, other)
    }

    fn cardinality() -> (field: HeadlessTraceFieldV1) {
        HeadlessTraceFieldV1::Cardinality
    }
}

impl TraceRecordV1 for SchedulerEventRecordV1 {
    type Field = SchedulerTraceFieldV1;

    open spec fn spec_field(&self, other: &Self) -> Option<SchedulerTraceFieldV1> {
        scheduler_field_spec(self, other)
    }

    proof fn lemma_field_exact(&self, other: &Self) {
        lemma_scheduler_field_exact(self, other);
    }

    open spec fn spec_cardinality() -> SchedulerTraceFieldV1 {
        SchedulerTraceFieldV1::Cardinality
    }

    fn event_field(&self, other: &Self) -> (field: Option<SchedulerTraceFieldV1>) {
        scheduler_event_field(self, other)
    }

    fn cardinality() -> (field: SchedulerTraceFieldV1) {
        SchedulerTraceFieldV1::Cardinality
    }
}

/// The first differing event of two traces and the field that differs.
#[derive(Clone, Copy, Debug, PartialEq, Eq)]
pub struct TraceDifferenceV1<Field> {
    pub index: usize,
    pub field: Field,
}

/// The shorter of two traces' lengths.
pub open spec fn shorter_len<T>(stored: Seq<T>, expected: Seq<T>) -> int {
    if stored.len() <= expected.len() {
        stored.len() as int
    } else {
        expected.len() as int
    }
}

/// The first index at or after `index`, below the shorter length, where two
/// traces' events differ.
pub open spec fn first_event_difference_from<T: TraceRecordV1>(
    stored: Seq<T>,
    expected: Seq<T>,
    index: int,
) -> Option<int>
    decreases shorter_len(stored, expected) - index,
{
    if 0 <= index < shorter_len(stored, expected) {
        if stored[index].spec_field(&expected[index]) is Some {
            Some(index)
        } else {
            first_event_difference_from(stored, expected, index + 1)
        }
    } else {
        None
    }
}

/// The first difference of two traces: the first pair of events that differ,
/// else a cardinality difference at the shorter length when the lengths differ.
pub open spec fn trace_difference<T: TraceRecordV1>(stored: Seq<T>, expected: Seq<T>) -> Option<
    (int, T::Field),
> {
    match first_event_difference_from(stored, expected, 0) {
        Some(index) => Some((index, stored[index].spec_field(&expected[index]).unwrap())),
        None => if stored.len() != expected.len() {
            Some((shorter_len(stored, expected), T::spec_cardinality()))
        } else {
            None
        },
    }
}

proof fn lemma_no_event_difference_from<T: TraceRecordV1>(
    stored: Seq<T>,
    expected: Seq<T>,
    index: int,
)
    requires
        0 <= index,
    ensures
        first_event_difference_from(stored, expected, index) is None <==> forall|i: int|
            index <= i < shorter_len(stored, expected) ==> #[trigger] stored[i].spec_field(
                &expected[i],
            ) is None,
    decreases shorter_len(stored, expected) - index,
{
    if index < shorter_len(stored, expected) {
        lemma_no_event_difference_from(stored, expected, index + 1);
    }
}

/// Two traces have no difference exactly when they hold the same events in
/// the same order.
pub proof fn lemma_trace_difference_none<T: TraceRecordV1>(stored: Seq<T>, expected: Seq<T>)
    ensures
        trace_difference(stored, expected) is None <==> stored == expected,
{
    lemma_no_event_difference_from(stored, expected, 0);
    if trace_difference(stored, expected) is None {
        assert forall|i: int| 0 <= i < stored.len() implies stored[i] == expected[i] by {
            assert(stored[i].spec_field(&expected[i]) is None);
            stored[i].lemma_field_exact(&expected[i]);
        }
        assert(stored =~= expected);
    }
    if stored == expected {
        assert forall|i: int|
            0 <= i < shorter_len(stored, expected) implies #[trigger] stored[i].spec_field(
            &expected[i],
        ) is None by {
            stored[i].lemma_field_exact(&expected[i]);
        }
    }
}

/// Returns the first difference between a stored and an expected trace.
pub fn first_trace_difference<T: TraceRecordV1>(stored: &[T], expected: &[T]) -> (difference:
    Option<TraceDifferenceV1<T::Field>>)
    ensures
        match difference {
            Some(found) => trace_difference(stored@, expected@) == Some(
                (found.index as int, found.field),
            ),
            None => trace_difference(stored@, expected@) is None,
        },
{
    let count = if stored.len() <= expected.len() {
        stored.len()
    } else {
        expected.len()
    };
    let mut index: usize = 0;
    while index < count
        invariant
            index <= count,
            count == shorter_len(stored@, expected@),
            first_event_difference_from(stored@, expected@, 0) == first_event_difference_from(
                stored@,
                expected@,
                index as int,
            ),
        decreases count - index,
    {
        match stored[index].event_field(&expected[index]) {
            Some(field) => {
                return Some(TraceDifferenceV1 { index, field });
            },
            None => {},
        }
        index = index + 1;
    }
    if stored.len() != expected.len() {
        Some(TraceDifferenceV1 { index: count, field: T::cardinality() })
    } else {
        None
    }
}

/// Returns the first difference between two headless traces.
pub fn first_headless_difference_v1(
    stored: &[TraceEventRecordV1],
    expected: &[TraceEventRecordV1],
) -> (difference: Option<TraceDifferenceV1<HeadlessTraceFieldV1>>)
    ensures
        match difference {
            Some(found) => trace_difference(stored@, expected@) == Some(
                (found.index as int, found.field),
            ),
            None => trace_difference(stored@, expected@) is None,
        },
        difference is None <==> stored@ == expected@,
{
    proof {
        lemma_trace_difference_none(stored@, expected@);
    }
    first_trace_difference(stored, expected)
}

/// Returns the first difference between two scheduler traces.
pub fn first_scheduler_difference_v1(
    stored: &[SchedulerEventRecordV1],
    expected: &[SchedulerEventRecordV1],
) -> (difference: Option<TraceDifferenceV1<SchedulerTraceFieldV1>>)
    ensures
        match difference {
            Some(found) => trace_difference(stored@, expected@) == Some(
                (found.index as int, found.field),
            ),
            None => trace_difference(stored@, expected@) is None,
        },
        difference is None <==> stored@ == expected@,
{
    proof {
        lemma_trace_difference_none(stored@, expected@);
    }
    first_trace_difference(stored, expected)
}

} // verus!
