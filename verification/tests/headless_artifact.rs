use std::cell::Cell;

use fenestra_ui_testkit::case::{InputPolicy, Rgba8};
use fenestra_ui_testkit::headless::artifact::compare::{
    HeadlessTraceFieldV1, SchedulerTraceFieldV1, first_headless_difference_v1,
    first_scheduler_difference_v1, headless_event_field, scheduler_event_field,
};
use fenestra_ui_testkit::headless::artifact::model::{
    ActionRecordV1, ArtifactCapacitiesV1, ArtifactMetadataV1, ArtifactProjectionV1,
    HeadlessArtifactV1, LaneRecordV1, LedgerRecordV1, RendererRecordV1, SchedulerEventRecordV1,
    SchedulerState, StepRecordV1, TraceEventRecordV1,
};
use fenestra_ui_testkit::headless::artifact::verify::{
    HeadlessArtifactCapacityKindV1, HeadlessArtifactVerificationErrorKindV1 as Kind,
    first_projection_difference_v1, verify_against_v1, verify_with_fresh_v1,
};
use fenestra_ui_testkit::headless::geometry::{
    HeadlessRect, HeadlessSemanticAction, HeadlessSemanticRole, HeadlessSurface,
};
use fenestra_ui_testkit::headless::oracle::{
    HeadlessMismatchFieldV1 as Field, HeadlessMismatchKindV1, NormalizedHeadlessComputedStyleV1,
    NormalizedHeadlessGeometryV1, NormalizedHeadlessHitRegionV1,
    NormalizedHeadlessSceneRectangleV1, NormalizedHeadlessSemanticV1,
};
use fenestra_ui_testkit::headless::platform::HeadlessPointerTargetV1;
use fenestra_ui_testkit::headless::runner::HeadlessResultV1;
use fenestra_ui_testkit::headless::trace::{
    HeadlessFailureCauseV1, HeadlessInputKindV1, HeadlessOutcomeV1,
    HeadlessTraceProjectionCountsV1, HeadlessTraceStageV1,
};
use fenestra_ui_testkit::scheduler::FakeClockDomainV1;
use fenestra_ui_testkit::semantic::NodePathV1;

fn ledger(items: usize, bytes: usize) -> LedgerRecordV1 {
    LedgerRecordV1 { items, bytes }
}

fn lane(items: usize, bytes: usize) -> LaneRecordV1 {
    LaneRecordV1 { items, bytes, residence: None }
}

fn headless_event(sequence: u64) -> TraceEventRecordV1 {
    TraceEventRecordV1 {
        schema: 1,
        sequence,
        domain: FakeClockDomainV1::new(8001),
        tick: sequence,
        stage: HeadlessTraceStageV1::Build,
        input: HeadlessInputKindV1::Absent,
        outcome: HeadlessOutcomeV1::Observed,
        captured: None,
        published: None,
        target: HeadlessPointerTargetV1::Absent,
        frame: None,
        control: None,
        surface: HeadlessSurface::new(64, 48),
        counts: HeadlessTraceProjectionCountsV1::new(3, 3, 1, 2, 3),
        deferred: ledger(0, 0),
        controls: ledger(0, 0),
        visual: ledger(0, 0),
        in_flight: ledger(0, 0),
        renderer: ledger(0, 0),
    }
}

fn scheduler_event(sequence: u64) -> SchedulerEventRecordV1 {
    SchedulerEventRecordV1 {
        schema: 1,
        sequence,
        domain: FakeClockDomainV1::new(8001),
        tick: sequence,
        step: StepRecordV1::Action(ActionRecordV1::Idle),
        lifecycle: SchedulerState::Running,
        generation: 0,
        frame: None,
        control: None,
        deferred: lane(0, 0),
        controls: lane(0, 0),
        visual: lane(0, 0),
        in_flight: lane(0, 0),
        renderer: RendererRecordV1 {
            items: 0,
            bytes: 0,
            residence: None,
            last: None,
            completed: 0,
            pending: false,
        },
    }
}

fn control_path() -> NodePathV1 {
    NodePathV1::root().static_child(0).static_child(0)
}

fn item_path(key: u64) -> NodePathV1 {
    NodePathV1::root().static_child(0).member(1, key)
}

fn computed(path: NodePathV1, width: i32, height: i32) -> NormalizedHeadlessComputedStyleV1 {
    NormalizedHeadlessComputedStyleV1 {
        path,
        width,
        height,
        color: Rgba8(10, 20, 30, 255),
        visible: true,
        input: InputPolicy::Accept,
    }
}

fn canonical_artifact() -> HeadlessArtifactV1 {
    let paths = [NodePathV1::root(), control_path(), item_path(7)];
    HeadlessArtifactV1 {
        metadata: ArtifactMetadataV1::registered(),
        capacities: ArtifactCapacitiesV1::registered(),
        result: HeadlessResultV1::Pass,
        projection: ArtifactProjectionV1 {
            computed: paths.iter().map(|path| computed(path.clone(), 64, 16)).collect(),
            geometry: paths
                .iter()
                .map(|path| NormalizedHeadlessGeometryV1 {
                    path: path.clone(),
                    bounds: HeadlessRect::new(0, 0, 64, 16),
                    clip: HeadlessRect::new(0, 0, 64, 16),
                })
                .collect(),
            semantics: vec![NormalizedHeadlessSemanticV1 {
                path: control_path(),
                role: HeadlessSemanticRole::Control,
                label: 1,
                action: HeadlessSemanticAction::Activate,
            }],
            hits: paths[1..]
                .iter()
                .map(|path| NormalizedHeadlessHitRegionV1 {
                    path: path.clone(),
                    clip: HeadlessRect::new(0, 16, 64, 16),
                })
                .collect(),
            scene: paths
                .iter()
                .map(|path| NormalizedHeadlessSceneRectangleV1 {
                    path: path.clone(),
                    rectangle: HeadlessRect::new(0, 0, 64, 16),
                    color: Rgba8(10, 20, 30, 255),
                })
                .collect(),
        },
        headless_events: vec![headless_event(0), headless_event(1), headless_event(2)],
        scheduler_events: vec![scheduler_event(0), scheduler_event(1), scheduler_event(2)],
    }
}

fn assert_projection_field(
    stored: &HeadlessArtifactV1,
    expected: &HeadlessArtifactV1,
    kind: HeadlessMismatchKindV1,
    index: usize,
    field: Field,
) {
    let mismatch = first_projection_difference_v1(&stored.projection, &expected.projection)
        .expect("the projections should differ");
    assert_eq!(mismatch.kind(), kind);
    assert_eq!(mismatch.index(), index);
    assert_eq!(mismatch.field(), field);
}

fn changed_rect(rectangle: HeadlessRect) -> HeadlessRect {
    HeadlessRect::new(
        rectangle.x().wrapping_add(1),
        rectangle.y(),
        rectangle.width(),
        rectangle.height(),
    )
}

fn other_input(input: InputPolicy) -> InputPolicy {
    match input {
        InputPolicy::Accept => InputPolicy::Ignore,
        InputPolicy::Ignore => InputPolicy::Accept,
    }
}

#[test]
fn replay_failure_preserves_every_closed_cause() {
    let artifact = canonical_artifact();
    for cause in [
        HeadlessFailureCauseV1::Runtime,
        HeadlessFailureCauseV1::Projection,
        HeadlessFailureCauseV1::Oracle,
        HeadlessFailureCauseV1::Scheduler,
        HeadlessFailureCauseV1::Renderer,
        HeadlessFailureCauseV1::Trace,
    ] {
        let error = verify_with_fresh_v1(&artifact, || Err(cause))
            .expect_err("injected replay failure should be reported");
        assert_eq!(error.kind(), Kind::ReplayFailed(cause));
        assert_eq!(error.index(), None);
    }
}

#[test]
fn preflight_precedes_replay_and_replay_precedes_result() {
    let canonical = canonical_artifact();
    let called = Cell::new(false);
    let mut fixture = canonical.clone();
    fixture.metadata.fixture_revision += 1;
    let error = verify_with_fresh_v1(&fixture, || {
        called.set(true);
        Err(HeadlessFailureCauseV1::Trace)
    })
    .expect_err("fixture mismatch should precede replay");
    assert_eq!(error.kind(), Kind::FixtureMismatch);
    assert!(!called.get());

    let called = Cell::new(false);
    let mut capacity = canonical.clone();
    capacity.capacities.style -= 1;
    let error = verify_with_fresh_v1(&capacity, || {
        called.set(true);
        Err(HeadlessFailureCauseV1::Trace)
    })
    .expect_err("capacity mismatch should precede replay");
    assert_eq!(
        error.kind(),
        Kind::CapacityMismatch(HeadlessArtifactCapacityKindV1::Style)
    );
    assert!(!called.get());

    let mut result = canonical;
    result.result = HeadlessResultV1::Adapt;
    let error = verify_with_fresh_v1(&result, || Err(HeadlessFailureCauseV1::Renderer))
        .expect_err("replay failure should precede the stored result");
    assert_eq!(
        error.kind(),
        Kind::ReplayFailed(HeadlessFailureCauseV1::Renderer)
    );
}

#[test]
fn computed_fields_follow_path_then_wire_payload_order() {
    let expected = canonical_artifact();
    let mut stored = expected.clone();
    let original = expected.projection.computed[0].clone();
    {
        let record = &mut stored.projection.computed[0];
        record.path = record.path.clone().static_child(9);
        record.width += 1;
        record.height += 1;
        record.color.0 ^= 1;
        record.visible = !record.visible;
        record.input = other_input(record.input);
    }
    let kind = HeadlessMismatchKindV1::ComputedStyle;
    assert_projection_field(&stored, &expected, kind, 0, Field::Path);

    stored.projection.computed[0].path = original.path.clone();
    assert_projection_field(&stored, &expected, kind, 0, Field::Width);
    stored.projection.computed[0].width = original.width;
    assert_projection_field(&stored, &expected, kind, 0, Field::Height);
    stored.projection.computed[0].height = original.height;
    assert_projection_field(&stored, &expected, kind, 0, Field::Color);
    stored.projection.computed[0].color = original.color;
    assert_projection_field(&stored, &expected, kind, 0, Field::Visible);
    stored.projection.computed[0].visible = original.visible;
    assert_projection_field(&stored, &expected, kind, 0, Field::Input);
}

#[test]
fn geometry_semantic_hit_and_scene_fields_have_typed_priority() {
    let expected = canonical_artifact();

    let mut geometry = expected.clone();
    let original_geometry = expected.projection.geometry[0].clone();
    geometry.projection.geometry[0].bounds = changed_rect(original_geometry.bounds);
    geometry.projection.geometry[0].clip = changed_rect(original_geometry.clip);
    assert_projection_field(
        &geometry,
        &expected,
        HeadlessMismatchKindV1::Geometry,
        0,
        Field::Bounds,
    );
    geometry.projection.geometry[0].bounds = original_geometry.bounds;
    assert_projection_field(
        &geometry,
        &expected,
        HeadlessMismatchKindV1::Geometry,
        0,
        Field::Clip,
    );

    let mut semantic = expected.clone();
    let original_semantic = expected.projection.semantics[0].clone();
    semantic.projection.semantics[0].path = original_semantic.path.clone().static_child(9);
    semantic.projection.semantics[0].label = original_semantic.label.wrapping_add(1);
    assert_projection_field(
        &semantic,
        &expected,
        HeadlessMismatchKindV1::Semantics,
        0,
        Field::Path,
    );
    semantic.projection.semantics[0].path = original_semantic.path;
    assert_projection_field(
        &semantic,
        &expected,
        HeadlessMismatchKindV1::Semantics,
        0,
        Field::Label,
    );

    let mut hit = expected.clone();
    hit.projection.hits[0].clip = changed_rect(hit.projection.hits[0].clip);
    assert_projection_field(&hit, &expected, HeadlessMismatchKindV1::HitRegions, 0, Field::Clip);

    let mut scene = expected.clone();
    let original_scene = expected.projection.scene[0].clone();
    scene.projection.scene[0].rectangle = changed_rect(original_scene.rectangle);
    scene.projection.scene[0].color.0 ^= 1;
    assert_projection_field(
        &scene,
        &expected,
        HeadlessMismatchKindV1::SceneRectangles,
        0,
        Field::Rectangle,
    );
    scene.projection.scene[0].rectangle = original_scene.rectangle;
    assert_projection_field(
        &scene,
        &expected,
        HeadlessMismatchKindV1::SceneRectangles,
        0,
        Field::Color,
    );
}

#[test]
fn family_order_and_cardinality_are_typed() {
    let expected = canonical_artifact();
    let mut stored = expected.clone();
    stored.projection.computed[0].width += 1;
    stored.projection.geometry[0].bounds = changed_rect(stored.projection.geometry[0].bounds);
    stored.projection.semantics[0].label = expected.projection.semantics[0].label.wrapping_add(1);
    stored.projection.hits[0].clip = changed_rect(stored.projection.hits[0].clip);
    stored.projection.scene[0].rectangle = changed_rect(stored.projection.scene[0].rectangle);
    assert_projection_field(
        &stored,
        &expected,
        HeadlessMismatchKindV1::ComputedStyle,
        0,
        Field::Width,
    );

    let mut shorter = expected.clone();
    let index = shorter.projection.scene.len() - 1;
    shorter.projection.scene.pop();
    assert_projection_field(
        &shorter,
        &expected,
        HeadlessMismatchKindV1::SceneRectangles,
        index,
        Field::Path,
    );
}

#[test]
fn headless_fields_follow_flat_wire_order() {
    let artifact = canonical_artifact();
    let left = artifact.headless_events[0];
    let mut right = left;
    right.renderer.bytes = right.renderer.bytes.saturating_add(1);
    right.surface = HeadlessSurface::new(
        right.surface.width().saturating_add(1),
        right.surface.height().saturating_add(1),
    );
    right.input = HeadlessInputKindV1::Pointer;
    right.stage = HeadlessTraceStageV1::Input;

    assert_eq!(
        headless_event_field(&left, &right),
        Some(HeadlessTraceFieldV1::Stage)
    );

    right.stage = left.stage;
    assert_eq!(
        headless_event_field(&left, &right),
        Some(HeadlessTraceFieldV1::Input)
    );

    right.input = left.input;
    assert_eq!(
        headless_event_field(&left, &right),
        Some(HeadlessTraceFieldV1::SurfaceWidth)
    );
}

#[test]
fn headless_aggregate_fields_preserve_wire_priority() {
    let artifact = canonical_artifact();
    let left = artifact.headless_events[0];
    let mut right = left;
    let counts = left.counts;
    right.counts = HeadlessTraceProjectionCountsV1::new(
        counts.computed_styles().saturating_add(1),
        counts.geometries().saturating_add(1),
        counts.semantics().saturating_add(1),
        counts.hit_regions().saturating_add(1),
        counts.scene_rectangles().saturating_add(1),
    );
    right.deferred.items = right.deferred.items.saturating_add(1);

    assert_eq!(
        headless_event_field(&left, &right),
        Some(HeadlessTraceFieldV1::ComputedStyles)
    );

    right.counts = left.counts;
    right.deferred.bytes = right.deferred.bytes.saturating_add(1);
    assert_eq!(
        headless_event_field(&left, &right),
        Some(HeadlessTraceFieldV1::DeferredItems)
    );
}

#[test]
fn scheduler_fields_follow_flat_wire_order() {
    let artifact = canonical_artifact();
    let left = artifact.scheduler_events[0];
    let mut right = left;
    right.renderer.pending = !right.renderer.pending;
    right.generation = right.generation.saturating_add(1);
    right.lifecycle = SchedulerState::Faulted;

    assert_eq!(
        scheduler_event_field(&left, &right),
        Some(SchedulerTraceFieldV1::Lifecycle)
    );

    right.step = StepRecordV1::Action(ActionRecordV1::RequestFrame);
    assert_eq!(
        scheduler_event_field(&left, &right),
        Some(SchedulerTraceFieldV1::Step)
    );
}

#[test]
fn scheduler_lane_fields_precede_renderer_fields() {
    let artifact = canonical_artifact();
    let left = artifact.scheduler_events[0];
    let mut right = left;
    right.renderer.items = right.renderer.items.saturating_add(1);
    right.deferred.residence = Some(0);
    right.deferred.bytes = right.deferred.bytes.saturating_add(1);

    assert_eq!(
        scheduler_event_field(&left, &right),
        Some(SchedulerTraceFieldV1::DeferredBytes)
    );
}

#[test]
fn trace_cardinality_uses_the_shorter_length() {
    let artifact = canonical_artifact();
    let headless_count = artifact.headless_events.len();
    let scheduler_count = artifact.scheduler_events.len();
    assert!(headless_count > 1);
    assert!(scheduler_count > 1);

    let headless = first_headless_difference_v1(
        &artifact.headless_events[..headless_count - 1],
        &artifact.headless_events,
    )
    .expect("headless cardinality should differ");
    assert_eq!(headless.index, headless_count - 1);
    assert_eq!(headless.field, HeadlessTraceFieldV1::Cardinality);

    let scheduler = first_scheduler_difference_v1(
        &artifact.scheduler_events,
        &artifact.scheduler_events[..scheduler_count - 1],
    )
    .expect("scheduler cardinality should differ");
    assert_eq!(scheduler.index, scheduler_count - 1);
    assert_eq!(scheduler.field, SchedulerTraceFieldV1::Cardinality);
}

#[test]
fn an_identical_fresh_artifact_verifies() {
    let artifact = canonical_artifact();
    assert_eq!(verify_with_fresh_v1(&artifact, || Ok(canonical_artifact())), Ok(()));
}

#[test]
fn a_different_fresh_result_is_a_result_mismatch() {
    let artifact = canonical_artifact();
    let mut fresh = canonical_artifact();
    fresh.result = HeadlessResultV1::Stop;
    let error = verify_with_fresh_v1(&artifact, || Ok(fresh)).expect_err("results differ");
    assert_eq!(error.kind(), Kind::ResultMismatch);
    assert_eq!(error.index(), None);
}

#[test]
fn trace_differences_are_located_after_the_projection() {
    let expected = canonical_artifact();
    let mut stored = expected.clone();
    stored.scheduler_events[2].generation = 9;
    stored.headless_events[1].tick = 7;
    let error = verify_against_v1(&stored, &expected).expect_err("headless trace differs");
    assert_eq!(error.kind(), Kind::HeadlessTraceMismatch);
    assert_eq!(error.index(), Some(1));

    stored.headless_events[1].tick = expected.headless_events[1].tick;
    let error = verify_against_v1(&stored, &expected).expect_err("scheduler trace differs");
    assert_eq!(error.kind(), Kind::SchedulerTraceMismatch);
    assert_eq!(error.index(), Some(2));

    stored.projection.geometry[1].clip = changed_rect(stored.projection.geometry[1].clip);
    let error = verify_against_v1(&stored, &expected).expect_err("geometry differs");
    assert_eq!(error.kind(), Kind::GeometryMismatch);
    assert_eq!(error.index(), Some(1));
}

#[test]
fn every_registered_capacity_is_checked_in_layer_order() {
    let canonical = canonical_artifact();
    let cases: [(fn(&mut ArtifactCapacitiesV1), HeadlessArtifactCapacityKindV1); 9] = [
        (|c| c.ir += 1, HeadlessArtifactCapacityKindV1::Ir),
        (|c| c.style += 1, HeadlessArtifactCapacityKindV1::Style),
        (|c| c.runtime += 1, HeadlessArtifactCapacityKindV1::Runtime),
        (|c| c.projection += 1, HeadlessArtifactCapacityKindV1::Projection),
        (|c| c.scheduler += 1, HeadlessArtifactCapacityKindV1::Scheduler),
        (|c| c.renderer += 1, HeadlessArtifactCapacityKindV1::Renderer),
        (|c| c.scheduler_trace += 1, HeadlessArtifactCapacityKindV1::SchedulerTrace),
        (|c| c.headless_trace += 1, HeadlessArtifactCapacityKindV1::HeadlessTrace),
        (|c| c.artifact += 1, HeadlessArtifactCapacityKindV1::Artifact),
    ];
    for (change, kind) in cases {
        let mut artifact = canonical.clone();
        change(&mut artifact.capacities);
        artifact.capacities.artifact += 1;
        let error = verify_with_fresh_v1(&artifact, || Err(HeadlessFailureCauseV1::Trace))
            .expect_err("capacity should differ");
        assert_eq!(error.kind(), Kind::CapacityMismatch(kind));
    }
}
