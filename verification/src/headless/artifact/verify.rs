use vstd::prelude::*;

use crate::headless::artifact::compare::{
    TraceRecordV1, first_event_difference_from, first_headless_difference_v1,
    first_scheduler_difference_v1, lemma_trace_difference_none, shorter_len, trace_difference,
};
use crate::headless::oracle::fault::lemma_unchanged_family;
use crate::headless::artifact::model::{
    ArtifactCapacitiesV1, ArtifactMetadataV1, ArtifactProjectionV1, HeadlessArtifactV1,
};
use crate::headless::oracle::{
    HeadlessMismatchKindV1, HeadlessMismatchView, compare_records, family_mismatch,
    lemma_computed_styles_agree, lemma_family_mismatch_none, lemma_geometries_agree,
    lemma_hit_regions_agree, lemma_scene_rectangles_agree, lemma_semantics_agree, mismatch_view,
    same_computed_styles, same_geometries, same_hit_regions, same_scene_rectangles,
    same_semantics,
};
use crate::headless::trace::HeadlessFailureCauseV1;

verus! {

/// The layer whose recorded capacity differs from the registered fixture.
#[derive(Clone, Copy, Debug, PartialEq, Eq, Structural)]
pub enum HeadlessArtifactCapacityKindV1 {
    Ir,
    Style,
    Runtime,
    Projection,
    Scheduler,
    Renderer,
    SchedulerTrace,
    HeadlessTrace,
    Artifact,
}

/// Closed reasons for refusing a stored headless artifact.
#[derive(Clone, Copy, Debug, PartialEq, Eq, Structural)]
pub enum HeadlessArtifactVerificationErrorKindV1 {
    /// The artifact names another fixture.
    FixtureMismatch,
    /// One recorded capacity differs from the registered fixture.
    CapacityMismatch(HeadlessArtifactCapacityKindV1),
    /// The fresh replay failed.
    ReplayFailed(HeadlessFailureCauseV1),
    /// The stored result differs from the fresh one.
    ResultMismatch,
    /// A computed-style record differs.
    ComputedStyleMismatch,
    /// A geometry record differs.
    GeometryMismatch,
    /// A semantic record differs.
    SemanticsMismatch,
    /// A hit region differs.
    HitMismatch,
    /// A scene rectangle differs.
    SceneMismatch,
    /// A headless trace event differs.
    HeadlessTraceMismatch,
    /// A scheduler trace event differs.
    SchedulerTraceMismatch,
}

/// Privacy-safe refusal of a stored artifact, with the record index it names.
#[derive(Clone, Copy, Debug, PartialEq, Eq, Structural)]
pub struct HeadlessArtifactVerificationErrorV1 {
    kind: HeadlessArtifactVerificationErrorKindV1,
    index: Option<usize>,
}

impl HeadlessArtifactVerificationErrorV1 {
    /// The refusal's kind and record index.
    pub closed spec fn spec_view(self) -> (HeadlessArtifactVerificationErrorKindV1, Option<usize>) {
        (self.kind, self.index)
    }

    /// Creates a refusal that names no record.
    pub fn new(kind: HeadlessArtifactVerificationErrorKindV1) -> (error: Self)
        ensures
            error.spec_view() == (kind, None::<usize>),
    {
        HeadlessArtifactVerificationErrorV1 { kind, index: None }
    }

    /// Creates a refusal at one record index.
    pub fn at(kind: HeadlessArtifactVerificationErrorKindV1, index: usize) -> (error: Self)
        ensures
            error.spec_view() == (kind, Some(index)),
    {
        HeadlessArtifactVerificationErrorV1 { kind, index: Some(index) }
    }

    /// Returns the refusal's kind.
    pub fn kind(&self) -> (kind: HeadlessArtifactVerificationErrorKindV1)
        ensures
            kind == self.spec_view().0,
    {
        self.kind
    }

    /// Returns the record index the refusal names, if any.
    pub fn index(&self) -> (index: Option<usize>)
        ensures
            index == self.spec_view().1,
    {
        self.index
    }
}

/// Why an artifact does not belong to the registered fixture, if it does not:
/// its metadata, then its capacities layer by layer.
pub open spec fn registration_failure(artifact: &HeadlessArtifactV1) -> Option<
    HeadlessArtifactVerificationErrorKindV1,
> {
    let expected = ArtifactCapacitiesV1::spec_registered();
    let found = artifact.capacities;
    if artifact.metadata != ArtifactMetadataV1::spec_registered() {
        Some(HeadlessArtifactVerificationErrorKindV1::FixtureMismatch)
    } else if found.ir != expected.ir {
        Some(HeadlessArtifactVerificationErrorKindV1::CapacityMismatch(HeadlessArtifactCapacityKindV1::Ir))
    } else if found.style != expected.style {
        Some(HeadlessArtifactVerificationErrorKindV1::CapacityMismatch(HeadlessArtifactCapacityKindV1::Style))
    } else if found.runtime != expected.runtime {
        Some(HeadlessArtifactVerificationErrorKindV1::CapacityMismatch(HeadlessArtifactCapacityKindV1::Runtime))
    } else if found.projection != expected.projection {
        Some(HeadlessArtifactVerificationErrorKindV1::CapacityMismatch(HeadlessArtifactCapacityKindV1::Projection))
    } else if found.scheduler != expected.scheduler {
        Some(HeadlessArtifactVerificationErrorKindV1::CapacityMismatch(HeadlessArtifactCapacityKindV1::Scheduler))
    } else if found.renderer != expected.renderer {
        Some(HeadlessArtifactVerificationErrorKindV1::CapacityMismatch(HeadlessArtifactCapacityKindV1::Renderer))
    } else if found.scheduler_trace != expected.scheduler_trace {
        Some(HeadlessArtifactVerificationErrorKindV1::CapacityMismatch(HeadlessArtifactCapacityKindV1::SchedulerTrace))
    } else if found.headless_trace != expected.headless_trace {
        Some(HeadlessArtifactVerificationErrorKindV1::CapacityMismatch(HeadlessArtifactCapacityKindV1::HeadlessTrace))
    } else if found.artifact != expected.artifact {
        Some(HeadlessArtifactVerificationErrorKindV1::CapacityMismatch(HeadlessArtifactCapacityKindV1::Artifact))
    } else {
        None
    }
}

/// Refuses an artifact recorded against another fixture or other capacities.
pub fn verify_registered_v1(artifact: &HeadlessArtifactV1) -> (result: Result<
    (),
    HeadlessArtifactVerificationErrorV1,
>)
    ensures
        match result {
            Ok(()) => registration_failure(artifact) is None,
            Err(error) => registration_failure(artifact) == Some(error.spec_view().0)
                && error.spec_view().1 is None,
        },
{
    if artifact.metadata != ArtifactMetadataV1::registered() {
        return Err(
            HeadlessArtifactVerificationErrorV1::new(
                HeadlessArtifactVerificationErrorKindV1::FixtureMismatch,
            ),
        );
    }
    let expected = ArtifactCapacitiesV1::registered();
    let found = artifact.capacities;
    let kind = if found.ir != expected.ir {
        Some(HeadlessArtifactCapacityKindV1::Ir)
    } else if found.style != expected.style {
        Some(HeadlessArtifactCapacityKindV1::Style)
    } else if found.runtime != expected.runtime {
        Some(HeadlessArtifactCapacityKindV1::Runtime)
    } else if found.projection != expected.projection {
        Some(HeadlessArtifactCapacityKindV1::Projection)
    } else if found.scheduler != expected.scheduler {
        Some(HeadlessArtifactCapacityKindV1::Scheduler)
    } else if found.renderer != expected.renderer {
        Some(HeadlessArtifactCapacityKindV1::Renderer)
    } else if found.scheduler_trace != expected.scheduler_trace {
        Some(HeadlessArtifactCapacityKindV1::SchedulerTrace)
    } else if found.headless_trace != expected.headless_trace {
        Some(HeadlessArtifactCapacityKindV1::HeadlessTrace)
    } else if found.artifact != expected.artifact {
        Some(HeadlessArtifactCapacityKindV1::Artifact)
    } else {
        None
    };
    match kind {
        Some(kind) => Err(
            HeadlessArtifactVerificationErrorV1::new(
                HeadlessArtifactVerificationErrorKindV1::CapacityMismatch(kind),
            ),
        ),
        None => Ok(()),
    }
}

/// The refusal kind that reports a projection family.
pub open spec fn family_error(kind: HeadlessMismatchKindV1) -> HeadlessArtifactVerificationErrorKindV1 {
    match kind {
        HeadlessMismatchKindV1::ComputedStyle => HeadlessArtifactVerificationErrorKindV1::ComputedStyleMismatch,
        HeadlessMismatchKindV1::Geometry => HeadlessArtifactVerificationErrorKindV1::GeometryMismatch,
        HeadlessMismatchKindV1::Semantics => HeadlessArtifactVerificationErrorKindV1::SemanticsMismatch,
        HeadlessMismatchKindV1::HitRegions => HeadlessArtifactVerificationErrorKindV1::HitMismatch,
        HeadlessMismatchKindV1::SceneRectangles => HeadlessArtifactVerificationErrorKindV1::SceneMismatch,
    }
}

/// The first difference of two stored projections, families in the order
/// computed styles, geometry, semantics, hits, scene.
pub open spec fn artifact_projection_difference(
    stored: &ArtifactProjectionV1,
    expected: &ArtifactProjectionV1,
) -> Option<HeadlessMismatchView> {
    let computed = family_mismatch(
        HeadlessMismatchKindV1::ComputedStyle,
        stored.computed@,
        expected.computed@,
    );
    let geometry = family_mismatch(
        HeadlessMismatchKindV1::Geometry,
        stored.geometry@,
        expected.geometry@,
    );
    let semantics = family_mismatch(
        HeadlessMismatchKindV1::Semantics,
        stored.semantics@,
        expected.semantics@,
    );
    let hits = family_mismatch(HeadlessMismatchKindV1::HitRegions, stored.hits@, expected.hits@);
    let scene = family_mismatch(
        HeadlessMismatchKindV1::SceneRectangles,
        stored.scene@,
        expected.scene@,
    );
    if computed is Some {
        computed
    } else if geometry is Some {
        geometry
    } else if semantics is Some {
        semantics
    } else if hits is Some {
        hits
    } else {
        scene
    }
}

/// Why a stored artifact disagrees with a fresh one, if it does: the result,
/// then the projection, then the headless trace, then the scheduler trace.
pub open spec fn comparison_failure(
    stored: &HeadlessArtifactV1,
    expected: &HeadlessArtifactV1,
) -> Option<(HeadlessArtifactVerificationErrorKindV1, Option<usize>)> {
    let projection = artifact_projection_difference(&stored.projection, &expected.projection);
    let headless = trace_difference(stored.headless_events@, expected.headless_events@);
    let scheduler = trace_difference(stored.scheduler_events@, expected.scheduler_events@);
    if stored.result != expected.result {
        Some((HeadlessArtifactVerificationErrorKindV1::ResultMismatch, None))
    } else if projection is Some {
        Some((family_error(projection.unwrap().kind), Some(projection.unwrap().index as usize)))
    } else if headless is Some {
        Some(
            (
                HeadlessArtifactVerificationErrorKindV1::HeadlessTraceMismatch,
                Some(headless.unwrap().0 as usize),
            ),
        )
    } else if scheduler is Some {
        Some(
            (
                HeadlessArtifactVerificationErrorKindV1::SchedulerTraceMismatch,
                Some(scheduler.unwrap().0 as usize),
            ),
        )
    } else {
        None
    }
}

/// The outcome of checking a stored artifact against a fresh one.
pub open spec fn comparison_outcome(
    stored: &HeadlessArtifactV1,
    expected: &HeadlessArtifactV1,
    result: Result<(), HeadlessArtifactVerificationErrorV1>,
) -> bool {
    match result {
        Ok(()) => comparison_failure(stored, expected) is None,
        Err(error) => comparison_failure(stored, expected) == Some(error.spec_view()),
    }
}

/// Two artifacts hold the same evidence: the same result, the same records
/// in every projection family, and the same headless and scheduler events
/// in the same order.
pub open spec fn same_evidence(stored: &HeadlessArtifactV1, expected: &HeadlessArtifactV1) -> bool {
    &&& stored.result == expected.result
    &&& same_computed_styles(stored.projection.computed@, expected.projection.computed@)
    &&& same_geometries(stored.projection.geometry@, expected.projection.geometry@)
    &&& same_semantics(stored.projection.semantics@, expected.projection.semantics@)
    &&& same_hit_regions(stored.projection.hits@, expected.projection.hits@)
    &&& same_scene_rectangles(stored.projection.scene@, expected.projection.scene@)
    &&& stored.headless_events@ == expected.headless_events@
    &&& stored.scheduler_events@ == expected.scheduler_events@
}

/// A stored artifact agrees with a fresh one exactly when both hold the same
/// evidence: any differing field of any record or event is a failure.
pub proof fn lemma_comparison_exact(stored: &HeadlessArtifactV1, expected: &HeadlessArtifactV1)
    ensures
        comparison_failure(stored, expected) is None <==> same_evidence(stored, expected),
{
    let (s, e) = (&stored.projection, &expected.projection);
    lemma_family_mismatch_none(HeadlessMismatchKindV1::ComputedStyle, s.computed@, e.computed@);
    lemma_computed_styles_agree(s.computed@, e.computed@);
    lemma_family_mismatch_none(HeadlessMismatchKindV1::Geometry, s.geometry@, e.geometry@);
    lemma_geometries_agree(s.geometry@, e.geometry@);
    lemma_family_mismatch_none(HeadlessMismatchKindV1::Semantics, s.semantics@, e.semantics@);
    lemma_semantics_agree(s.semantics@, e.semantics@);
    lemma_family_mismatch_none(HeadlessMismatchKindV1::HitRegions, s.hits@, e.hits@);
    lemma_hit_regions_agree(s.hits@, e.hits@);
    lemma_family_mismatch_none(HeadlessMismatchKindV1::SceneRectangles, s.scene@, e.scene@);
    lemma_scene_rectangles_agree(s.scene@, e.scene@);
    lemma_trace_difference_none(stored.headless_events@, expected.headless_events@);
    lemma_trace_difference_none(stored.scheduler_events@, expected.scheduler_events@);
}

fn family_error_kind(kind: HeadlessMismatchKindV1) -> (error: HeadlessArtifactVerificationErrorKindV1)
    ensures
        error == family_error(kind),
{
    match kind {
        HeadlessMismatchKindV1::ComputedStyle => HeadlessArtifactVerificationErrorKindV1::ComputedStyleMismatch,
        HeadlessMismatchKindV1::Geometry => HeadlessArtifactVerificationErrorKindV1::GeometryMismatch,
        HeadlessMismatchKindV1::Semantics => HeadlessArtifactVerificationErrorKindV1::SemanticsMismatch,
        HeadlessMismatchKindV1::HitRegions => HeadlessArtifactVerificationErrorKindV1::HitMismatch,
        HeadlessMismatchKindV1::SceneRectangles => HeadlessArtifactVerificationErrorKindV1::SceneMismatch,
    }
}

/// Checks a stored artifact against a fresh artifact of the same fixture.
pub fn verify_against_v1(stored: &HeadlessArtifactV1, expected: &HeadlessArtifactV1) -> (result:
    Result<(), HeadlessArtifactVerificationErrorV1>)
    ensures
        comparison_outcome(stored, expected, result),
        result is Ok <==> same_evidence(stored, expected),
{
    proof {
        lemma_comparison_exact(stored, expected);
    }
    if stored.result != expected.result {
        return Err(
            HeadlessArtifactVerificationErrorV1::new(
                HeadlessArtifactVerificationErrorKindV1::ResultMismatch,
            ),
        );
    }
    let found = first_projection_difference_v1(&stored.projection, &expected.projection);
    match found {
        Some(mismatch) => {
            let kind = family_error_kind(mismatch.kind());
            return Err(HeadlessArtifactVerificationErrorV1::at(kind, mismatch.index()));
        },
        None => {},
    }
    match first_headless_difference_v1(
        stored.headless_events.as_slice(),
        expected.headless_events.as_slice(),
    ) {
        Some(difference) => {
            return Err(
                HeadlessArtifactVerificationErrorV1::at(
                    HeadlessArtifactVerificationErrorKindV1::HeadlessTraceMismatch,
                    difference.index,
                ),
            );
        },
        None => {},
    }
    match first_scheduler_difference_v1(
        stored.scheduler_events.as_slice(),
        expected.scheduler_events.as_slice(),
    ) {
        Some(difference) => Err(
            HeadlessArtifactVerificationErrorV1::at(
                HeadlessArtifactVerificationErrorKindV1::SchedulerTraceMismatch,
                difference.index,
            ),
        ),
        None => Ok(()),
    }
}

/// Returns the first difference between two stored projections.
pub fn first_projection_difference_v1(
    stored: &ArtifactProjectionV1,
    expected: &ArtifactProjectionV1,
) -> (found: Option<crate::headless::oracle::HeadlessMismatchV1>)
    ensures
        mismatch_view(found) == artifact_projection_difference(stored, expected),
{
    let computed = compare_records(
        HeadlessMismatchKindV1::ComputedStyle,
        &stored.computed,
        &expected.computed,
    );
    if computed.is_some() {
        return computed;
    }
    let geometry = compare_records(
        HeadlessMismatchKindV1::Geometry,
        &stored.geometry,
        &expected.geometry,
    );
    if geometry.is_some() {
        return geometry;
    }
    let semantics = compare_records(
        HeadlessMismatchKindV1::Semantics,
        &stored.semantics,
        &expected.semantics,
    );
    if semantics.is_some() {
        return semantics;
    }
    let hits = compare_records(HeadlessMismatchKindV1::HitRegions, &stored.hits, &expected.hits);
    if hits.is_some() {
        return hits;
    }
    compare_records(HeadlessMismatchKindV1::SceneRectangles, &stored.scene, &expected.scene)
}

/// Verifies a stored artifact: first that it belongs to the registered
/// fixture, then against a fresh replay, which is made only when the
/// artifact belongs to the fixture.
///
/// The replay is the caller's: whatever it returns, a failure is reported as
/// that replay failure and a fresh artifact is compared as
/// [`verify_against_v1`] does.
pub fn verify_with_fresh_v1<F>(artifact: &HeadlessArtifactV1, fresh: F) -> (result: Result<
    (),
    HeadlessArtifactVerificationErrorV1,
>) where F: FnOnce() -> Result<HeadlessArtifactV1, HeadlessFailureCauseV1>
    requires
        call_requires(fresh, ()),
    ensures
        match registration_failure(artifact) {
            Some(kind) => match result {
                Err(error) => error.spec_view() == (kind, None::<usize>),
                Ok(()) => false,
            },
            None => exists|outcome: Result<HeadlessArtifactV1, HeadlessFailureCauseV1>|
                call_ensures(fresh, (), outcome) && match outcome {
                    Err(cause) => match result {
                        Err(error) => error.spec_view() == (
                            HeadlessArtifactVerificationErrorKindV1::ReplayFailed(cause),
                            None::<usize>,
                        ),
                        Ok(()) => false,
                    },
                    Ok(expected) => comparison_outcome(artifact, &expected, result),
                },
        },
{
    match verify_registered_v1(artifact) {
        Ok(()) => {},
        Err(error) => return Err(error),
    }
    let outcome = fresh();
    match outcome {
        Err(cause) => Err(
            HeadlessArtifactVerificationErrorV1::new(
                HeadlessArtifactVerificationErrorKindV1::ReplayFailed(cause),
            ),
        ),
        Ok(expected) => {
            let result = verify_against_v1(artifact, &expected);
            assert(call_ensures(fresh, (), Ok::<HeadlessArtifactV1, HeadlessFailureCauseV1>(expected)));
            result
        },
    }
}

proof fn lemma_trace_agrees_with_itself<T: TraceRecordV1>(events: Seq<T>, index: int)
    requires
        0 <= index,
        forall|k: int| 0 <= k < events.len() ==> (#[trigger] events[k]).spec_field(&events[k]) is None,
    ensures
        first_event_difference_from(events, events, index) is None,
    decreases shorter_len(events, events) - index,
{
    if index < shorter_len(events, events) {
        lemma_trace_agrees_with_itself(events, index + 1);
    }
}

/// An artifact always verifies against an identical fresh artifact: the
/// comparison of a stored run with itself finds no difference.
pub proof fn lemma_artifact_agrees_with_itself(artifact: &HeadlessArtifactV1)
    ensures
        comparison_failure(artifact, artifact) is None,
{
    let projection = &artifact.projection;
    lemma_unchanged_family(HeadlessMismatchKindV1::ComputedStyle, projection.computed@, projection.computed@);
    lemma_unchanged_family(HeadlessMismatchKindV1::Geometry, projection.geometry@, projection.geometry@);
    lemma_unchanged_family(HeadlessMismatchKindV1::Semantics, projection.semantics@, projection.semantics@);
    lemma_unchanged_family(HeadlessMismatchKindV1::HitRegions, projection.hits@, projection.hits@);
    lemma_unchanged_family(HeadlessMismatchKindV1::SceneRectangles, projection.scene@, projection.scene@);
    lemma_trace_agrees_with_itself(artifact.headless_events@, 0);
    lemma_trace_agrees_with_itself(artifact.scheduler_events@, 0);
}

} // verus!
