use vstd::prelude::*;

use crate::case::Rgba8;
use crate::error::{HarnessError, HarnessErrorKind};
use crate::headless::geometry::HeadlessRect;
use crate::headless::oracle::{
    HeadlessMismatchFieldV1, HeadlessMismatchKindV1, HeadlessProjectionFaultV1, family_mismatch,
    first_difference_from, longer_len, projection_mismatch, record_difference, NormalizedHeadlessComputedStyleV1,
    NormalizedHeadlessProjectionV1, NormalizedHeadlessSceneRectangleV1, ProjectionRecordV1,
    same_record, same_records,
};

verus! {

/// One step away from a scalar, downwards only at the top of its range.
pub open spec fn perturbed(value: i32) -> i32 {
    if value == i32::MAX {
        (value - 1) as i32
    } else {
        (value + 1) as i32
    }
}

/// A rectangle whose horizontal origin is perturbed.
pub open spec fn perturbed_rect(rect: HeadlessRect) -> HeadlessRect {
    HeadlessRect { x: perturbed(rect.x), ..rect }
}

/// A color whose red channel has its lowest bit flipped.
pub open spec fn perturbed_color(color: Rgba8) -> Rgba8 {
    Rgba8(color.0 ^ 1u8, color.1, color.2, color.3)
}

/// The family with its first two records exchanged.
pub open spec fn swap_first_pair<T>(records: Seq<T>) -> Seq<T> {
    records.update(0, records[1]).update(1, records[0])
}

/// Whether a registered fault has the records it needs.
pub open spec fn fault_applies(
    projection: &NormalizedHeadlessProjectionV1,
    fault: HeadlessProjectionFaultV1,
) -> bool {
    match fault {
        HeadlessProjectionFaultV1::ComputedStyle => projection.computed_styles@.len() >= 1,
        HeadlessProjectionFaultV1::GeometryOrder => projection.geometries@.len() >= 2,
        HeadlessProjectionFaultV1::SemanticMembership => projection.semantics@.len() >= 1,
        HeadlessProjectionFaultV1::HitOrder => projection.hit_regions@.len() >= 2,
        HeadlessProjectionFaultV1::SceneOutput => projection.scene_rectangles@.len() >= 1,
    }
}

/// The first computed-style record has its width and height perturbed; the
/// rest of the family is unchanged.
pub open spec fn perturbed_first_computed(
    clean: Seq<NormalizedHeadlessComputedStyleV1>,
    faulted: Seq<NormalizedHeadlessComputedStyleV1>,
) -> bool {
    &&& faulted.len() == clean.len()
    &&& faulted[0].path@ == clean[0].path@
    &&& faulted[0].width == perturbed(clean[0].width)
    &&& faulted[0].height == perturbed(clean[0].height)
    &&& faulted[0].color == clean[0].color
    &&& faulted[0].visible == clean[0].visible
    &&& faulted[0].input == clean[0].input
    &&& forall|i: int| 1 <= i < clean.len() ==> same_record(&#[trigger] clean[i], &faulted[i])
}

/// The first scene rectangle has its rectangle and color perturbed; the rest
/// of the family is unchanged.
pub open spec fn perturbed_first_scene(
    clean: Seq<NormalizedHeadlessSceneRectangleV1>,
    faulted: Seq<NormalizedHeadlessSceneRectangleV1>,
) -> bool {
    &&& faulted.len() == clean.len()
    &&& faulted[0].path@ == clean[0].path@
    &&& faulted[0].rectangle == perturbed_rect(clean[0].rectangle)
    &&& faulted[0].color == perturbed_color(clean[0].color)
    &&& forall|i: int| 1 <= i < clean.len() ==> same_record(&#[trigger] clean[i], &faulted[i])
}

/// The projection that a registered fault makes of another: only the
/// fault's family changes.
pub open spec fn faulted_as(
    clean: &NormalizedHeadlessProjectionV1,
    fault: HeadlessProjectionFaultV1,
    faulted: &NormalizedHeadlessProjectionV1,
) -> bool {
    &&& faulted.surface == clean.surface
    &&& if fault == HeadlessProjectionFaultV1::ComputedStyle {
        perturbed_first_computed(clean.computed_styles@, faulted.computed_styles@)
    } else {
        same_records(clean.computed_styles@, faulted.computed_styles@)
    }
    &&& if fault == HeadlessProjectionFaultV1::GeometryOrder {
        same_records(swap_first_pair(clean.geometries@), faulted.geometries@)
    } else {
        same_records(clean.geometries@, faulted.geometries@)
    }
    &&& if fault == HeadlessProjectionFaultV1::SemanticMembership {
        same_records(
            clean.semantics@.subrange(1, clean.semantics@.len() as int),
            faulted.semantics@,
        )
    } else {
        same_records(clean.semantics@, faulted.semantics@)
    }
    &&& if fault == HeadlessProjectionFaultV1::HitOrder {
        same_records(swap_first_pair(clean.hit_regions@), faulted.hit_regions@)
    } else {
        same_records(clean.hit_regions@, faulted.hit_regions@)
    }
    &&& if fault == HeadlessProjectionFaultV1::SceneOutput {
        perturbed_first_scene(clean.scene_rectangles@, faulted.scene_rectangles@)
    } else {
        same_records(clean.scene_rectangles@, faulted.scene_rectangles@)
    }
}

/// Applies one registered defect only to a normalized testkit projection.
///
/// A fault that lacks the records it perturbs is an invalid operation.
pub fn inject_headless_projection_fault_v1(
    projection: &NormalizedHeadlessProjectionV1,
    fault: HeadlessProjectionFaultV1,
) -> (result: Result<NormalizedHeadlessProjectionV1, HarnessError>)
    ensures
        match result {
            Err(error) => !fault_applies(projection, fault) && error.is_unlocated(
                HarnessErrorKind::InvalidOperation,
            ),
            Ok(faulted) => fault_applies(projection, fault) && faulted_as(
                projection,
                fault,
                &faulted,
            ),
        },
{
    let computed_styles = if fault == HeadlessProjectionFaultV1::ComputedStyle {
        if projection.computed_styles.len() == 0 {
            return Err(invalid());
        }
        let first = &projection.computed_styles[0];
        let mut records: Vec<NormalizedHeadlessComputedStyleV1> = Vec::new();
        records.push(
            NormalizedHeadlessComputedStyleV1 {
                path: first.path.clone(),
                width: perturb(first.width),
                height: perturb(first.height),
                color: first.color,
                visible: first.visible,
                input: first.input,
            },
        );
        let ghost prefix = records@;
        append_copies(&projection.computed_styles, 1, &mut records);
        proof {
            assert(records@[0] == prefix[0]);
            let clean = projection.computed_styles@;
            assert forall|i: int| 1 <= i < clean.len() implies same_record(
                &#[trigger] clean[i],
                &records@[i],
            ) by {
                assert(same_record(&clean[i], &records@[1 + i - 1]));
            }
        }
        records
    } else {
        copy_records(&projection.computed_styles)
    };
    let geometries = if fault == HeadlessProjectionFaultV1::GeometryOrder {
        if projection.geometries.len() < 2 {
            return Err(invalid());
        }
        swapped_copy(&projection.geometries)
    } else {
        copy_records(&projection.geometries)
    };
    let semantics = if fault == HeadlessProjectionFaultV1::SemanticMembership {
        if projection.semantics.len() == 0 {
            return Err(invalid());
        }
        let mut records = Vec::new();
        append_copies(&projection.semantics, 1, &mut records);
        proof {
            let clean = projection.semantics@;
            let rest = clean.subrange(1, clean.len() as int);
            assert forall|i: int| 0 <= i < rest.len() implies same_record(
                &#[trigger] rest[i],
                &records@[i],
            ) by {
                assert(same_record(&clean[i + 1], &records@[0 + (i + 1) - 1]));
            }
        }
        records
    } else {
        copy_records(&projection.semantics)
    };
    let hit_regions = if fault == HeadlessProjectionFaultV1::HitOrder {
        if projection.hit_regions.len() < 2 {
            return Err(invalid());
        }
        swapped_copy(&projection.hit_regions)
    } else {
        copy_records(&projection.hit_regions)
    };
    let scene_rectangles = if fault == HeadlessProjectionFaultV1::SceneOutput {
        if projection.scene_rectangles.len() == 0 {
            return Err(invalid());
        }
        let first = &projection.scene_rectangles[0];
        let color = first.color;
        let mut records: Vec<NormalizedHeadlessSceneRectangleV1> = Vec::new();
        records.push(
            NormalizedHeadlessSceneRectangleV1 {
                path: first.path.clone(),
                rectangle: perturb_rect(first.rectangle),
                color: Rgba8(color.0 ^ 1u8, color.1, color.2, color.3),
            },
        );
        let ghost prefix = records@;
        append_copies(&projection.scene_rectangles, 1, &mut records);
        proof {
            assert(records@[0] == prefix[0]);
            let clean = projection.scene_rectangles@;
            assert forall|i: int| 1 <= i < clean.len() implies same_record(
                &#[trigger] clean[i],
                &records@[i],
            ) by {
                assert(same_record(&clean[i], &records@[1 + i - 1]));
            }
        }
        records
    } else {
        copy_records(&projection.scene_rectangles)
    };
    Ok(
        NormalizedHeadlessProjectionV1 {
            surface: projection.surface,
            computed_styles,
            geometries,
            semantics,
            hit_regions,
            scene_rectangles,
        },
    )
}

fn perturb(value: i32) -> (result: i32)
    ensures
        result == perturbed(value),
{
    if value == i32::MAX {
        value - 1
    } else {
        value + 1
    }
}

fn perturb_rect(value: HeadlessRect) -> (result: HeadlessRect)
    ensures
        result == perturbed_rect(value),
{
    HeadlessRect::new(perturb(value.x()), value.y(), value.width(), value.height())
}

fn invalid() -> (error: HarnessError)
    ensures
        error.is_unlocated(HarnessErrorKind::InvalidOperation),
{
    HarnessError::new(HarnessErrorKind::InvalidOperation)
}

/// Appends copies of the records from `start` on.
fn append_copies<T: ProjectionRecordV1>(records: &Vec<T>, start: usize, out: &mut Vec<T>)
    requires
        start <= records@.len(),
    ensures
        final(out)@.len() == old(out)@.len() + records@.len() - start,
        final(out)@.subrange(0, old(out)@.len() as int) == old(out)@,
        forall|i: int|
            start <= i < records@.len() ==> same_record(
                &#[trigger] records@[i],
                &final(out)@[old(out)@.len() + i - start],
            ),
{
    let ghost base = out@;
    let mut index = start;
    while index < records.len()
        invariant
            start <= index <= records@.len(),
            out@.len() == base.len() + index - start,
            out@.subrange(0, base.len() as int) == base,
            forall|i: int|
                start <= i < index ==> same_record(&#[trigger] records@[i], &out@[base.len() + i - start]),
        decreases records@.len() - index,
    {
        let copy = records[index].duplicate();
        out.push(copy);
        proof {
            assert(out@.subrange(0, base.len() as int) =~= base);
        }
        index = index + 1;
    }
}

/// Copies a whole family.
fn copy_records<T: ProjectionRecordV1>(records: &Vec<T>) -> (copy: Vec<T>)
    ensures
        same_records(records@, copy@),
{
    let mut copy = Vec::new();
    append_copies(records, 0, &mut copy);
    proof {
        assert forall|i: int| 0 <= i < records@.len() implies same_record(
            &#[trigger] records@[i],
            &copy@[i],
        ) by {
            assert(same_record(&records@[i], &copy@[0 + i - 0]));
        }
    }
    copy
}

/// Copies a family with its first two records exchanged.
fn swapped_copy<T: ProjectionRecordV1>(records: &Vec<T>) -> (copy: Vec<T>)
    requires
        records@.len() >= 2,
    ensures
        same_records(swap_first_pair(records@), copy@),
{
    let mut copy = Vec::new();
    let second = records[1].duplicate();
    copy.push(second);
    let first = records[0].duplicate();
    copy.push(first);
    let ghost prefix = copy@;
    append_copies(records, 2, &mut copy);
    proof {
        let swapped = swap_first_pair(records@);
        assert(copy@[0] == prefix[0]);
        assert(copy@[1] == prefix[1]);
        assert forall|i: int| 0 <= i < swapped.len() implies same_record(
            &#[trigger] swapped[i],
            &copy@[i],
        ) by {
            if i >= 2 {
                assert(same_record(&records@[i], &copy@[2 + i - 2]));
            }
        }
    }
    copy
}

/// The family a registered fault perturbs.
pub open spec fn fault_family(fault: HeadlessProjectionFaultV1) -> HeadlessMismatchKindV1 {
    match fault {
        HeadlessProjectionFaultV1::ComputedStyle => HeadlessMismatchKindV1::ComputedStyle,
        HeadlessProjectionFaultV1::GeometryOrder => HeadlessMismatchKindV1::Geometry,
        HeadlessProjectionFaultV1::SemanticMembership => HeadlessMismatchKindV1::Semantics,
        HeadlessProjectionFaultV1::HitOrder => HeadlessMismatchKindV1::HitRegions,
        HeadlessProjectionFaultV1::SceneOutput => HeadlessMismatchKindV1::SceneRectangles,
    }
}

/// The field at which a registered fault is first seen.
pub open spec fn fault_field(fault: HeadlessProjectionFaultV1) -> HeadlessMismatchFieldV1 {
    match fault {
        HeadlessProjectionFaultV1::ComputedStyle => HeadlessMismatchFieldV1::Width,
        HeadlessProjectionFaultV1::SceneOutput => HeadlessMismatchFieldV1::Rectangle,
        _ => HeadlessMismatchFieldV1::Path,
    }
}

/// Whether a reordering or removal fault changes which record comes first:
/// the records it moves sit at different paths.
pub open spec fn fault_is_observable(
    projection: &NormalizedHeadlessProjectionV1,
    fault: HeadlessProjectionFaultV1,
) -> bool {
    match fault {
        HeadlessProjectionFaultV1::GeometryOrder => projection.geometries@[0].path@
            != projection.geometries@[1].path@,
        HeadlessProjectionFaultV1::SemanticMembership => projection.semantics@.len() == 1
            || projection.semantics@[0].path@ != projection.semantics@[1].path@,
        HeadlessProjectionFaultV1::HitOrder => projection.hit_regions@[0].path@
            != projection.hit_regions@[1].path@,
        _ => true,
    }
}

proof fn lemma_same_records_agree<T: ProjectionRecordV1>(
    clean: Seq<T>,
    copy: Seq<T>,
    index: int,
)
    requires
        same_records(clean, copy),
        0 <= index,
    ensures
        first_difference_from(clean, copy, index) is None,
    decreases longer_len(clean, copy) - index,
{
    if index < longer_len(clean, copy) {
        assert(same_record(&clean[index], &copy[index]));
        assert(record_difference(clean, copy, index) is None);
        lemma_same_records_agree(clean, copy, index + 1);
    }
}

/// A family copied record by record has no mismatch.
pub proof fn lemma_unchanged_family<T: ProjectionRecordV1>(
    kind: HeadlessMismatchKindV1,
    clean: Seq<T>,
    copy: Seq<T>,
)
    requires
        same_records(clean, copy),
    ensures
        family_mismatch(kind, clean, copy) is None,
{
    lemma_same_records_agree(clean, copy, 0);
}

/// Every registered projection fault is caught by the comparison: it is
/// reported in the fault's own family, at the first record, on the field it
/// perturbs. A reordering or removal is caught when the records it moves sit
/// at different paths.
pub proof fn lemma_registered_faults_are_detected(
    projection: &NormalizedHeadlessProjectionV1,
    fault: HeadlessProjectionFaultV1,
    faulted: &NormalizedHeadlessProjectionV1,
)
    requires
        fault_applies(projection, fault),
        faulted_as(projection, fault, faulted),
        fault_is_observable(projection, fault),
    ensures
        projection_mismatch(projection, faulted) is Some,
        projection_mismatch(projection, faulted)->Some_0.kind == fault_family(fault),
        projection_mismatch(projection, faulted)->Some_0.index == 0,
        projection_mismatch(projection, faulted)->Some_0.field == fault_field(fault),
        projection_mismatch(projection, faulted)->Some_0.location == Some(
            match fault {
                HeadlessProjectionFaultV1::ComputedStyle => projection.computed_styles@[0].path@,
                HeadlessProjectionFaultV1::GeometryOrder => projection.geometries@[0].path@,
                HeadlessProjectionFaultV1::SemanticMembership => projection.semantics@[0].path@,
                HeadlessProjectionFaultV1::HitOrder => projection.hit_regions@[0].path@,
                HeadlessProjectionFaultV1::SceneOutput => projection.scene_rectangles@[0].path@,
            },
        ),
{
    let computed = HeadlessMismatchKindV1::ComputedStyle;
    let geometry = HeadlessMismatchKindV1::Geometry;
    let semantics = HeadlessMismatchKindV1::Semantics;
    let hits = HeadlessMismatchKindV1::HitRegions;
    if fault != HeadlessProjectionFaultV1::ComputedStyle {
        lemma_unchanged_family(computed, projection.computed_styles@, faulted.computed_styles@);
    }
    if fault != HeadlessProjectionFaultV1::GeometryOrder {
        lemma_unchanged_family(geometry, projection.geometries@, faulted.geometries@);
    }
    if fault != HeadlessProjectionFaultV1::SemanticMembership {
        lemma_unchanged_family(semantics, projection.semantics@, faulted.semantics@);
    }
    if fault != HeadlessProjectionFaultV1::HitOrder {
        lemma_unchanged_family(hits, projection.hit_regions@, faulted.hit_regions@);
    }
    match fault {
        HeadlessProjectionFaultV1::ComputedStyle => {
            let clean = projection.computed_styles@;
            let copy = faulted.computed_styles@;
            assert(perturbed(clean[0].width) != clean[0].width);
            assert(record_difference(clean, copy, 0) == Some(HeadlessMismatchFieldV1::Width));
        },
        HeadlessProjectionFaultV1::GeometryOrder => {
            let clean = projection.geometries@;
            let copy = faulted.geometries@;
            assert(same_record(&swap_first_pair(clean)[0], &copy[0]));
            assert(record_difference(clean, copy, 0) == Some(HeadlessMismatchFieldV1::Path));
        },
        HeadlessProjectionFaultV1::SemanticMembership => {
            let clean = projection.semantics@;
            let copy = faulted.semantics@;
            if clean.len() > 1 {
                let rest = clean.subrange(1, clean.len() as int);
                assert(same_record(&rest[0], &copy[0]));
            }
            assert(record_difference(clean, copy, 0) == Some(HeadlessMismatchFieldV1::Path));
        },
        HeadlessProjectionFaultV1::HitOrder => {
            let clean = projection.hit_regions@;
            let copy = faulted.hit_regions@;
            assert(same_record(&swap_first_pair(clean)[0], &copy[0]));
            assert(record_difference(clean, copy, 0) == Some(HeadlessMismatchFieldV1::Path));
        },
        HeadlessProjectionFaultV1::SceneOutput => {
            let clean = projection.scene_rectangles@;
            let copy = faulted.scene_rectangles@;
            assert(perturbed(clean[0].rectangle.x) != clean[0].rectangle.x);
            assert(record_difference(clean, copy, 0) == Some(
                HeadlessMismatchFieldV1::Rectangle,
            ));
        },
    }
}

} // verus!
