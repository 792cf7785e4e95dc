use fenestra_ui_testkit::case::{InputPolicy, PropertyValue, Rgba8};
use fenestra_ui_testkit::error::{HarnessErrorKind, HarnessLimitKind};
use fenestra_ui_testkit::headless::geometry::{
    HeadlessRect, HeadlessSemanticAction, HeadlessSemanticRole, HeadlessSurface,
};
use fenestra_ui_testkit::headless::oracle::fault::inject_headless_projection_fault_v1;
use fenestra_ui_testkit::headless::oracle::normalize::{
    HeadlessProjectionCapacityV1, RuntimeComputedStyleV1, RuntimeGeometryV1,
    RuntimeHeadlessProjectionV1, RuntimeHitRegionV1, RuntimeSceneRectangleV1, RuntimeSemanticV1,
    normalize_headless_projection_v1,
};
use fenestra_ui_testkit::headless::oracle::{
    HeadlessMismatchFieldV1 as Field, HeadlessMismatchKindV1 as Kind,
    HeadlessMismatchLocationV1, HeadlessProjectionFaultV1, NormalizedHeadlessComputedStyleV1,
    NormalizedHeadlessGeometryV1 as Geometry, NormalizedHeadlessHitRegionV1,
    NormalizedHeadlessProjectionV1, NormalizedHeadlessSceneRectangleV1,
    NormalizedHeadlessSemanticV1, compare_headless_projection_v1, compare_records,
};
use fenestra_ui_testkit::identity::{IdentityIndexV1, NodeId};
use fenestra_ui_testkit::semantic::NodePathV1;

fn rect(x: i32, y: i32, width: i32, height: i32) -> HeadlessRect {
    HeadlessRect::new(x, y, width, height)
}

fn geometry(path: NodePathV1, bounds: [i32; 4], clip: [i32; 4]) -> Geometry {
    Geometry {
        path,
        bounds: rect(bounds[0], bounds[1], bounds[2], bounds[3]),
        clip: rect(clip[0], clip[1], clip[2], clip[3]),
    }
}

#[test]
fn geometry_bounds_precede_clip() {
    let left = geometry(NodePathV1::root(), [0, 0, 10, 10], [0, 0, 8, 8]);
    let right = geometry(NodePathV1::root(), [0, 0, 9, 9], [0, 0, 7, 7]);

    let mismatch = compare_records(Kind::Geometry, &vec![left], &vec![right])
        .expect("both geometry fields differ");

    assert_eq!(mismatch.field(), Field::Bounds);
}

#[test]
fn geometry_path_precedes_payload() {
    let left = geometry(NodePathV1::root(), [0, 0, 10, 10], [0, 0, 8, 8]);
    let right = geometry(NodePathV1::root().static_child(0), [0, 0, 9, 9], [0, 0, 7, 7]);

    let mismatch = compare_records(Kind::Geometry, &vec![left], &vec![right])
        .expect("path and payload differ");

    assert_eq!(mismatch.field(), Field::Path);
}

#[test]
fn geometry_clip_is_reported_when_it_is_the_only_difference() {
    let left = geometry(NodePathV1::root(), [0, 0, 10, 10], [0, 0, 8, 8]);
    let right = geometry(NodePathV1::root(), [0, 0, 10, 10], [0, 0, 7, 7]);

    let mismatch = compare_records(Kind::Geometry, &vec![left], &vec![right])
        .expect("clip differs");

    assert_eq!(mismatch.field(), Field::Clip);
}

fn paths() -> Vec<NodePathV1> {
    vec![
        NodePathV1::root(),
        NodePathV1::root().static_child(0),
        NodePathV1::root().static_child(0).static_child(0),
    ]
}

fn projection() -> NormalizedHeadlessProjectionV1 {
    let paths = paths();
    NormalizedHeadlessProjectionV1 {
        surface: HeadlessSurface::new(64, 48),
        computed_styles: paths
            .iter()
            .map(|path| NormalizedHeadlessComputedStyleV1 {
                path: path.clone(),
                width: 64,
                height: 16,
                color: Rgba8(1, 2, 3, 4),
                visible: true,
                input: InputPolicy::Accept,
            })
            .collect(),
        geometries: paths
            .iter()
            .enumerate()
            .map(|(index, path)| geometry(path.clone(), [0, index as i32, 64, 16], [0, 0, 64, 16]))
            .collect(),
        semantics: vec![NormalizedHeadlessSemanticV1 {
            path: paths[2].clone(),
            role: HeadlessSemanticRole::Control,
            label: 5,
            action: HeadlessSemanticAction::Activate,
        }],
        hit_regions: paths
            .iter()
            .map(|path| NormalizedHeadlessHitRegionV1 { path: path.clone(), clip: rect(0, 0, 64, 16) })
            .collect(),
        scene_rectangles: paths
            .iter()
            .map(|path| NormalizedHeadlessSceneRectangleV1 {
                path: path.clone(),
                rectangle: rect(0, 0, 64, 16),
                color: Rgba8(1, 2, 3, 4),
            })
            .collect(),
    }
}

#[test]
fn identical_projections_have_no_mismatch() {
    let expected = projection();
    let observed = projection();
    assert!(compare_headless_projection_v1(&expected, &observed).unwrap().is_none());
}

#[test]
fn different_surfaces_are_a_state_mismatch() {
    let expected = projection();
    let mut observed = projection();
    observed.surface = HeadlessSurface::new(65, 48);
    let error = compare_headless_projection_v1(&expected, &observed).unwrap_err();
    assert_eq!(error.kind(), HarnessErrorKind::StateMismatch);
    assert_eq!(error.transaction(), None);
}

#[test]
fn every_registered_fault_is_found_in_its_own_family() {
    let expected = projection();
    let cases = [
        (HeadlessProjectionFaultV1::ComputedStyle, Kind::ComputedStyle, 0, Field::Width),
        (HeadlessProjectionFaultV1::GeometryOrder, Kind::Geometry, 0, Field::Path),
        (HeadlessProjectionFaultV1::SemanticMembership, Kind::Semantics, 0, Field::Path),
        (HeadlessProjectionFaultV1::HitOrder, Kind::HitRegions, 0, Field::Path),
        (HeadlessProjectionFaultV1::SceneOutput, Kind::SceneRectangles, 0, Field::Rectangle),
    ];
    for (fault, kind, index, field) in cases {
        let faulted = inject_headless_projection_fault_v1(&expected, fault)
            .expect("the registered projection has the records every fault needs");
        let mismatch = compare_headless_projection_v1(&expected, &faulted)
            .expect("surfaces agree")
            .expect("the fault should be visible");
        assert_eq!(mismatch.kind(), kind);
        assert_eq!(mismatch.index(), index);
        assert_eq!(mismatch.field(), field);
    }
}

#[test]
fn computed_fault_perturbs_width_and_height_downward_at_the_top() {
    let mut original = projection();
    original.computed_styles[0].width = i32::MAX;
    let faulted =
        inject_headless_projection_fault_v1(&original, HeadlessProjectionFaultV1::ComputedStyle)
            .unwrap();
    assert_eq!(faulted.computed_styles[0].width, i32::MAX - 1);
    assert_eq!(faulted.computed_styles[0].height, 17);
    assert_eq!(faulted.computed_styles.len(), 3);
}

#[test]
fn scene_fault_flips_the_red_channel_and_moves_the_rectangle() {
    let original = projection();
    let faulted =
        inject_headless_projection_fault_v1(&original, HeadlessProjectionFaultV1::SceneOutput)
            .unwrap();
    assert_eq!(faulted.scene_rectangles[0].color, Rgba8(0, 2, 3, 4));
    assert_eq!(faulted.scene_rectangles[0].rectangle, rect(1, 0, 64, 16));
}

#[test]
fn a_fault_without_its_records_is_an_invalid_operation() {
    let mut original = projection();
    original.hit_regions.truncate(1);
    let error = inject_headless_projection_fault_v1(&original, HeadlessProjectionFaultV1::HitOrder)
        .unwrap_err();
    assert_eq!(error.kind(), HarnessErrorKind::InvalidOperation);
    original.semantics.clear();
    let error = inject_headless_projection_fault_v1(
        &original,
        HeadlessProjectionFaultV1::SemanticMembership,
    )
    .unwrap_err();
    assert_eq!(error.kind(), HarnessErrorKind::InvalidOperation);
}

#[test]
fn a_missing_trailing_record_is_located_at_the_expected_path() {
    let expected = projection();
    let mut observed = projection();
    observed.scene_rectangles.pop();
    let mismatch = compare_headless_projection_v1(&expected, &observed).unwrap().unwrap();
    assert_eq!(mismatch.kind(), Kind::SceneRectangles);
    assert_eq!(mismatch.index(), 2);
    assert_eq!(mismatch.field(), Field::Path);
    match mismatch.location() {
        HeadlessMismatchLocationV1::Path(path) => assert_eq!(path.segments(), paths()[2].segments()),
        HeadlessMismatchLocationV1::End => panic!("the expected side has a record"),
    }
}

fn identities() -> IdentityIndexV1 {
    let mut index = IdentityIndexV1::new();
    for (handle, path) in paths().into_iter().enumerate() {
        assert!(index.record_node(path, NodeId(100 + handle as u64)));
    }
    index
}

fn raw_projection() -> RuntimeHeadlessProjectionV1 {
    let nodes = [NodeId(100), NodeId(101), NodeId(102)];
    RuntimeHeadlessProjectionV1 {
        generation: 4,
        surface: HeadlessSurface::new(64, 48),
        computed_styles: nodes
            .iter()
            .map(|node| RuntimeComputedStyleV1 {
                node: *node,
                width: Some(PropertyValue::ScalarI32(64)),
                height: Some(PropertyValue::ScalarI32(16)),
                color: Some(PropertyValue::Rgba8(Rgba8(1, 2, 3, 4))),
                visible: Some(PropertyValue::Bool(true)),
                input: Some(PropertyValue::InputPolicy(InputPolicy::Accept)),
            })
            .collect(),
        geometries: nodes
            .iter()
            .map(|node| RuntimeGeometryV1 { node: *node, bounds: rect(0, 0, 64, 16), clip: rect(0, 0, 64, 16) })
            .collect(),
        semantics: vec![RuntimeSemanticV1 {
            node: NodeId(102),
            role: HeadlessSemanticRole::Control,
            label: 5,
            action: HeadlessSemanticAction::Activate,
        }],
        hit_regions: vec![RuntimeHitRegionV1 { node: NodeId(101), clip: rect(0, 0, 64, 16) }],
        scene_rectangles: vec![RuntimeSceneRectangleV1 {
            node: NodeId(100),
            rectangle: rect(0, 0, 64, 16),
            color: Rgba8(1, 2, 3, 4),
        }],
    }
}

fn capacity() -> HeadlessProjectionCapacityV1 {
    HeadlessProjectionCapacityV1 {
        computed_styles: 8,
        geometry: 8,
        semantics: 1,
        hit_regions: 8,
        scene_rectangles: 8,
    }
}

#[test]
fn normalization_replaces_handles_by_paths_in_runtime_order() {
    let observed =
        normalize_headless_projection_v1(&identities(), &raw_projection(), capacity(), 3).unwrap();
    assert_eq!(observed.generation(), 4);
    let projection = observed.projection();
    assert_eq!(projection.computed_styles.len(), 3);
    assert_eq!(projection.computed_styles[1].path.segments(), paths()[1].segments());
    assert_eq!(projection.semantics[0].path.segments(), paths()[2].segments());
    assert_eq!(projection.hit_regions[0].path.segments(), paths()[1].segments());
}

#[test]
fn normalization_limits_and_mismatches() {
    let mut raw = raw_projection();
    let mut tight = capacity();
    tight.geometry = 2;
    let error = normalize_headless_projection_v1(&identities(), &raw, tight, 3).unwrap_err();
    assert_eq!(error.kind(), HarnessErrorKind::LimitExceeded(HarnessLimitKind::NormalizedNodes));

    let error = normalize_headless_projection_v1(&identities(), &raw, capacity(), 4).unwrap_err();
    assert_eq!(error.kind(), HarnessErrorKind::StateMismatch);

    raw.computed_styles[2].visible = Some(PropertyValue::ScalarI32(1));
    let error = normalize_headless_projection_v1(&identities(), &raw, capacity(), 3).unwrap_err();
    assert_eq!(error.kind(), HarnessErrorKind::StateMismatch);

    let mut raw = raw_projection();
    raw.hit_regions[0].node = NodeId(7);
    let error = normalize_headless_projection_v1(&identities(), &raw, capacity(), 3).unwrap_err();
    assert_eq!(error.kind(), HarnessErrorKind::StateMismatch);

    let mut raw = raw_projection();
    raw.semantics.push(raw.semantics[0]);
    let error = normalize_headless_projection_v1(&identities(), &raw, capacity(), 3).unwrap_err();
    assert_eq!(error.kind(), HarnessErrorKind::StateMismatch);
}

#[test]
fn comparison_either_way_finds_the_same_family_index_and_field() {
    let expected = projection();
    for fault in [
        HeadlessProjectionFaultV1::ComputedStyle,
        HeadlessProjectionFaultV1::GeometryOrder,
        HeadlessProjectionFaultV1::HitOrder,
        HeadlessProjectionFaultV1::SceneOutput,
    ] {
        let faulted = inject_headless_projection_fault_v1(&expected, fault)
            .expect("the registered projection has the records every fault needs");
        let forward = compare_headless_projection_v1(&expected, &faulted).unwrap().unwrap();
        let backward = compare_headless_projection_v1(&faulted, &expected).unwrap().unwrap();
        assert_eq!(forward.kind(), backward.kind());
        assert_eq!(forward.index(), backward.index());
        assert_eq!(forward.field(), backward.field());
    }
}
