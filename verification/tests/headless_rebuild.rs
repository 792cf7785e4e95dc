use fenestra_ui_testkit::case::{InputPolicy, Rgba8};
use fenestra_ui_testkit::error::{HarnessErrorKind, HarnessLimitKind};
use fenestra_ui_testkit::headless::geometry::{HeadlessRect, HeadlessSurface};
use fenestra_ui_testkit::headless::oracle::normalize::HeadlessProjectionCapacityV1;
use fenestra_ui_testkit::headless::oracle::rebuild::{
    RebuildNodeV1, intersect, layout_nodes, rebuild_projection_v1,
};
use fenestra_ui_testkit::headless::oracle::{
    NormalizedHeadlessComputedStyleV1, compare_headless_projection_v1,
};
use fenestra_ui_testkit::semantic::NodePathV1;

fn rect(x: i32, y: i32, width: i32, height: i32) -> HeadlessRect {
    HeadlessRect::new(x, y, width, height)
}

fn node(
    path: NodePathV1,
    parent: Option<NodePathV1>,
    width: i32,
    height: i32,
    visible: bool,
    input: InputPolicy,
    semantic: bool,
) -> RebuildNodeV1 {
    RebuildNodeV1 {
        style: NormalizedHeadlessComputedStyleV1 {
            path,
            width,
            height,
            color: Rgba8(9, 8, 7, 255),
            visible,
            input,
        },
        parent,
        semantic,
    }
}

fn root() -> NodePathV1 {
    NodePathV1::root()
}

fn container() -> NodePathV1 {
    root().static_child(0)
}

fn control() -> NodePathV1 {
    container().static_child(0)
}

fn item(key: u64) -> NodePathV1 {
    container().member(1, key)
}

fn fixture_nodes() -> Vec<RebuildNodeV1> {
    vec![
        node(root(), None, 100, 80, true, InputPolicy::Ignore, false),
        node(container(), Some(root()), 120, 60, true, InputPolicy::Ignore, false),
        node(control(), Some(container()), 40, 20, true, InputPolicy::Accept, true),
        node(item(7), Some(container()), 50, 30, true, InputPolicy::Accept, false),
        node(item(8), Some(container()), 50, 30, false, InputPolicy::Accept, false),
    ]
}

fn capacity() -> HeadlessProjectionCapacityV1 {
    HeadlessProjectionCapacityV1 {
        computed_styles: 8,
        geometry: 8,
        semantics: 1,
        hit_regions: 8,
        scene_rectangles: 8,
    }
}

#[test]
fn intersection_clamps_empty_extents() {
    assert_eq!(intersect(rect(0, 0, 10, 10), rect(5, 5, 10, 10)), Some(rect(5, 5, 5, 5)));
    assert_eq!(intersect(rect(0, 0, 10, 10), rect(20, 0, 5, 5)), Some(rect(20, 0, 0, 5)));
    assert_eq!(intersect(rect(i32::MAX, 0, 1, 1), rect(0, 0, 1, 1)), None);
}

#[test]
fn children_flow_down_their_parent_and_are_clipped() {
    let frames = layout_nodes(&fixture_nodes(), HeadlessSurface::new(90, 70)).unwrap();
    assert_eq!(frames[0].bounds, rect(0, 0, 100, 80));
    assert_eq!(frames[0].clip, rect(0, 0, 90, 70));
    assert_eq!(frames[1].bounds, rect(0, 0, 100, 60));
    assert_eq!(frames[2].bounds, rect(0, 0, 40, 20));
    assert_eq!(frames[3].bounds, rect(0, 20, 50, 30));
    assert_eq!(frames[4].bounds, rect(0, 50, 50, 30));
    assert_eq!(frames[4].clip, rect(0, 50, 50, 10));
    assert!(!frames[4].visible);
}

#[test]
fn the_rebuild_projects_shown_nodes_only() {
    let projection =
        rebuild_projection_v1(HeadlessSurface::new(90, 70), &fixture_nodes(), capacity(), 5)
            .unwrap();
    assert_eq!(projection.computed_styles.len(), 5);
    assert_eq!(projection.geometries.len(), 5);
    assert_eq!(projection.semantics.len(), 1);
    assert_eq!(projection.semantics[0].label, 5);
    assert_eq!(projection.semantics[0].path.segments(), control().segments());
    assert_eq!(projection.hit_regions.len(), 2);
    assert_eq!(projection.hit_regions[1].path.segments(), item(7).segments());
    assert_eq!(projection.scene_rectangles.len(), 4);
    assert_eq!(projection.scene_rectangles[3].rectangle, rect(0, 20, 50, 30));

    let again =
        rebuild_projection_v1(HeadlessSurface::new(90, 70), &fixture_nodes(), capacity(), 5)
            .unwrap();
    assert!(compare_headless_projection_v1(&projection, &again).unwrap().is_none());
}

#[test]
fn rebuild_failures_follow_the_closed_order() {
    let error = rebuild_projection_v1(HeadlessSurface::new(-1, 70), &fixture_nodes(), capacity(), 5)
        .unwrap_err();
    assert_eq!(error.kind(), HarnessErrorKind::StateMismatch);

    let mut tight = capacity();
    tight.geometry = 4;
    let error = rebuild_projection_v1(HeadlessSurface::new(90, 70), &fixture_nodes(), tight, 5)
        .unwrap_err();
    assert_eq!(error.kind(), HarnessErrorKind::LimitExceeded(HarnessLimitKind::NormalizedNodes));

    let mut orphan = fixture_nodes();
    orphan[3].parent = Some(item(99));
    let error = rebuild_projection_v1(HeadlessSurface::new(90, 70), &orphan, capacity(), 5)
        .unwrap_err();
    assert_eq!(error.kind(), HarnessErrorKind::StateMismatch);

    let mut repeated = fixture_nodes();
    repeated[4].style.path = item(7);
    let error = rebuild_projection_v1(HeadlessSurface::new(90, 70), &repeated, capacity(), 5)
        .unwrap_err();
    assert_eq!(error.kind(), HarnessErrorKind::StateMismatch);

    let mut tall = fixture_nodes();
    tall[2].style.height = i32::MAX;
    let error = rebuild_projection_v1(HeadlessSurface::new(90, 70), &tall, capacity(), 5)
        .unwrap_err();
    assert_eq!(error.kind(), HarnessErrorKind::ArithmeticExhausted);

    let mut crowded = capacity();
    crowded.hit_regions = 1;
    let error = rebuild_projection_v1(HeadlessSurface::new(90, 70), &fixture_nodes(), crowded, 5)
        .unwrap_err();
    assert_eq!(error.kind(), HarnessErrorKind::StateMismatch);
}
