use vstd::prelude::*;

use crate::case::{InputPolicy, Rgba8};
use crate::error::{HarnessError, HarnessErrorKind, HarnessLimitKind};
use crate::headless::geometry::{
    HeadlessRect, HeadlessSemanticAction, HeadlessSemanticRole, HeadlessSurface,
};
use crate::headless::oracle::normalize::HeadlessProjectionCapacityV1;
use crate::headless::oracle::{
    NormalizedHeadlessComputedStyleV1, NormalizedHeadlessGeometryV1, NormalizedHeadlessHitRegionV1,
    NormalizedHeadlessProjectionV1, NormalizedHeadlessSceneRectangleV1,
    NormalizedHeadlessSemanticV1, ProjectionRecordV1, same_records,
};
use crate::semantic::{NodePathV1, PathSegmentV1};

verus! {

/// One node of the clean logical rebuild, in authored order: its materialized
/// style, its parent's path (none for the root) and whether it is an
/// instance of the semantic template.
#[derive(Debug)]
pub struct RebuildNodeV1 {
    pub style: NormalizedHeadlessComputedStyleV1,
    pub parent: Option<NodePathV1>,
    pub semantic: bool,
}

/// The absolute frame laid out for one node.
#[derive(Clone, Copy, Debug, PartialEq, Eq, Structural)]
pub struct LayoutFrameV1 {
    pub bounds: HeadlessRect,
    pub clip: HeadlessRect,
    pub visible: bool,
}

/// The larger of two integers.
pub open spec fn larger(first: int, second: int) -> int {
    if first >= second {
        first
    } else {
        second
    }
}

/// The smaller of two integers.
pub open spec fn smaller(first: int, second: int) -> int {
    if first <= second {
        first
    } else {
        second
    }
}

/// Whether an integer is an `i32`.
pub open spec fn fits_i32(value: int) -> bool {
    i32::MIN <= value <= i32::MAX
}

/// The intersection of two rectangles, empty extents clamped to zero, or
/// `None` when an edge or an extent does not fit in `i32`.
pub open spec fn intersection(first: HeadlessRect, second: HeadlessRect) -> Option<HeadlessRect> {
    let x = larger(first.x as int, second.x as int);
    let y = larger(first.y as int, second.y as int);
    let first_right = first.x + first.width;
    let second_right = second.x + second.width;
    let first_bottom = first.y + first.height;
    let second_bottom = second.y + second.height;
    let right = smaller(first_right, second_right);
    let bottom = smaller(first_bottom, second_bottom);
    let width = if right <= x {
        0
    } else {
        right - x
    };
    let height = if bottom <= y {
        0
    } else {
        bottom - y
    };
    if !fits_i32(first_right) || !fits_i32(second_right) || !fits_i32(first_bottom) || !fits_i32(
        second_bottom,
    ) || !fits_i32(width) || !fits_i32(height) {
        None
    } else {
        Some(HeadlessRect { x: x as i32, y: y as i32, width: width as i32, height: height as i32 })
    }
}

/// Whether a point lies inside a rectangle, right and bottom edges excluded.
pub open spec fn contains_point(rect: HeadlessRect, x: int, y: int) -> bool {
    &&& rect.x <= x < rect.x + rect.width
    &&& rect.y <= y < rect.y + rect.height
}

/// Every point of one rectangle lies inside another.
pub open spec fn rect_within(inner: HeadlessRect, outer: HeadlessRect) -> bool {
    forall|x: int, y: int| #[trigger] contains_point(inner, x, y) ==> contains_point(outer, x, y)
}

/// An intersection holds exactly the points that lie in both rectangles,
/// with extents that are never negative.
pub proof fn lemma_intersection_points(first: HeadlessRect, second: HeadlessRect)
    ensures
        intersection(first, second) matches Some(clip) ==> {
            &&& clip.width >= 0
            &&& clip.height >= 0
            &&& forall|x: int, y: int|
                #[trigger] contains_point(clip, x, y) <==> contains_point(first, x, y)
                    && contains_point(second, x, y)
        },
{
}

fn end(origin: i32, extent: i32) -> (result: Option<i32>)
    ensures
        match result {
            Some(value) => value == origin + extent,
            None => !fits_i32(origin + extent),
        },
{
    origin.checked_add(extent)
}

/// Intersects two rectangles, or reports exhausted arithmetic.
pub fn intersect(first: HeadlessRect, second: HeadlessRect) -> (result: Option<HeadlessRect>)
    ensures
        result == intersection(first, second),
        result matches Some(clip) ==> rect_within(clip, first) && rect_within(clip, second),
{
    proof {
        lemma_intersection_points(first, second);
    }
    let x = if first.x >= second.x {
        first.x
    } else {
        second.x
    };
    let y = if first.y >= second.y {
        first.y
    } else {
        second.y
    };
    let first_right = end(first.x, first.width)?;
    let second_right = end(second.x, second.width)?;
    let first_bottom = end(first.y, first.height)?;
    let second_bottom = end(second.y, second.height)?;
    let right = if first_right <= second_right {
        first_right
    } else {
        second_right
    };
    let bottom = if first_bottom <= second_bottom {
        first_bottom
    } else {
        second_bottom
    };
    let width = if right <= x {
        0
    } else {
        right.checked_sub(x)?
    };
    let height = if bottom <= y {
        0
    } else {
        bottom.checked_sub(y)?
    };
    Some(HeadlessRect::new(x, y, width, height))
}

/// Laid-out nodes so far: their paths, frames and child cursors, in order.
pub struct LayoutState {
    pub paths: Seq<Seq<PathSegmentV1>>,
    pub frames: Seq<LayoutFrameV1>,
    pub cursors: Seq<i32>,
}

/// The position of a path among the laid-out nodes, if it is there.
pub open spec fn path_index(paths: Seq<Seq<PathSegmentV1>>, path: Seq<PathSegmentV1>) -> Option<int> {
    if exists|i: int| 0 <= i < paths.len() && paths[i] == path {
        Some(choose|i: int| 0 <= i < paths.len() && paths[i] == path)
    } else {
        None
    }
}

/// The path of a node's parent.
pub open spec fn parent_path(node: &RebuildNodeV1) -> Option<Seq<PathSegmentV1>> {
    match node.parent {
        Some(parent) => Some(parent@),
        None => None,
    }
}

/// The surface as a rectangle at the origin.
pub open spec fn surface_rect(surface: HeadlessSurface) -> HeadlessRect {
    HeadlessRect { x: 0, y: 0, width: surface.width, height: surface.height }
}

/// Lays out one more node: a root fills from the origin and is clipped by
/// the surface; a child sits at its parent's cursor, no wider than its
/// parent, is clipped by its parent's clip, is visible only inside a visible
/// parent, and moves the cursor down by its height. A missing parent or a
/// repeated path is a state mismatch.
pub open spec fn layout_step(
    state: LayoutState,
    node: &RebuildNodeV1,
    surface: HeadlessSurface,
) -> Result<LayoutState, HarnessErrorKind> {
    let style = node.style;
    let placed: Result<(LayoutFrameV1, Seq<i32>), HarnessErrorKind> = match parent_path(node) {
        Some(parent) => match path_index(state.paths, parent) {
            None => Err(HarnessErrorKind::StateMismatch),
            Some(index) => {
                let parent_frame = state.frames[index];
                let cursor = state.cursors[index];
                let bounds = HeadlessRect {
                    x: parent_frame.bounds.x,
                    y: cursor,
                    width: smaller(style.width as int, parent_frame.bounds.width as int) as i32,
                    height: style.height,
                };
                if !fits_i32(cursor + style.height) {
                    Err(HarnessErrorKind::ArithmeticExhausted)
                } else {
                    match intersection(bounds, parent_frame.clip) {
                        None => Err(HarnessErrorKind::ArithmeticExhausted),
                        Some(clip) => Ok(
                            (
                                LayoutFrameV1 {
                                    bounds,
                                    clip,
                                    visible: parent_frame.visible && style.visible,
                                },
                                state.cursors.update(index, (cursor + style.height) as i32),
                            ),
                        ),
                    }
                }
            },
        },
        None => {
            let bounds = HeadlessRect { x: 0, y: 0, width: style.width, height: style.height };
            match intersection(bounds, surface_rect(surface)) {
                None => Err(HarnessErrorKind::ArithmeticExhausted),
                Some(clip) => Ok(
                    (LayoutFrameV1 { bounds, clip, visible: style.visible }, state.cursors),
                ),
            }
        },
    };
    match placed {
        Err(kind) => Err(kind),
        Ok((frame, cursors)) => if path_index(state.paths, style.path@) is Some {
            Err(HarnessErrorKind::StateMismatch)
        } else {
            Ok(
                LayoutState {
                    paths: state.paths.push(style.path@),
                    frames: state.frames.push(frame),
                    cursors: cursors.push(frame.bounds.y),
                },
            )
        },
    }
}

/// The layout of the first `count` nodes, or the first failure.
pub open spec fn layout_after(
    nodes: Seq<RebuildNodeV1>,
    surface: HeadlessSurface,
    count: int,
) -> Result<LayoutState, HarnessErrorKind>
    decreases count,
{
    if count <= 0 {
        Ok(LayoutState { paths: Seq::empty(), frames: Seq::empty(), cursors: Seq::empty() })
    } else {
        match layout_after(nodes, surface, count - 1) {
            Err(kind) => Err(kind),
            Ok(state) => layout_step(state, &nodes[count - 1], surface),
        }
    }
}

/// A layout failure stays the failure of every longer prefix.
pub proof fn lemma_layout_failure_persists(
    nodes: Seq<RebuildNodeV1>,
    surface: HeadlessSurface,
    failed: int,
    count: int,
)
    requires
        0 <= failed <= count,
        layout_after(nodes, surface, failed) is Err,
    ensures
        layout_after(nodes, surface, count) == layout_after(nodes, surface, failed),
    decreases count - failed,
{
    if count > failed {
        lemma_layout_failure_persists(nodes, surface, failed, count - 1);
    }
}

/// A successful layout has one frame, path and cursor per node laid out.
pub proof fn lemma_layout_length(nodes: Seq<RebuildNodeV1>, surface: HeadlessSurface, count: int)
    requires
        count >= 0,
    ensures
        layout_after(nodes, surface, count) is Ok ==> {
            let state = layout_after(nodes, surface, count)->Ok_0;
            &&& state.frames.len() == count
            &&& state.paths.len() == count
            &&& state.cursors.len() == count
        },
    decreases count,
{
    if count > 0 {
        lemma_layout_length(nodes, surface, count - 1);
    }
}

/// A laid-out frame's visibility at one index: a root is visible as its own
/// style says; a child is visible exactly when an earlier node at its
/// parent's path is visible and its own style is.
pub open spec fn inherits_visibility(
    nodes: Seq<RebuildNodeV1>,
    frames: Seq<LayoutFrameV1>,
    i: int,
) -> bool {
    match nodes[i].parent {
        None => frames[i].visible == nodes[i].style.visible,
        Some(parent) => exists|j: int|
            0 <= j < i && #[trigger] nodes[j].style.path@ == parent@ && frames[i].visible == (
            frames[j].visible && nodes[i].style.visible),
    }
}

/// Every frame of a layout inherits its visibility from its parent.
pub open spec fn visibility_inherited(nodes: Seq<RebuildNodeV1>, frames: Seq<LayoutFrameV1>) -> bool {
    &&& frames.len() == nodes.len()
    &&& forall|i: int| 0 <= i < nodes.len() ==> #[trigger] inherits_visibility(nodes, frames, i)
}

/// A successful layout holds each node's path at its own index, and each
/// frame is visible only where its parent's frame is: a hidden container
/// hides all its descendants.
pub proof fn lemma_layout_inherits_visibility(
    nodes: Seq<RebuildNodeV1>,
    surface: HeadlessSurface,
    count: int,
)
    requires
        0 <= count <= nodes.len(),
    ensures
        layout_after(nodes, surface, count) is Ok ==> {
            let state = layout_after(nodes, surface, count)->Ok_0;
            &&& state.paths.len() == count
            &&& state.frames.len() == count
            &&& forall|i: int| 0 <= i < count ==> #[trigger] state.paths[i] == nodes[i].style.path@
            &&& forall|i: int| 0 <= i < count ==> #[trigger] inherits_visibility(nodes, state.frames, i)
        },
    decreases count,
{
    if count > 0 {
        lemma_layout_inherits_visibility(nodes, surface, count - 1);
        lemma_layout_length(nodes, surface, count - 1);
        if layout_after(nodes, surface, count) is Ok {
            let prev = layout_after(nodes, surface, count - 1)->Ok_0;
            let state = layout_after(nodes, surface, count)->Ok_0;
            let node = nodes[count - 1];
            assert(state == layout_step(prev, &node, surface)->Ok_0);
            assert(state.paths == prev.paths.push(node.style.path@));
            assert forall|i: int| 0 <= i < count implies #[trigger] state.paths[i]
                == nodes[i].style.path@ by {
                if i < count - 1 {
                    assert(state.paths[i] == prev.paths[i]);
                }
            }
            assert forall|i: int| 0 <= i < count implies #[trigger] inherits_visibility(
                nodes,
                state.frames,
                i,
            ) by {
                if i < count - 1 {
                    assert(inherits_visibility(nodes, prev.frames, i));
                    assert(state.frames[i] == prev.frames[i]);
                    match nodes[i].parent {
                        None => {},
                        Some(parent) => {
                            let j = choose|j: int|
                                0 <= j < i && #[trigger] nodes[j].style.path@ == parent@
                                    && prev.frames[i].visible == (prev.frames[j].visible
                                    && nodes[i].style.visible);
                            assert(state.frames[j] == prev.frames[j]);
                        },
                    }
                } else {
                    match node.parent {
                        None => {},
                        Some(parent) => {
                            let index = path_index(prev.paths, parent@)->Some_0;
                            assert(prev.paths[index] == parent@);
                            assert(nodes[index].style.path@ == parent@);
                            assert(state.frames[index] == prev.frames[index]);
                        },
                    }
                }
            }
        }
    }
}

/// A laid-out frame's place at one index: a root sits at the origin with its
/// own extents and is clipped within the surface; a child sits at the left
/// edge of an earlier node at its parent's path, is no wider than that
/// parent nor than its own style, keeps its own height, and is clipped
/// within its parent's clip.
pub open spec fn nested_in_parent(
    nodes: Seq<RebuildNodeV1>,
    frames: Seq<LayoutFrameV1>,
    surface: HeadlessSurface,
    i: int,
) -> bool {
    let frame = frames[i];
    let style = nodes[i].style;
    match nodes[i].parent {
        None => {
            &&& frame.bounds == HeadlessRect { x: 0, y: 0, width: style.width, height: style.height }
            &&& rect_within(frame.clip, surface_rect(surface))
        },
        Some(parent) => exists|j: int|
            0 <= j < i && #[trigger] nodes[j].style.path@ == parent@ && {
                let outer = frames[j];
                &&& frame.bounds.x == outer.bounds.x
                &&& frame.bounds.width <= outer.bounds.width
                &&& frame.bounds.width <= style.width
                &&& (frame.bounds.width == outer.bounds.width || frame.bounds.width
                    == style.width)
                &&& frame.bounds.height == style.height
                &&& rect_within(frame.clip, outer.clip)
            },
    }
}

/// In a successful layout every node is placed and clipped inside its
/// parent, and every root inside the surface.
pub proof fn lemma_layout_nests_clips(nodes: Seq<RebuildNodeV1>, surface: HeadlessSurface, count: int)
    requires
        0 <= count <= nodes.len(),
    ensures
        layout_after(nodes, surface, count) is Ok ==> {
            let state = layout_after(nodes, surface, count)->Ok_0;
            forall|i: int| 0 <= i < count ==> #[trigger] nested_in_parent(nodes, state.frames, surface, i)
        },
    decreases count,
{
    if count > 0 {
        lemma_layout_nests_clips(nodes, surface, count - 1);
        lemma_layout_inherits_visibility(nodes, surface, count - 1);
        lemma_layout_length(nodes, surface, count - 1);
        if layout_after(nodes, surface, count) is Ok {
            let prev = layout_after(nodes, surface, count - 1)->Ok_0;
            let state = layout_after(nodes, surface, count)->Ok_0;
            let node = nodes[count - 1];
            assert(state == layout_step(prev, &node, surface)->Ok_0);
            assert forall|i: int| 0 <= i < count implies #[trigger] nested_in_parent(
                nodes,
                state.frames,
                surface,
                i,
            ) by {
                if i < count - 1 {
                    assert(nested_in_parent(nodes, prev.frames, surface, i));
                    assert(state.frames[i] == prev.frames[i]);
                    match nodes[i].parent {
                        None => {},
                        Some(parent) => {
                            let j = choose|j: int|
                                0 <= j < i && #[trigger] nodes[j].style.path@ == parent@ && {
                                    let outer = prev.frames[j];
                                    let frame = prev.frames[i];
                                    let style = nodes[i].style;
                                    &&& frame.bounds.x == outer.bounds.x
                                    &&& frame.bounds.width <= outer.bounds.width
                                    &&& frame.bounds.width <= style.width
                                    &&& (frame.bounds.width == outer.bounds.width
                                        || frame.bounds.width == style.width)
                                    &&& frame.bounds.height == style.height
                                    &&& rect_within(frame.clip, outer.clip)
                                };
                            assert(state.frames[j] == prev.frames[j]);
                        },
                    }
                } else {
                    match node.parent {
                        None => {
                            let bounds = HeadlessRect {
                                x: 0,
                                y: 0,
                                width: node.style.width,
                                height: node.style.height,
                            };
                            lemma_intersection_points(bounds, surface_rect(surface));
                        },
                        Some(parent) => {
                            let index = path_index(prev.paths, parent@)->Some_0;
                            assert(prev.paths[index] == parent@);
                            assert(nodes[index].style.path@ == parent@);
                            assert(state.frames[index] == prev.frames[index]);
                            let parent_frame = prev.frames[index];
                            let bounds = HeadlessRect {
                                x: parent_frame.bounds.x,
                                y: prev.cursors[index],
                                width: smaller(
                                    node.style.width as int,
                                    parent_frame.bounds.width as int,
                                ) as i32,
                                height: node.style.height,
                            };
                            lemma_intersection_points(bounds, parent_frame.clip);
                        },
                    }
                }
            }
        }
    }
}

/// The last of the first `count` nodes whose parent is at `parent`, if any.
pub open spec fn last_child(nodes: Seq<RebuildNodeV1>, parent: Seq<PathSegmentV1>, count: int) -> Option<
    int,
>
    decreases count,
{
    if count <= 0 {
        None
    } else if parent_path(&nodes[count - 1]) == Some(parent) {
        Some(count - 1)
    } else {
        last_child(nodes, parent, count - 1)
    }
}

/// Where the next child of the node at index `j` starts once `count` nodes
/// are laid out: at the node's own top, or where its last child ends.
pub open spec fn next_child_top(
    nodes: Seq<RebuildNodeV1>,
    frames: Seq<LayoutFrameV1>,
    j: int,
    count: int,
) -> int {
    match last_child(nodes, nodes[j].style.path@, count) {
        None => frames[j].bounds.y as int,
        Some(k) => frames[k].bounds.y + nodes[k].style.height,
    }
}

/// A child's top at one index: the first child of a node starts at the
/// node's top, and each later child starts where its previous sibling ends.
pub open spec fn stacked(nodes: Seq<RebuildNodeV1>, frames: Seq<LayoutFrameV1>, i: int) -> bool {
    match nodes[i].parent {
        None => true,
        Some(parent) => exists|j: int|
            0 <= j < i && #[trigger] nodes[j].style.path@ == parent@ && frames[i].bounds.y
                == next_child_top(nodes, frames, j, i),
    }
}

/// In a successful layout, children stack down their parent in authored
/// order: each starts at its parent's top or at the end of its previous
/// sibling.
pub proof fn lemma_layout_stacks(nodes: Seq<RebuildNodeV1>, surface: HeadlessSurface, count: int)
    requires
        0 <= count <= nodes.len(),
    ensures
        layout_after(nodes, surface, count) is Ok ==> {
            let state = layout_after(nodes, surface, count)->Ok_0;
            &&& distinct_paths(state.paths)
            &&& forall|j: int|
                0 <= j < count ==> #[trigger] state.cursors[j] == next_child_top(
                    nodes,
                    state.frames,
                    j,
                    count,
                )
            &&& forall|i: int| 0 <= i < count ==> #[trigger] stacked(nodes, state.frames, i)
        },
    decreases count,
{
    if count > 0 {
        lemma_layout_stacks(nodes, surface, count - 1);
        lemma_layout_inherits_visibility(nodes, surface, count - 1);
        lemma_layout_inherits_visibility(nodes, surface, count);
        lemma_layout_length(nodes, surface, count - 1);
        lemma_layout_length(nodes, surface, count);
        if layout_after(nodes, surface, count) is Ok {
            let prev = layout_after(nodes, surface, count - 1)->Ok_0;
            let state = layout_after(nodes, surface, count)->Ok_0;
            let c = count - 1;
            let node = nodes[c];
            let path = node.style.path@;
            assert(state == layout_step(prev, &node, surface)->Ok_0);
            assert(path_index(prev.paths, path) is None);
            assert forall|j: int| 0 <= j < c implies prev.paths[j] != path by {
                if prev.paths[j] == path {
                    assert(exists|i: int| 0 <= i < prev.paths.len() && prev.paths[i] == path);
                }
            }
            assert(state.paths == prev.paths.push(path));
            assert(distinct_paths(state.paths)) by {
                assert forall|a: int, b: int| 0 <= a < b < state.paths.len() implies state.paths[a]
                    != state.paths[b] by {
                    if b < c {
                        assert(state.paths[a] == prev.paths[a]);
                        assert(state.paths[b] == prev.paths[b]);
                    } else {
                        assert(state.paths[a] == prev.paths[a]);
                    }
                }
            }
            // No earlier node has the new node as its parent.
            assert(last_child(nodes, path, c) is None) by {
                assert forall|k: int| 0 <= k < c implies parent_path(&#[trigger] nodes[k]) != Some(
                    path,
                ) by {
                    assert(inherits_visibility(nodes, prev.frames, k));
                    match nodes[k].parent {
                        None => {},
                        Some(parent) => {
                            let j = choose|j: int|
                                0 <= j < k && #[trigger] nodes[j].style.path@ == parent@
                                    && prev.frames[k].visible == (prev.frames[j].visible
                                    && nodes[k].style.visible);
                            assert(prev.paths[j] == nodes[j].style.path@);
                        },
                    }
                }
                lemma_no_last_child(nodes, path, c);
            }
            match node.parent {
                None => {
                    assert forall|j: int| 0 <= j < count implies #[trigger] state.cursors[j]
                        == next_child_top(nodes, state.frames, j, count) by {
                        assert(last_child(nodes, nodes[j].style.path@, count) == last_child(
                            nodes,
                            nodes[j].style.path@,
                            c,
                        ));
                        if j < c {
                            assert(state.cursors[j] == prev.cursors[j]);
                            assert(state.frames[j] == prev.frames[j]);
                            match last_child(nodes, nodes[j].style.path@, c) {
                                None => {},
                                Some(k) => {
                                    lemma_last_child_below(nodes, nodes[j].style.path@, c);
                                    assert(state.frames[k] == prev.frames[k]);
                                },
                            }
                        }
                    }
                },
                Some(parent) => {
                    let index = path_index(prev.paths, parent@)->Some_0;
                    assert(prev.paths[index] == parent@);
                    assert(nodes[index].style.path@ == parent@);
                    assert forall|j: int| 0 <= j < count implies #[trigger] state.cursors[j]
                        == next_child_top(nodes, state.frames, j, count) by {
                        if j == c {
                            assert(last_child(nodes, path, count) == last_child(nodes, path, c));
                        } else if j == index {
                            assert(last_child(nodes, nodes[j].style.path@, count) == Some(c));
                        } else {
                            assert(prev.paths[j] == nodes[j].style.path@);
                            assert(prev.paths[j] != prev.paths[index]);
                            assert(last_child(nodes, nodes[j].style.path@, count) == last_child(
                                nodes,
                                nodes[j].style.path@,
                                c,
                            ));
                            assert(state.cursors[j] == prev.cursors[j]);
                            assert(state.frames[j] == prev.frames[j]);
                            match last_child(nodes, nodes[j].style.path@, c) {
                                None => {},
                                Some(k) => {
                                    lemma_last_child_below(nodes, nodes[j].style.path@, c);
                                    assert(state.frames[k] == prev.frames[k]);
                                },
                            }
                        }
                    }
                },
            }
            assert forall|i: int| 0 <= i < count implies #[trigger] stacked(nodes, state.frames, i) by {
                if i < c {
                    assert(stacked(nodes, prev.frames, i));
                    assert(state.frames[i] == prev.frames[i]);
                    match nodes[i].parent {
                        None => {},
                        Some(parent) => {
                            let j = choose|j: int|
                                0 <= j < i && #[trigger] nodes[j].style.path@ == parent@
                                    && prev.frames[i].bounds.y == next_child_top(
                                    nodes,
                                    prev.frames,
                                    j,
                                    i,
                                );
                            assert(state.frames[j] == prev.frames[j]);
                            match last_child(nodes, nodes[j].style.path@, i) {
                                None => {},
                                Some(k) => {
                                    lemma_last_child_below(nodes, nodes[j].style.path@, i);
                                    assert(state.frames[k] == prev.frames[k]);
                                },
                            }
                            assert(next_child_top(nodes, state.frames, j, i) == next_child_top(
                                nodes,
                                prev.frames,
                                j,
                                i,
                            ));
                        },
                    }
                } else {
                    match node.parent {
                        None => {},
                        Some(parent) => {
                            let index = path_index(prev.paths, parent@)->Some_0;
                            assert(prev.paths[index] == parent@);
                            assert(nodes[index].style.path@ == parent@);
                            assert(state.frames[index] == prev.frames[index]);
                            assert(prev.cursors[index] == next_child_top(
                                nodes,
                                prev.frames,
                                index,
                                c,
                            ));
                            match last_child(nodes, parent@, c) {
                                None => {},
                                Some(k) => {
                                    lemma_last_child_below(nodes, parent@, c);
                                    assert(state.frames[k] == prev.frames[k]);
                                },
                            }
                            assert(next_child_top(nodes, state.frames, index, c) == next_child_top(
                                nodes,
                                prev.frames,
                                index,
                                c,
                            ));
                        },
                    }
                }
            }
        }
    }
}

proof fn lemma_last_child_below(nodes: Seq<RebuildNodeV1>, parent: Seq<PathSegmentV1>, count: int)
    ensures
        last_child(nodes, parent, count) matches Some(k) ==> 0 <= k < count,
    decreases count,
{
    if count > 0 {
        lemma_last_child_below(nodes, parent, count - 1);
    }
}

proof fn lemma_no_last_child(nodes: Seq<RebuildNodeV1>, parent: Seq<PathSegmentV1>, count: int)
    requires
        forall|k: int| 0 <= k < count ==> parent_path(&#[trigger] nodes[k]) != Some(parent),
    ensures
        last_child(nodes, parent, count) is None,
    decreases count,
{
    if count > 0 {
        lemma_no_last_child(nodes, parent, count - 1);
    }
}

/// The views of a sequence of paths.
pub open spec fn paths_view(paths: Seq<NodePathV1>) -> Seq<Seq<PathSegmentV1>> {
    paths.map_values(|path: NodePathV1| path@)
}

/// No path occurs twice.
pub open spec fn distinct_paths(paths: Seq<Seq<PathSegmentV1>>) -> bool {
    forall|a: int, b: int| 0 <= a < b < paths.len() ==> paths[a] != paths[b]
}

fn find_path(paths: &Vec<NodePathV1>, path: &NodePathV1) -> (index: Option<usize>)
    requires
        distinct_paths(paths_view(paths@)),
    ensures
        match index {
            Some(i) => i < paths@.len() && path_index(paths_view(paths@), path@) == Some(i as int),
            None => path_index(paths_view(paths@), path@) is None,
        },
{
    let ghost views = paths_view(paths@);
    let mut i: usize = 0;
    while i < paths.len()
        invariant
            i <= paths@.len(),
            views == paths_view(paths@),
            distinct_paths(views),
            forall|k: int| 0 <= k < i ==> views[k] != path@,
        decreases paths@.len() - i,
    {
        if paths[i].same(path) {
            proof {
                assert(views[i as int] == path@);
                let chosen = choose|k: int| 0 <= k < views.len() && views[k] == path@;
                assert(views[chosen] == path@);
                assert(chosen == i) by {
                    if chosen < i {
                    } else if chosen > i {
                        assert(views[i as int] != views[chosen]);
                    }
                }
            }
            return Some(i);
        }
        i = i + 1;
    }
    None
}

fn state_error() -> (error: HarnessError)
    ensures
        error.is_unlocated(HarnessErrorKind::StateMismatch),
{
    HarnessError::new(HarnessErrorKind::StateMismatch)
}

fn arithmetic_error() -> (error: HarnessError)
    ensures
        error.is_unlocated(HarnessErrorKind::ArithmeticExhausted),
{
    HarnessError::new(HarnessErrorKind::ArithmeticExhausted)
}

/// Lays out every node in authored order.
pub fn layout_nodes(nodes: &Vec<RebuildNodeV1>, surface: HeadlessSurface) -> (result: Result<
    Vec<LayoutFrameV1>,
    HarnessError,
>)
    ensures
        match result {
            Ok(frames) => layout_after(nodes@, surface, nodes@.len() as int) is Ok && frames@
                == layout_after(nodes@, surface, nodes@.len() as int)->Ok_0.frames,
            Err(error) => layout_after(nodes@, surface, nodes@.len() as int) is Err
                && error.is_unlocated(layout_after(nodes@, surface, nodes@.len() as int)->Err_0),
        },
        result is Ok ==> visibility_inherited(nodes@, result->Ok_0@),
        result is Ok ==> forall|i: int|
            0 <= i < nodes@.len() ==> #[trigger] nested_in_parent(nodes@, result->Ok_0@, surface, i),
        result is Ok ==> forall|i: int|
            0 <= i < nodes@.len() ==> #[trigger] stacked(nodes@, result->Ok_0@, i),
{
    let mut paths: Vec<NodePathV1> = Vec::new();
    let mut frames: Vec<LayoutFrameV1> = Vec::new();
    let mut cursors: Vec<i32> = Vec::new();
    let surface_bounds = HeadlessRect::new(0, 0, surface.width, surface.height);
    let mut i: usize = 0;
    proof {
        assert(paths_view(paths@) =~= Seq::<Seq<PathSegmentV1>>::empty());
        assert(frames@ =~= Seq::<LayoutFrameV1>::empty());
        assert(cursors@ =~= Seq::<i32>::empty());
    }
    while i < nodes.len()
        invariant
            i <= nodes@.len(),
            surface_bounds == surface_rect(surface),
            layout_after(nodes@, surface, i as int) == Ok::<LayoutState, HarnessErrorKind>(
                LayoutState { paths: paths_view(paths@), frames: frames@, cursors: cursors@ },
            ),
            distinct_paths(paths_view(paths@)),
            paths@.len() == i,
            frames@.len() == i,
            cursors@.len() == i,
        decreases nodes@.len() - i,
    {
        let node = &nodes[i];
        let style = &node.style;
        let ghost state = LayoutState { paths: paths_view(paths@), frames: frames@, cursors: cursors@ };
        proof {
            assert(layout_after(nodes@, surface, i as int + 1) == layout_step(state, node, surface));
        }
        let frame = match &node.parent {
            Some(parent) => {
                let index = match find_path(&paths, parent) {
                    Some(index) => index,
                    None => {
                        proof {
                            lemma_layout_failure_persists(nodes@, surface, i as int + 1, nodes@.len() as int);
                        }
                        return Err(state_error());
                    },
                };
                let parent_frame = frames[index];
                let cursor = cursors[index];
                let width = if style.width <= parent_frame.bounds.width {
                    style.width
                } else {
                    parent_frame.bounds.width
                };
                let bounds = HeadlessRect::new(parent_frame.bounds.x, cursor, width, style.height);
                let next = match cursor.checked_add(style.height) {
                    Some(next) => next,
                    None => {
                        proof {
                            lemma_layout_failure_persists(nodes@, surface, i as int + 1, nodes@.len() as int);
                        }
                        return Err(arithmetic_error());
                    },
                };
                let clip = match intersect(bounds, parent_frame.clip) {
                    Some(clip) => clip,
                    None => {
                        proof {
                            lemma_layout_failure_persists(nodes@, surface, i as int + 1, nodes@.len() as int);
                        }
                        return Err(arithmetic_error());
                    },
                };
                cursors.set(index, next);
                LayoutFrameV1 { bounds, clip, visible: parent_frame.visible && style.visible }
            },
            None => {
                let bounds = HeadlessRect::new(0, 0, style.width, style.height);
                let clip = match intersect(bounds, surface_bounds) {
                    Some(clip) => clip,
                    None => {
                        proof {
                            lemma_layout_failure_persists(nodes@, surface, i as int + 1, nodes@.len() as int);
                        }
                        return Err(arithmetic_error());
                    },
                };
                LayoutFrameV1 { bounds, clip, visible: style.visible }
            },
        };
        if find_path(&paths, &style.path).is_some() {
            proof {
                lemma_layout_failure_persists(nodes@, surface, i as int + 1, nodes@.len() as int);
            }
            return Err(state_error());
        }
        let ghost before = paths_view(paths@);
        paths.push(style.path.clone());
        frames.push(frame);
        cursors.push(frame.bounds.y);
        proof {
            assert(paths_view(paths@) =~= before.push(style.path@));
            assert forall|a: int, b: int| 0 <= a < b < paths_view(paths@).len() implies paths_view(
                paths@,
            )[a] != paths_view(paths@)[b] by {
                if b == before.len() {
                    assert(paths_view(paths@)[a] == before[a]);
                    if before[a] == style.path@ {
                        assert(exists|k: int| 0 <= k < before.len() && before[k] == style.path@);
                    }
                }
            }
        }
        i = i + 1;
    }
    proof {
        lemma_layout_inherits_visibility(nodes@, surface, nodes@.len() as int);
        lemma_layout_nests_clips(nodes@, surface, nodes@.len() as int);
        lemma_layout_stacks(nodes@, surface, nodes@.len() as int);
    }
    Ok(frames)
}

/// Whether a laid-out node reaches the scene: visible, with a nonempty clip.
pub open spec fn shown(frame: LayoutFrameV1) -> bool {
    frame.visible && frame.clip.width > 0 && frame.clip.height > 0
}

/// The scene rectangles of the first `count` nodes: each shown node's path,
/// clip and color, in authored order.
pub open spec fn scene_of(nodes: Seq<RebuildNodeV1>, frames: Seq<LayoutFrameV1>, count: int) -> Seq<
    (Seq<PathSegmentV1>, HeadlessRect, Rgba8),
>
    decreases count,
{
    if count <= 0 {
        Seq::empty()
    } else if shown(frames[count - 1]) {
        scene_of(nodes, frames, count - 1).push(
            (nodes[count - 1].style.path@, frames[count - 1].clip, nodes[count - 1].style.color),
        )
    } else {
        scene_of(nodes, frames, count - 1)
    }
}

/// The hit regions of the first `count` nodes: each shown node that accepts
/// input, with its clip.
pub open spec fn hits_of(nodes: Seq<RebuildNodeV1>, frames: Seq<LayoutFrameV1>, count: int) -> Seq<
    (Seq<PathSegmentV1>, HeadlessRect),
>
    decreases count,
{
    if count <= 0 {
        Seq::empty()
    } else if shown(frames[count - 1]) && nodes[count - 1].style.input == InputPolicy::Accept {
        hits_of(nodes, frames, count - 1).push(
            (nodes[count - 1].style.path@, frames[count - 1].clip),
        )
    } else {
        hits_of(nodes, frames, count - 1)
    }
}

/// The semantic nodes among the first `count` nodes: each shown instance of
/// the semantic template.
pub open spec fn semantics_of(
    nodes: Seq<RebuildNodeV1>,
    frames: Seq<LayoutFrameV1>,
    count: int,
) -> Seq<Seq<PathSegmentV1>>
    decreases count,
{
    if count <= 0 {
        Seq::empty()
    } else if shown(frames[count - 1]) && nodes[count - 1].semantic {
        semantics_of(nodes, frames, count - 1).push(nodes[count - 1].style.path@)
    } else {
        semantics_of(nodes, frames, count - 1)
    }
}

/// Whether the node at one index is visible with a nonempty clip.
pub open spec fn visible_at(frames: Seq<LayoutFrameV1>, i: int) -> bool {
    frames[i].visible && frames[i].clip.width > 0 && frames[i].clip.height > 0
}

/// The scene rectangle of the node at one index: its path, clip and color.
pub open spec fn scene_entry(nodes: Seq<RebuildNodeV1>, frames: Seq<LayoutFrameV1>, i: int) -> (
    Seq<PathSegmentV1>,
    HeadlessRect,
    Rgba8,
) {
    (nodes[i].style.path@, frames[i].clip, nodes[i].style.color)
}

/// The index of the node whose rectangle is the scene's `k`-th.
pub open spec fn scene_source(
    nodes: Seq<RebuildNodeV1>,
    frames: Seq<LayoutFrameV1>,
    count: int,
    k: int,
) -> int
    decreases count,
{
    if count <= 0 {
        -1
    } else if shown(frames[count - 1]) && k == scene_of(nodes, frames, count - 1).len() {
        count - 1
    } else {
        scene_source(nodes, frames, count - 1, k)
    }
}

/// The scene holds exactly the visible nodes with a nonempty clip: each
/// scene rectangle is such a node's path, clip and color, and each such
/// node has its rectangle.
pub proof fn lemma_scene_members(nodes: Seq<RebuildNodeV1>, frames: Seq<LayoutFrameV1>, count: int)
    requires
        0 <= count <= nodes.len(),
        count <= frames.len(),
    ensures
        forall|k: int|
            #![trigger scene_of(nodes, frames, count)[k]]
            #![trigger scene_source(nodes, frames, count, k)]
            0 <= k < scene_of(nodes, frames, count).len() ==> {
                let i = scene_source(nodes, frames, count, k);
                &&& 0 <= i < count
                &&& visible_at(frames, i)
                &&& scene_of(nodes, frames, count)[k] === scene_entry(nodes, frames, i)
            },
        forall|i: int|
            0 <= i < count && #[trigger] visible_at(frames, i) ==> scene_of(
                nodes,
                frames,
                count,
            ).contains(scene_entry(nodes, frames, i)),
    decreases count,
{
    if count == 0 {
        assert(scene_of(nodes, frames, count).len() == 0);
    } else {
        lemma_scene_members(nodes, frames, count - 1);
        let before = scene_of(nodes, frames, count - 1);
        let last = count - 1;
        if shown(frames[last]) {
            assert(scene_of(nodes, frames, count) == before.push(scene_entry(nodes, frames, last)));
            assert forall|k: int|
                #![trigger scene_of(nodes, frames, count)[k]]
                #![trigger scene_source(nodes, frames, count, k)]
                0 <= k < scene_of(nodes, frames, count).len() implies {
                let i = scene_source(nodes, frames, count, k);
                &&& 0 <= i < count
                &&& visible_at(frames, i)
                &&& scene_of(nodes, frames, count)[k] === scene_entry(nodes, frames, i)
            } by {
                if k < before.len() {
                    assert(scene_of(nodes, frames, count)[k] == before[k]);
                    assert(scene_source(nodes, frames, count, k) == scene_source(
                        nodes,
                        frames,
                        count - 1,
                        k,
                    ));
                }
            }
            assert forall|i: int| 0 <= i < count && #[trigger] visible_at(frames, i) implies scene_of(
                nodes,
                frames,
                count,
            ).contains(scene_entry(nodes, frames, i)) by {
                if i < last {
                    let k = choose|k: int|
                        0 <= k < before.len() && #[trigger] before[k] == scene_entry(nodes, frames, i);
                    assert(scene_of(nodes, frames, count)[k] == before[k]);
                } else {
                    assert(scene_of(nodes, frames, count)[before.len() as int] == scene_entry(
                        nodes,
                        frames,
                        i,
                    ));
                }
            }
        } else {
            assert(scene_of(nodes, frames, count) == before);
            assert forall|k: int|
                #![trigger scene_of(nodes, frames, count)[k]]
                #![trigger scene_source(nodes, frames, count, k)]
                0 <= k < scene_of(nodes, frames, count).len() implies {
                let i = scene_source(nodes, frames, count, k);
                &&& 0 <= i < count
                &&& visible_at(frames, i)
                &&& scene_of(nodes, frames, count)[k] === scene_entry(nodes, frames, i)
            } by {
                assert(scene_of(nodes, frames, count)[k] == before[k]);
                assert(scene_source(nodes, frames, count, k) == scene_source(
                    nodes,
                    frames,
                    count - 1,
                    k,
                ));
            }
        }
    }
}

/// Whether the node at one index is visible with a nonempty clip and
/// accepts input.
pub open spec fn hit_target_at(nodes: Seq<RebuildNodeV1>, frames: Seq<LayoutFrameV1>, i: int) -> bool {
    visible_at(frames, i) && nodes[i].style.input == InputPolicy::Accept
}

/// The hit region of the node at one index: its path and clip.
pub open spec fn hit_entry(nodes: Seq<RebuildNodeV1>, frames: Seq<LayoutFrameV1>, i: int) -> (
    Seq<PathSegmentV1>,
    HeadlessRect,
) {
    (nodes[i].style.path@, frames[i].clip)
}

/// The index of the node whose region is the `k`-th hit region.
pub open spec fn hit_source(
    nodes: Seq<RebuildNodeV1>,
    frames: Seq<LayoutFrameV1>,
    count: int,
    k: int,
) -> int
    decreases count,
{
    if count <= 0 {
        -1
    } else if shown(frames[count - 1]) && nodes[count - 1].style.input == InputPolicy::Accept && k
        == hits_of(nodes, frames, count - 1).len() {
        count - 1
    } else {
        hit_source(nodes, frames, count - 1, k)
    }
}

/// The hit regions are exactly those of the visible nodes with a nonempty
/// clip that accept input: each region is such a node's path and clip, and
/// each such node has its region.
pub proof fn lemma_hit_members(nodes: Seq<RebuildNodeV1>, frames: Seq<LayoutFrameV1>, count: int)
    requires
        0 <= count <= nodes.len(),
        count <= frames.len(),
    ensures
        forall|k: int|
            #![trigger hits_of(nodes, frames, count)[k]]
            #![trigger hit_source(nodes, frames, count, k)]
            0 <= k < hits_of(nodes, frames, count).len() ==> {
                let i = hit_source(nodes, frames, count, k);
                &&& 0 <= i < count
                &&& hit_target_at(nodes, frames, i)
                &&& hits_of(nodes, frames, count)[k] === hit_entry(nodes, frames, i)
            },
        forall|i: int|
            0 <= i < count && #[trigger] hit_target_at(nodes, frames, i) ==> hits_of(
                nodes,
                frames,
                count,
            ).contains(hit_entry(nodes, frames, i)),
    decreases count,
{
    if count == 0 {
        assert(hits_of(nodes, frames, count).len() == 0);
    } else {
        lemma_hit_members(nodes, frames, count - 1);
        let before = hits_of(nodes, frames, count - 1);
        let last = count - 1;
        if shown(frames[last]) && nodes[last].style.input == InputPolicy::Accept {
            assert(hits_of(nodes, frames, count) == before.push(hit_entry(nodes, frames, last)));
            assert forall|k: int|
                #![trigger hits_of(nodes, frames, count)[k]]
                #![trigger hit_source(nodes, frames, count, k)]
                0 <= k < hits_of(nodes, frames, count).len() implies {
                let i = hit_source(nodes, frames, count, k);
                &&& 0 <= i < count
                &&& hit_target_at(nodes, frames, i)
                &&& hits_of(nodes, frames, count)[k] === hit_entry(nodes, frames, i)
            } by {
                if k < before.len() {
                    assert(hits_of(nodes, frames, count)[k] == before[k]);
                    assert(hit_source(nodes, frames, count, k) == hit_source(
                        nodes,
                        frames,
                        count - 1,
                        k,
                    ));
                }
            }
            assert forall|i: int| 0 <= i < count && #[trigger] hit_target_at(nodes, frames, i) implies hits_of(
                nodes,
                frames,
                count,
            ).contains(hit_entry(nodes, frames, i)) by {
                if i < last {
                    let k = choose|k: int|
                        0 <= k < before.len() && #[trigger] before[k] == hit_entry(nodes, frames, i);
                    assert(hits_of(nodes, frames, count)[k] == before[k]);
                } else {
                    assert(hits_of(nodes, frames, count)[before.len() as int] == hit_entry(
                        nodes,
                        frames,
                        i,
                    ));
                }
            }
        } else {
            assert(hits_of(nodes, frames, count) == before);
            assert forall|k: int|
                #![trigger hits_of(nodes, frames, count)[k]]
                #![trigger hit_source(nodes, frames, count, k)]
                0 <= k < hits_of(nodes, frames, count).len() implies {
                let i = hit_source(nodes, frames, count, k);
                &&& 0 <= i < count
                &&& hit_target_at(nodes, frames, i)
                &&& hits_of(nodes, frames, count)[k] === hit_entry(nodes, frames, i)
            } by {
                assert(hits_of(nodes, frames, count)[k] == before[k]);
                assert(hit_source(nodes, frames, count, k) == hit_source(
                    nodes,
                    frames,
                    count - 1,
                    k,
                ));
            }
        }
    }
}

/// Whether the node at one index is a visible instance of the semantic
/// template with a nonempty clip.
pub open spec fn semantic_at(nodes: Seq<RebuildNodeV1>, frames: Seq<LayoutFrameV1>, i: int) -> bool {
    visible_at(frames, i) && nodes[i].semantic
}

/// The index of the node that is the `k`-th semantic node.
pub open spec fn semantic_source(
    nodes: Seq<RebuildNodeV1>,
    frames: Seq<LayoutFrameV1>,
    count: int,
    k: int,
) -> int
    decreases count,
{
    if count <= 0 {
        -1
    } else if shown(frames[count - 1]) && nodes[count - 1].semantic && k == semantics_of(
        nodes,
        frames,
        count - 1,
    ).len() {
        count - 1
    } else {
        semantic_source(nodes, frames, count - 1, k)
    }
}

/// The semantic nodes are exactly the visible instances of the semantic
/// template with a nonempty clip: each is such a node's path, and each such
/// node is among them.
pub proof fn lemma_semantic_members(nodes: Seq<RebuildNodeV1>, frames: Seq<LayoutFrameV1>, count: int)
    requires
        0 <= count <= nodes.len(),
        count <= frames.len(),
    ensures
        forall|k: int|
            #![trigger semantics_of(nodes, frames, count)[k]]
            #![trigger semantic_source(nodes, frames, count, k)]
            0 <= k < semantics_of(nodes, frames, count).len() ==> {
                let i = semantic_source(nodes, frames, count, k);
                &&& 0 <= i < count
                &&& semantic_at(nodes, frames, i)
                &&& semantics_of(nodes, frames, count)[k] === nodes[i].style.path@
            },
        forall|i: int|
            0 <= i < count && #[trigger] semantic_at(nodes, frames, i) ==> semantics_of(
                nodes,
                frames,
                count,
            ).contains(nodes[i].style.path@),
    decreases count,
{
    if count == 0 {
        assert(semantics_of(nodes, frames, count).len() == 0);
    } else {
        lemma_semantic_members(nodes, frames, count - 1);
        let before = semantics_of(nodes, frames, count - 1);
        let last = count - 1;
        if shown(frames[last]) && nodes[last].semantic {
            assert(semantics_of(nodes, frames, count) == before.push(nodes[last].style.path@));
            assert forall|k: int|
                #![trigger semantics_of(nodes, frames, count)[k]]
                #![trigger semantic_source(nodes, frames, count, k)]
                0 <= k < semantics_of(nodes, frames, count).len() implies {
                let i = semantic_source(nodes, frames, count, k);
                &&& 0 <= i < count
                &&& semantic_at(nodes, frames, i)
                &&& semantics_of(nodes, frames, count)[k] === nodes[i].style.path@
            } by {
                if k < before.len() {
                    assert(semantics_of(nodes, frames, count)[k] == before[k]);
                    assert(semantic_source(nodes, frames, count, k) == semantic_source(
                        nodes,
                        frames,
                        count - 1,
                        k,
                    ));
                }
            }
            assert forall|i: int| 0 <= i < count && #[trigger] semantic_at(nodes, frames, i) implies semantics_of(
                nodes,
                frames,
                count,
            ).contains(nodes[i].style.path@) by {
                if i < last {
                    let k = choose|k: int|
                        0 <= k < before.len() && #[trigger] before[k] == nodes[i].style.path@;
                    assert(semantics_of(nodes, frames, count)[k] == before[k]);
                } else {
                    assert(semantics_of(nodes, frames, count)[before.len() as int] == nodes[i].style.path@);
                }
            }
        } else {
            assert(semantics_of(nodes, frames, count) == before);
            assert forall|k: int|
                #![trigger semantics_of(nodes, frames, count)[k]]
                #![trigger semantic_source(nodes, frames, count, k)]
                0 <= k < semantics_of(nodes, frames, count).len() implies {
                let i = semantic_source(nodes, frames, count, k);
                &&& 0 <= i < count
                &&& semantic_at(nodes, frames, i)
                &&& semantics_of(nodes, frames, count)[k] === nodes[i].style.path@
            } by {
                assert(semantics_of(nodes, frames, count)[k] == before[k]);
                assert(semantic_source(nodes, frames, count, k) == semantic_source(
                    nodes,
                    frames,
                    count - 1,
                    k,
                ));
            }
        }
    }
}

/// Whether a node's materialized extent is negative.
pub open spec fn negative_extent(node: RebuildNodeV1) -> bool {
    node.style.width < 0 || node.style.height < 0
}

/// Why a clean rebuild cannot be projected, if it cannot: a negative surface,
/// more nodes than the style or geometry capacity, a negative extent, a
/// layout failure, then more derived records than their capacity.
pub open spec fn rebuild_failure(
    surface: HeadlessSurface,
    nodes: Seq<RebuildNodeV1>,
    capacity: HeadlessProjectionCapacityV1,
) -> Option<HarnessErrorKind> {
    let count = nodes.len() as int;
    if surface.width < 0 || surface.height < 0 {
        Some(HarnessErrorKind::StateMismatch)
    } else if count > capacity.computed_styles || count > capacity.geometry {
        Some(HarnessErrorKind::LimitExceeded(HarnessLimitKind::NormalizedNodes))
    } else if exists|i: int| 0 <= i < count && negative_extent(#[trigger] nodes[i]) {
        Some(HarnessErrorKind::StateMismatch)
    } else {
        match layout_after(nodes, surface, count) {
            Err(kind) => Some(kind),
            Ok(state) => if semantics_of(nodes, state.frames, count).len() > capacity.semantics
                || hits_of(nodes, state.frames, count).len() > capacity.hit_regions || scene_of(
                nodes,
                state.frames,
                count,
            ).len() > capacity.scene_rectangles {
                Some(HarnessErrorKind::StateMismatch)
            } else {
                None
            },
        }
    }
}

/// Whether a projection is the clean rebuild of the nodes laid out as `frames`.
pub open spec fn rebuilt_as(
    surface: HeadlessSurface,
    nodes: Seq<RebuildNodeV1>,
    frames: Seq<LayoutFrameV1>,
    semantic_label: u32,
    projection: &NormalizedHeadlessProjectionV1,
) -> bool {
    let count = nodes.len() as int;
    &&& projection.surface == surface
    &&& projection.computed_styles@.len() == count
    &&& forall|i: int|
        0 <= i < count ==> crate::headless::oracle::same_record(
            &(#[trigger] nodes[i]).style,
            &projection.computed_styles@[i],
        )
    &&& projection.geometries@.len() == count
    &&& forall|i: int|
        0 <= i < count ==> (#[trigger] projection.geometries@[i]).path@ == nodes[i].style.path@
            && projection.geometries@[i].bounds == frames[i].bounds
            && projection.geometries@[i].clip == frames[i].clip
    &&& projection.semantics@.map_values(|record: NormalizedHeadlessSemanticV1| record.path@)
        == semantics_of(nodes, frames, count)
    &&& forall|i: int|
        0 <= i < projection.semantics@.len() ==> (#[trigger] projection.semantics@[i]).label
            == semantic_label && projection.semantics@[i].role == HeadlessSemanticRole::Control
            && projection.semantics@[i].action == HeadlessSemanticAction::Activate
    &&& projection.hit_regions@.map_values(
        |record: NormalizedHeadlessHitRegionV1| (record.path@, record.clip),
    ) == hits_of(nodes, frames, count)
    &&& projection.scene_rectangles@.map_values(
        |record: NormalizedHeadlessSceneRectangleV1| (record.path@, record.rectangle, record.color),
    ) == scene_of(nodes, frames, count)
}

/// Projects a clean logical rebuild: computed styles as materialized, a
/// flow layout of every node, and the semantic, hit and scene records of the
/// nodes that reach the scene.
pub fn rebuild_projection_v1(
    surface: HeadlessSurface,
    nodes: &Vec<RebuildNodeV1>,
    capacity: HeadlessProjectionCapacityV1,
    semantic_label: u32,
) -> (result: Result<NormalizedHeadlessProjectionV1, HarnessError>)
    ensures
        match result {
            Ok(projection) => rebuild_failure(surface, nodes@, capacity) is None && rebuilt_as(
                surface,
                nodes@,
                layout_after(nodes@, surface, nodes@.len() as int)->Ok_0.frames,
                semantic_label,
                &projection,
            ),
            Err(error) => rebuild_failure(surface, nodes@, capacity) is Some && error.is_unlocated(
                rebuild_failure(surface, nodes@, capacity)->Some_0,
            ),
        },
{
    if surface.width < 0 || surface.height < 0 {
        return Err(state_error());
    }
    let count = nodes.len();
    if count > capacity.computed_styles || count > capacity.geometry {
        return Err(HarnessError::limit(HarnessLimitKind::NormalizedNodes));
    }
    let mut computed_styles: Vec<NormalizedHeadlessComputedStyleV1> = Vec::new();
    let mut i: usize = 0;
    while i < count
        invariant
            i <= count,
            count == nodes@.len(),
            computed_styles@.len() == i,
            forall|k: int|
                0 <= k < i ==> crate::headless::oracle::same_record(
                    &(#[trigger] nodes@[k]).style,
                    &computed_styles@[k],
                ),
            forall|k: int| 0 <= k < i ==> !negative_extent(#[trigger] nodes@[k]),
            surface.width >= 0 && surface.height >= 0,
            count <= capacity.computed_styles && count <= capacity.geometry,
        decreases count - i,
    {
        let style = &nodes[i].style;
        if style.width < 0 || style.height < 0 {
            proof {
                assert(negative_extent(nodes@[i as int]));
            }
            return Err(state_error());
        }
        computed_styles.push(style.duplicate());
        i = i + 1;
    }
    proof {
        lemma_layout_length(nodes@, surface, count as int);
    }
    let frames = match layout_nodes(nodes, surface) {
        Ok(frames) => frames,
        Err(error) => return Err(error),
    };
    let ghost layout = layout_after(nodes@, surface, count as int)->Ok_0;
    let mut geometries: Vec<NormalizedHeadlessGeometryV1> = Vec::new();
    let mut semantics: Vec<NormalizedHeadlessSemanticV1> = Vec::new();
    let mut hit_regions: Vec<NormalizedHeadlessHitRegionV1> = Vec::new();
    let mut scene_rectangles: Vec<NormalizedHeadlessSceneRectangleV1> = Vec::new();
    let mut i: usize = 0;
    while i < count
        invariant
            i <= count,
            count == nodes@.len(),
            frames@ == layout.frames,
            frames@.len() == count,
            rebuild_failure(surface, nodes@, capacity) is None || rebuild_failure(surface, nodes@, capacity) == Some(HarnessErrorKind::StateMismatch),
            layout_after(nodes@, surface, count as int) is Ok,
            surface.width >= 0 && surface.height >= 0,
            count <= capacity.computed_styles && count <= capacity.geometry,
            forall|k: int| 0 <= k < count ==> !negative_extent(#[trigger] nodes@[k]),
            geometries@.len() == i,
            forall|k: int|
                0 <= k < i ==> (#[trigger] geometries@[k]).path@ == nodes@[k].style.path@
                    && geometries@[k].bounds == frames@[k].bounds && geometries@[k].clip
                    == frames@[k].clip,
            semantics@.map_values(|record: NormalizedHeadlessSemanticV1| record.path@)
                == semantics_of(nodes@, frames@, i as int),
            forall|k: int|
                0 <= k < semantics@.len() ==> (#[trigger] semantics@[k]).label == semantic_label
                    && semantics@[k].role == HeadlessSemanticRole::Control && semantics@[k].action
                    == HeadlessSemanticAction::Activate,
            hit_regions@.map_values(
                |record: NormalizedHeadlessHitRegionV1| (record.path@, record.clip),
            ) == hits_of(nodes@, frames@, i as int),
            scene_rectangles@.map_values(
                |record: NormalizedHeadlessSceneRectangleV1|
                    (record.path@, record.rectangle, record.color),
            ) == scene_of(nodes@, frames@, i as int),
        decreases count - i,
    {
        let node = &nodes[i];
        let frame = frames[i];
        geometries.push(
            NormalizedHeadlessGeometryV1 {
                path: node.style.path.clone(),
                bounds: frame.bounds,
                clip: frame.clip,
            },
        );
        if frame.visible && frame.clip.width > 0 && frame.clip.height > 0 {
            if node.semantic {
                let ghost before = semantics@;
                semantics.push(
                    NormalizedHeadlessSemanticV1 {
                        path: node.style.path.clone(),
                        role: HeadlessSemanticRole::Control,
                        label: semantic_label,
                        action: HeadlessSemanticAction::Activate,
                    },
                );
                proof {
                    assert(semantics@.map_values(|record: NormalizedHeadlessSemanticV1| record.path@)
                        =~= before.map_values(|record: NormalizedHeadlessSemanticV1| record.path@).push(
                        node.style.path@,
                    ));
                }
            }
            if node.style.input == InputPolicy::Accept {
                let ghost before = hit_regions@;
                hit_regions.push(
                    NormalizedHeadlessHitRegionV1 { path: node.style.path.clone(), clip: frame.clip },
                );
                proof {
                    assert(hit_regions@.map_values(
                        |record: NormalizedHeadlessHitRegionV1| (record.path@, record.clip),
                    ) =~= before.map_values(
                        |record: NormalizedHeadlessHitRegionV1| (record.path@, record.clip),
                    ).push((node.style.path@, frame.clip)));
                }
            }
            let ghost before = scene_rectangles@;
            scene_rectangles.push(
                NormalizedHeadlessSceneRectangleV1 {
                    path: node.style.path.clone(),
                    rectangle: frame.clip,
                    color: node.style.color,
                },
            );
            proof {
                assert(scene_rectangles@.map_values(
                    |record: NormalizedHeadlessSceneRectangleV1|
                        (record.path@, record.rectangle, record.color),
                ) =~= before.map_values(
                    |record: NormalizedHeadlessSceneRectangleV1|
                        (record.path@, record.rectangle, record.color),
                ).push((node.style.path@, frame.clip, node.style.color)));
            }
        }
        i = i + 1;
    }
    if semantics.len() > capacity.semantics || hit_regions.len() > capacity.hit_regions
        || scene_rectangles.len() > capacity.scene_rectangles {
        proof {
            assert(semantics@.map_values(|record: NormalizedHeadlessSemanticV1| record.path@).len()
                == semantics@.len());
        }
        return Err(state_error());
    }
    Ok(
        NormalizedHeadlessProjectionV1 {
            surface,
            computed_styles,
            geometries,
            semantics,
            hit_regions,
            scene_rectangles,
        },
    )
}

} // verus!
