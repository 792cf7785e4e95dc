//! The rebuild as a work-stack machine: each step pops one unit of work,
//! materializes it, and pushes the work its children add in reverse order, so
//! that nodes and fragments come out in authored depth-first order.

use vstd::prelude::*;

use crate::error::{HarnessErrorKind, HarnessLimitKind};
use crate::fixture::HarnessLimitsV1;
use crate::case::{PropertyId, PropertyValue};
use crate::error::HarnessError;
use crate::observe::{checked_increment, ensure_next_count, ensure_path_depth};
use crate::identity::{lemma_lookup_prefix, lemma_lookup_take_step, lookup};
use crate::model::{
    children_scan, first_index, groups_view, members_view, work_view, ChildFactoryV1,
    optional_path, ChildGroupView, PropertySlotV1, DesiredStateV1, NormalizedChildGroupV1,
    NormalizedStateV1, RebuildWorkV1, fragments_view, is_first_at, lemma_first_index_absent,
    lemma_first_index_at, members_scan, nodes_view, override_entries, properties_scan,
    region_ids, region_key_entries, template_ids, ConstructionModelV1, DesiredView,
    FragmentView, NodeView, NormalizedFragmentV1, NormalizedNodeV1, RegionModelV1, StateView,
    StructuralRegionId, TemplateModelV1, TemplateNodeId, WorkView,
};
use crate::semantic::{FragmentPathV1, NodePathV1, PathSegmentV1};

verus! {

/// Everything the rebuild has produced and still owes at one point.
pub struct RebuildState {
    pub work: Seq<WorkView>,
    pub nodes: Seq<NodeView>,
    pub fragments: Seq<FragmentView>,
    pub property_slots: int,
    pub memberships: int,
    pub used_properties: int,
    pub used_regions: int,
}

/// Materializes one node. `rest` is the state with the node's work removed.
pub open spec fn node_step(
    construction: ConstructionModelV1,
    desired: DesiredView,
    limits: HarnessLimitsV1,
    rest: RebuildState,
    path: Seq<PathSegmentV1>,
    parent: Option<Seq<PathSegmentV1>>,
    template: TemplateNodeId,
) -> Result<RebuildState, HarnessErrorKind> {
    if path.len() > limits.path_depth {
        Err(HarnessErrorKind::LimitExceeded(HarnessLimitKind::PathDepth))
    } else if exists|i: int| 0 <= i < rest.nodes.len() && #[trigger] rest.nodes[i].path == path {
        Err(HarnessErrorKind::StateMismatch)
    } else if rest.nodes.len() + 1 > usize::MAX {
        Err(HarnessErrorKind::ArithmeticExhausted)
    } else if rest.nodes.len() + 1 > limits.normalized_nodes {
        Err(HarnessErrorKind::LimitExceeded(HarnessLimitKind::NormalizedNodes))
    } else {
        match first_index(template_ids(construction.templates@), template) {
            None => Err(HarnessErrorKind::StateMismatch),
            Some(index) => {
                let factory = construction.templates@[index];
                match properties_scan(
                    factory.properties@,
                    path,
                    desired.property_overrides,
                    rest.property_slots,
                    rest.used_properties,
                    limits.normalized_properties as int,
                ) {
                    Err(kind) => Err(kind),
                    Ok((values, slots, used)) => match children_scan(
                        factory.children@,
                        path,
                        limits.path_depth as int,
                    ) {
                        Err(kind) => Err(kind),
                        Ok((groups, added)) => Ok(
                            RebuildState {
                                work: rest.work + added.reverse(),
                                nodes: rest.nodes.push(
                                    NodeView {
                                        path,
                                        parent,
                                        template,
                                        component: factory.component,
                                        properties: values,
                                        child_groups: groups,
                                    },
                                ),
                                fragments: rest.fragments,
                                property_slots: slots,
                                memberships: rest.memberships,
                                used_properties: used,
                                used_regions: rest.used_regions,
                            },
                        ),
                    },
                }
            },
        }
    }
}

/// Expands one region instance into its members. `rest` is the state with
/// the fragment's work removed.
pub open spec fn fragment_step(
    construction: ConstructionModelV1,
    desired: DesiredView,
    limits: HarnessLimitsV1,
    rest: RebuildState,
    path: (Seq<PathSegmentV1>, u16),
    descriptor: StructuralRegionId,
) -> Result<RebuildState, HarnessErrorKind> {
    if path.0.len() > limits.path_depth {
        Err(HarnessErrorKind::LimitExceeded(HarnessLimitKind::PathDepth))
    } else if exists|i: int|
        0 <= i < rest.fragments.len() && #[trigger] rest.fragments[i].path == path {
        Err(HarnessErrorKind::StateMismatch)
    } else if rest.fragments.len() + 1 > usize::MAX {
        Err(HarnessErrorKind::ArithmeticExhausted)
    } else if rest.fragments.len() + 1 > limits.normalized_fragments {
        Err(HarnessErrorKind::LimitExceeded(HarnessLimitKind::NormalizedFragments))
    } else {
        match first_index(region_ids(construction.regions@), descriptor) {
            None => Err(HarnessErrorKind::StateMismatch),
            Some(index) => {
                let region = construction.regions@[index];
                let overridden = lookup(desired.region_keys, path);
                let keys = match overridden {
                    Some(keys) => keys,
                    None => region.initial_keys@,
                };
                let used = if overridden is Some {
                    rest.used_regions + 1
                } else {
                    rest.used_regions
                };
                if used > usize::MAX {
                    Err(HarnessErrorKind::ArithmeticExhausted)
                } else if rest.memberships + keys.len() > usize::MAX {
                    Err(HarnessErrorKind::ArithmeticExhausted)
                } else if rest.memberships + keys.len() > limits.live_memberships {
                    Err(HarnessErrorKind::LimitExceeded(HarnessLimitKind::LiveMemberships))
                } else {
                    match members_scan(
                        keys,
                        path.0,
                        path.1,
                        region.repeat_body,
                        limits.path_depth as int,
                    ) {
                        Err(kind) => Err(kind),
                        Ok((members, added)) => Ok(
                            RebuildState {
                                work: rest.work + added.reverse(),
                                nodes: rest.nodes,
                                fragments: rest.fragments.push(
                                    FragmentView { path, descriptor, members },
                                ),
                                property_slots: rest.property_slots,
                                memberships: rest.memberships + keys.len(),
                                used_properties: rest.used_properties,
                                used_regions: used,
                            },
                        ),
                    }
                }
            },
        }
    }
}

/// The state with its last unit of work removed.
pub open spec fn without_last_work(state: RebuildState) -> RebuildState {
    RebuildState { work: state.work.drop_last(), ..state }
}

/// Pops and performs the last unit of pending work.
pub open spec fn rebuild_step(
    construction: ConstructionModelV1,
    desired: DesiredView,
    limits: HarnessLimitsV1,
    state: RebuildState,
) -> Result<RebuildState, HarnessErrorKind> {
    match state.work.last() {
        WorkView::Node { path, parent, template } => node_step(
            construction,
            desired,
            limits,
            without_last_work(state),
            path,
            parent,
            template,
        ),
        WorkView::Fragment { path, descriptor } => fragment_step(
            construction,
            desired,
            limits,
            without_last_work(state),
            path,
            descriptor,
        ),
    }
}

/// Runs steps until no work is left or one fails, for at most `fuel` steps.
pub open spec fn rebuild_run(
    construction: ConstructionModelV1,
    desired: DesiredView,
    limits: HarnessLimitsV1,
    state: RebuildState,
    fuel: nat,
) -> Result<RebuildState, HarnessErrorKind>
    decreases fuel,
{
    if state.work.len() == 0 {
        Ok(state)
    } else if fuel == 0 {
        Err(HarnessErrorKind::ArithmeticExhausted)
    } else {
        match rebuild_step(construction, desired, limits, state) {
            Err(kind) => Err(kind),
            Ok(next) => rebuild_run(construction, desired, limits, next, (fuel - 1) as nat),
        }
    }
}

/// The state before the first step: the root node is the only work.
pub open spec fn rebuild_start(construction: ConstructionModelV1) -> RebuildState {
    RebuildState {
        work: seq![WorkView::Node { path: Seq::empty(), parent: None, template: construction.root }],
        nodes: Seq::empty(),
        fragments: Seq::empty(),
        property_slots: 0,
        memberships: 0,
        used_properties: 0,
        used_regions: 0,
    }
}

/// Steps enough for any rebuild: each successful step adds one node or one
/// fragment, and both counts are bounded by their ceilings, so the run always
/// stops before this fuel is spent.
pub open spec fn rebuild_fuel(limits: HarnessLimitsV1) -> nat {
    (limits.normalized_nodes + limits.normalized_fragments + 1) as nat
}

/// The normalized state a construction program and a desired state determine.
/// A desired state derived from another program addresses nothing in this one;
/// so does one with an override or a key list that no rebuilt node or fragment
/// consumed.
pub open spec fn clean_rebuild(
    construction: ConstructionModelV1,
    desired: DesiredView,
    limits: HarnessLimitsV1,
) -> Result<StateView, HarnessErrorKind> {
    if desired.construction_domain != construction.domain {
        Err(HarnessErrorKind::InvalidSemanticPath)
    } else {
        match rebuild_run(
            construction,
            desired,
            limits,
            rebuild_start(construction),
            rebuild_fuel(limits),
        ) {
            Err(kind) => Err(kind),
            Ok(end) => if end.used_properties != desired.property_overrides.len()
                || end.used_regions != desired.region_keys.len() {
                Err(HarnessErrorKind::InvalidSemanticPath)
            } else {
                Ok(StateView { nodes: end.nodes, fragments: end.fragments })
            },
        }
    }
}

/// No two produced nodes, and no two produced fragments, share a path.
pub open spec fn paths_distinct(state: RebuildState) -> bool {
    &&& forall|i: int, j: int|
        0 <= i < j < state.nodes.len() ==> #[trigger] state.nodes[i].path
            != #[trigger] state.nodes[j].path
    &&& forall|i: int, j: int|
        0 <= i < j < state.fragments.len() ==> #[trigger] state.fragments[i].path
            != #[trigger] state.fragments[j].path
}

proof fn lemma_step_keeps_paths_distinct(
    construction: ConstructionModelV1,
    desired: DesiredView,
    limits: HarnessLimitsV1,
    state: RebuildState,
)
    requires
        paths_distinct(state),
        state.work.len() > 0,
        rebuild_step(construction, desired, limits, state) is Ok,
    ensures
        paths_distinct(rebuild_step(construction, desired, limits, state)->Ok_0),
{
    let next = rebuild_step(construction, desired, limits, state)->Ok_0;
    match state.work.last() {
        WorkView::Node { path, .. } => {
            assert forall|i: int, j: int| 0 <= i < j < next.nodes.len() implies #[trigger] next.nodes[i].path
                != #[trigger] next.nodes[j].path by {
                if j == next.nodes.len() - 1 {
                    assert(state.nodes[i].path == next.nodes[i].path);
                } else {
                    assert(state.nodes[i].path == next.nodes[i].path);
                    assert(state.nodes[j].path == next.nodes[j].path);
                }
            }
        },
        WorkView::Fragment { path, .. } => {
            assert forall|i: int, j: int| 0 <= i < j < next.fragments.len() implies #[trigger] next.fragments[i].path
                != #[trigger] next.fragments[j].path by {
                if j == next.fragments.len() - 1 {
                    assert(state.fragments[i].path == next.fragments[i].path);
                } else {
                    assert(state.fragments[i].path == next.fragments[i].path);
                    assert(state.fragments[j].path == next.fragments[j].path);
                }
            }
        },
    }
}

proof fn lemma_run_keeps_paths_distinct(
    construction: ConstructionModelV1,
    desired: DesiredView,
    limits: HarnessLimitsV1,
    state: RebuildState,
    fuel: nat,
)
    requires
        paths_distinct(state),
        rebuild_run(construction, desired, limits, state, fuel) is Ok,
    ensures
        paths_distinct(rebuild_run(construction, desired, limits, state, fuel)->Ok_0),
    decreases fuel,
{
    if state.work.len() > 0 && fuel > 0 {
        lemma_step_keeps_paths_distinct(construction, desired, limits, state);
        lemma_run_keeps_paths_distinct(
            construction,
            desired,
            limits,
            rebuild_step(construction, desired, limits, state)->Ok_0,
            (fuel - 1) as nat,
        );
    }
}

proof fn lemma_run_keeps_first_node(
    construction: ConstructionModelV1,
    desired: DesiredView,
    limits: HarnessLimitsV1,
    state: RebuildState,
    fuel: nat,
)
    requires
        state.nodes.len() >= 1,
    ensures
        rebuild_run(construction, desired, limits, state, fuel) matches Ok(end) ==> end.nodes.len()
            >= 1 && end.nodes[0] == state.nodes[0],
    decreases fuel,
{
    if state.work.len() > 0 && fuel > 0 {
        if let Ok(next) = rebuild_step(construction, desired, limits, state) {
            assert(next.nodes.len() >= 1 && next.nodes[0] == state.nodes[0]);
            lemma_run_keeps_first_node(construction, desired, limits, next, (fuel - 1) as nat);
        }
    }
}

/// A rebuild state within the harness limits: nodes, fragments, property
/// slots and live memberships under their ceilings, and every path no
/// deeper than the path-depth ceiling.
pub open spec fn within_limits(state: RebuildState, limits: HarnessLimitsV1) -> bool {
    &&& state.nodes.len() <= limits.normalized_nodes
    &&& state.fragments.len() <= limits.normalized_fragments
    &&& 0 <= state.property_slots <= limits.normalized_properties
    &&& 0 <= state.memberships <= limits.live_memberships
    &&& forall|i: int| 0 <= i < state.nodes.len() ==> #[trigger] state.nodes[i].path.len()
        <= limits.path_depth
    &&& forall|i: int| 0 <= i < state.fragments.len() ==> #[trigger] state.fragments[i].path.0.len()
        <= limits.path_depth
}

proof fn lemma_properties_within(
    properties: Seq<PropertySlotV1>,
    path: Seq<PathSegmentV1>,
    overrides: Seq<((Seq<PathSegmentV1>, PropertyId), PropertyValue)>,
    slots: int,
    used: int,
    limit: int,
)
    requires
        0 <= slots <= limit,
    ensures
        properties_scan(properties, path, overrides, slots, used, limit) matches Ok((_, after, _))
            ==> slots <= after <= limit,
    decreases properties.len(),
{
    if properties.len() > 0 {
        lemma_properties_within(properties.drop_last(), path, overrides, slots, used, limit);
    }
}

proof fn lemma_step_within(
    construction: ConstructionModelV1,
    desired: DesiredView,
    limits: HarnessLimitsV1,
    state: RebuildState,
)
    requires
        within_limits(state, limits),
        state.work.len() > 0,
    ensures
        rebuild_step(construction, desired, limits, state) matches Ok(next) ==> within_limits(
            next,
            limits,
        ),
{
    let rest = without_last_work(state);
    match state.work.last() {
        WorkView::Node { path, parent, template } => {
            if let Some(index) = first_index(template_ids(construction.templates@), template) {
                lemma_properties_within(
                    construction.templates@[index].properties@,
                    path,
                    desired.property_overrides,
                    rest.property_slots,
                    rest.used_properties,
                    limits.normalized_properties as int,
                );
            }
        },
        WorkView::Fragment { path, descriptor } => {},
    }
}

proof fn lemma_run_within(
    construction: ConstructionModelV1,
    desired: DesiredView,
    limits: HarnessLimitsV1,
    state: RebuildState,
    fuel: nat,
)
    requires
        within_limits(state, limits),
    ensures
        rebuild_run(construction, desired, limits, state, fuel) matches Ok(end) ==> within_limits(
            end,
            limits,
        ),
    decreases fuel,
{
    if state.work.len() > 0 && fuel > 0 {
        lemma_step_within(construction, desired, limits, state);
        if let Ok(next) = rebuild_step(construction, desired, limits, state) {
            lemma_run_within(construction, desired, limits, next, (fuel - 1) as nat);
        }
    }
}

/// A clean rebuild stays within the harness limits: no more nodes or
/// fragments than their ceilings, no path deeper than the path-depth
/// ceiling, and, in the run that produced it, no more property slots or
/// live memberships than theirs.
pub proof fn lemma_rebuild_within_limits(
    construction: ConstructionModelV1,
    desired: DesiredView,
    limits: HarnessLimitsV1,
)
    requires
        clean_rebuild(construction, desired, limits) is Ok,
    ensures
        ({
            let state = clean_rebuild(construction, desired, limits)->Ok_0;
            &&& state.nodes.len() <= limits.normalized_nodes
            &&& state.fragments.len() <= limits.normalized_fragments
            &&& forall|i: int| 0 <= i < state.nodes.len() ==> #[trigger] state.nodes[i].path.len()
                <= limits.path_depth
            &&& forall|i: int|
                0 <= i < state.fragments.len() ==> #[trigger] state.fragments[i].path.0.len()
                    <= limits.path_depth
        }),
        rebuild_run(
            construction,
            desired,
            limits,
            rebuild_start(construction),
            rebuild_fuel(limits),
        ) matches Ok(end) ==> within_limits(end, limits),
{
    lemma_run_within(
        construction,
        desired,
        limits,
        rebuild_start(construction),
        rebuild_fuel(limits),
    );
}

/// Some node among the first `bound` has the path `path`.
pub open spec fn node_before(nodes: Seq<NodeView>, path: Seq<PathSegmentV1>, bound: int) -> bool {
    exists|j: int| 0 <= j < bound && #[trigger] nodes[j].path == path
}

/// Where a unit of work hangs: a node under its parent, a fragment under its
/// owner; the root hangs nowhere.
pub open spec fn work_owner(work: WorkView) -> Option<Seq<PathSegmentV1>> {
    match work {
        WorkView::Node { parent, .. } => parent,
        WorkView::Fragment { path, .. } => Some(path.0),
    }
}

/// Parents come first: every node's parent is an earlier node, only the
/// first node has no parent, and all pending work and every fragment hang
/// under nodes already built.
pub open spec fn parents_first(state: RebuildState) -> bool {
    &&& forall|i: int|
        0 <= i < state.nodes.len() ==> match #[trigger] state.nodes[i].parent {
            Some(parent) => node_before(state.nodes, parent, i),
            None => i == 0,
        }
    &&& forall|k: int|
        0 <= k < state.work.len() ==> match work_owner(#[trigger] state.work[k]) {
            Some(owner) => node_before(state.nodes, owner, state.nodes.len() as int),
            None => state.nodes.len() == 0 && state.work.len() == 1,
        }
    &&& forall|f: int|
        0 <= f < state.fragments.len() ==> node_before(
            state.nodes,
            #[trigger] state.fragments[f].path.0,
            state.nodes.len() as int,
        )
}

proof fn lemma_node_before_push(nodes: Seq<NodeView>, node: NodeView, path: Seq<PathSegmentV1>, bound: int)
    requires
        node_before(nodes, path, bound),
        bound <= nodes.len(),
    ensures
        node_before(nodes.push(node), path, bound),
        node_before(nodes.push(node), path, nodes.len() + 1int),
{
    let j = choose|j: int| 0 <= j < bound && #[trigger] nodes[j].path == path;
    assert(nodes.push(node)[j] == nodes[j]);
}

proof fn lemma_children_hang_under(
    children: Seq<ChildFactoryV1>,
    path: Seq<PathSegmentV1>,
    depth_limit: int,
)
    ensures
        children_scan(children, path, depth_limit) matches Ok((_, added)) ==> forall|k: int|
            0 <= k < added.len() ==> work_owner(#[trigger] added[k]) == Some(path),
    decreases children.len(),
{
    if children.len() > 0 {
        lemma_children_hang_under(children.drop_last(), path, depth_limit);
    }
}

proof fn lemma_members_hang_under(
    keys: Seq<u64>,
    owner: Seq<PathSegmentV1>,
    slot: u16,
    body: TemplateNodeId,
    depth_limit: int,
)
    ensures
        members_scan(keys, owner, slot, body, depth_limit) matches Ok((_, added)) ==> forall|k: int|
            0 <= k < added.len() ==> work_owner(#[trigger] added[k]) == Some(owner),
    decreases keys.len(),
{
    if keys.len() > 0 {
        lemma_members_hang_under(keys.drop_last(), owner, slot, body, depth_limit);
    }
}

proof fn lemma_step_parents_first(
    construction: ConstructionModelV1,
    desired: DesiredView,
    limits: HarnessLimitsV1,
    state: RebuildState,
)
    requires
        parents_first(state),
        state.work.len() > 0,
    ensures
        rebuild_step(construction, desired, limits, state) matches Ok(next) ==> parents_first(next),
{
    let rest = without_last_work(state);
    let last = state.work.last();
    assert(last == state.work[state.work.len() - 1]);
    if let Ok(next) = rebuild_step(construction, desired, limits, state) {
        let n = state.nodes.len() as int;
        match last {
            WorkView::Node { path, parent, template } => {
                let index = first_index(template_ids(construction.templates@), template)->Some_0;
                let factory = construction.templates@[index];
                lemma_children_hang_under(factory.children@, path, limits.path_depth as int);
                let added = children_scan(factory.children@, path, limits.path_depth as int)->Ok_0.1;
                assert(next.nodes == state.nodes.push(next.nodes[n]));
                assert(next.nodes[n].path == path && next.nodes[n].parent == parent);
                assert(next.work == rest.work + added.reverse());
                assert forall|i: int| 0 <= i < next.nodes.len() implies match #[trigger] next.nodes[i].parent {
                    Some(p) => node_before(next.nodes, p, i),
                    None => i == 0,
                } by {
                    if i < n {
                        assert(next.nodes[i] == state.nodes[i]);
                        if let Some(p) = state.nodes[i].parent {
                            lemma_node_before_push(state.nodes, next.nodes[n], p, i);
                        }
                    } else {
                        if let Some(p) = parent {
                            lemma_node_before_push(state.nodes, next.nodes[n], p, n);
                        }
                    }
                }
                assert(node_before(next.nodes, path, n + 1)) by {
                    assert(next.nodes[n].path == path);
                }
                assert forall|k: int| 0 <= k < next.work.len() implies match work_owner(#[trigger] next.work[k]) {
                    Some(owner) => node_before(next.nodes, owner, next.nodes.len() as int),
                    None => next.nodes.len() == 0 && next.work.len() == 1,
                } by {
                    if k < rest.work.len() {
                        assert(next.work[k] == state.work[k]);
                        if let Some(owner) = work_owner(state.work[k]) {
                            lemma_node_before_push(state.nodes, next.nodes[n], owner, n);
                        } else {
                            assert(false);
                        }
                    } else {
                        let a = k - rest.work.len();
                        assert(next.work[k] == added.reverse()[a]);
                        assert(added.reverse()[a] == added[added.len() - 1 - a]);
                    }
                }
                assert forall|f: int| 0 <= f < next.fragments.len() implies node_before(
                    next.nodes,
                    #[trigger] next.fragments[f].path.0,
                    next.nodes.len() as int,
                ) by {
                    lemma_node_before_push(state.nodes, next.nodes[n], state.fragments[f].path.0, n);
                }
            },
            WorkView::Fragment { path, descriptor } => {
                let index = first_index(region_ids(construction.regions@), descriptor)->Some_0;
                let region = construction.regions@[index];
                let overridden = lookup(desired.region_keys, path);
                let keys = match overridden {
                    Some(keys) => keys,
                    None => region.initial_keys@,
                };
                lemma_members_hang_under(keys, path.0, path.1, region.repeat_body, limits.path_depth as int);
                let added = members_scan(keys, path.0, path.1, region.repeat_body, limits.path_depth as int)->Ok_0.1;
                assert(next.work == rest.work + added.reverse());
                assert(next.nodes == state.nodes);
                assert(work_owner(last) == Some(path.0));
                assert forall|k: int| 0 <= k < next.work.len() implies match work_owner(#[trigger] next.work[k]) {
                    Some(owner) => node_before(next.nodes, owner, next.nodes.len() as int),
                    None => next.nodes.len() == 0 && next.work.len() == 1,
                } by {
                    if k < rest.work.len() {
                        assert(next.work[k] == state.work[k]);
                    } else {
                        let a = k - rest.work.len();
                        assert(next.work[k] == added.reverse()[a]);
                        assert(added.reverse()[a] == added[added.len() - 1 - a]);
                    }
                }
                assert forall|f: int| 0 <= f < next.fragments.len() implies node_before(
                    next.nodes,
                    #[trigger] next.fragments[f].path.0,
                    next.nodes.len() as int,
                ) by {
                    if f < state.fragments.len() {
                        assert(next.fragments[f] == state.fragments[f]);
                    }
                }
            },
        }
    }
}

proof fn lemma_run_parents_first(
    construction: ConstructionModelV1,
    desired: DesiredView,
    limits: HarnessLimitsV1,
    state: RebuildState,
    fuel: nat,
)
    requires
        parents_first(state),
    ensures
        rebuild_run(construction, desired, limits, state, fuel) matches Ok(end) ==> parents_first(end),
    decreases fuel,
{
    if state.work.len() > 0 && fuel > 0 {
        lemma_step_parents_first(construction, desired, limits, state);
        if let Ok(next) = rebuild_step(construction, desired, limits, state) {
            lemma_run_parents_first(construction, desired, limits, next, (fuel - 1) as nat);
        }
    }
}

/// A clean rebuild lists every node after its parent: the root alone has no
/// parent, and each other node's parent is an earlier node.
pub proof fn lemma_rebuild_parents_first(
    construction: ConstructionModelV1,
    desired: DesiredView,
    limits: HarnessLimitsV1,
)
    requires
        clean_rebuild(construction, desired, limits) is Ok,
    ensures
        ({
            let state = clean_rebuild(construction, desired, limits)->Ok_0;
            forall|i: int|
                0 <= i < state.nodes.len() ==> match #[trigger] state.nodes[i].parent {
                    Some(parent) => node_before(state.nodes, parent, i),
                    None => i == 0,
                }
        }),
{
    let start = rebuild_start(construction);
    assert(start.work[0] == (WorkView::Node {
        path: Seq::empty(),
        parent: None,
        template: construction.root,
    }));
    assert(parents_first(start));
    lemma_run_parents_first(construction, desired, limits, start, rebuild_fuel(limits));
}

/// A clean rebuild starts with the root: the first normalized node is the
/// construction program's root template at the empty path, with no parent.
pub proof fn lemma_rebuild_starts_at_root(
    construction: ConstructionModelV1,
    desired: DesiredView,
    limits: HarnessLimitsV1,
)
    requires
        clean_rebuild(construction, desired, limits) is Ok,
    ensures
        ({
            let state = clean_rebuild(construction, desired, limits)->Ok_0;
            &&& state.nodes.len() >= 1
            &&& state.nodes[0].path == Seq::<PathSegmentV1>::empty()
            &&& state.nodes[0].parent is None
            &&& state.nodes[0].template == construction.root
        }),
{
    let start = rebuild_start(construction);
    let fuel = rebuild_fuel(limits);
    assert(start.work.last() == (WorkView::Node {
        path: Seq::empty(),
        parent: None,
        template: construction.root,
    }));
    if let Ok(next) = rebuild_step(construction, desired, limits, start) {
        assert(next.nodes.len() == 1);
        lemma_run_keeps_first_node(construction, desired, limits, next, (fuel - 1) as nat);
    }
}

/// A clean rebuild names each node, and each region instance, once: no two
/// nodes of the rebuilt state share a path, and no two fragments do.
pub proof fn lemma_rebuilt_paths_distinct(
    construction: ConstructionModelV1,
    desired: DesiredView,
    limits: HarnessLimitsV1,
)
    requires
        clean_rebuild(construction, desired, limits) is Ok,
    ensures
        ({
            let state = clean_rebuild(construction, desired, limits)->Ok_0;
            &&& forall|i: int, j: int|
                0 <= i < j < state.nodes.len() ==> #[trigger] state.nodes[i].path
                    != #[trigger] state.nodes[j].path
            &&& forall|i: int, j: int|
                0 <= i < j < state.fragments.len() ==> #[trigger] state.fragments[i].path
                    != #[trigger] state.fragments[j].path
        }),
{
    lemma_run_keeps_paths_distinct(
        construction,
        desired,
        limits,
        rebuild_start(construction),
        rebuild_fuel(limits),
    );
}

/// Finds the first template with an identifier.
pub(crate) fn find_template(templates: &Vec<TemplateModelV1>, id: TemplateNodeId) -> (index: Option<usize>)
    ensures
        match index {
            Some(i) => first_index(template_ids(templates@), id) == Some(i as int),
            None => first_index(template_ids(templates@), id) is None,
        },
{
    let ghost ids = template_ids(templates@);
    let mut index: usize = 0;
    while index < templates.len()
        invariant
            index <= templates.len(),
            ids == template_ids(templates@),
            forall|j: int| 0 <= j < index ==> ids[j] != id,
        decreases templates.len() - index,
    {
        if templates[index].id == id {
            proof {
                assert(is_first_at(ids, id, index as int));
                lemma_first_index_at(ids, id, index as int);
            }
            return Some(index);
        }
        index = index + 1;
    }
    proof {
        lemma_first_index_absent(ids, id);
    }
    None
}

/// Finds the first region descriptor with an identifier.
pub(crate) fn find_region(regions: &Vec<RegionModelV1>, id: StructuralRegionId) -> (index: Option<usize>)
    ensures
        match index {
            Some(i) => first_index(region_ids(regions@), id) == Some(i as int),
            None => first_index(region_ids(regions@), id) is None,
        },
{
    let ghost ids = region_ids(regions@);
    let mut index: usize = 0;
    while index < regions.len()
        invariant
            index <= regions.len(),
            ids == region_ids(regions@),
            forall|j: int| 0 <= j < index ==> ids[j] != id,
        decreases regions.len() - index,
    {
        if regions[index].id == id {
            proof {
                assert(is_first_at(ids, id, index as int));
                lemma_first_index_at(ids, id, index as int);
            }
            return Some(index);
        }
        index = index + 1;
    }
    proof {
        lemma_first_index_absent(ids, id);
    }
    None
}

/// Finds the desired override of one property of one node.
pub(crate) fn find_override(
    overrides: &Vec<((NodePathV1, PropertyId), PropertyValue)>,
    path: &NodePathV1,
    property: PropertyId,
) -> (value: Option<PropertyValue>)
    ensures
        value == lookup(override_entries(overrides@), (path@, property)),
{
    let ghost entries = override_entries(overrides@);
    let mut index: usize = 0;
    while index < overrides.len()
        invariant
            index <= overrides.len(),
            entries == override_entries(overrides@),
            lookup(entries.take(index as int), (path@, property)).is_none(),
        decreases overrides.len() - index,
    {
        proof {
            lemma_lookup_take_step(entries, index as int, (path@, property));
        }
        if overrides[index].0.1 == property && overrides[index].0.0.same(path) {
            proof {
                lemma_lookup_prefix(entries, index as int + 1, (path@, property));
            }
            return Some(overrides[index].1);
        }
        index = index + 1;
    }
    assert(entries.take(index as int) =~= entries);
    None
}

/// Finds the desired key list of one region instance.
fn find_region_keys(entries: &Vec<(FragmentPathV1, Vec<u64>)>, path: &FragmentPathV1) -> (index:
    Option<usize>)
    ensures
        match index {
            Some(i) => i < entries.len() && lookup(region_key_entries(entries@), path@) == Some(
                entries@[i as int].1@,
            ),
            None => lookup(region_key_entries(entries@), path@) is None,
        },
{
    let ghost view = region_key_entries(entries@);
    let mut index: usize = 0;
    while index < entries.len()
        invariant
            index <= entries.len(),
            view == region_key_entries(entries@),
            lookup(view.take(index as int), path@).is_none(),
        decreases entries.len() - index,
    {
        proof {
            lemma_lookup_take_step(view, index as int, path@);
        }
        if entries[index].0.same(path) {
            proof {
                lemma_lookup_prefix(view, index as int + 1, path@);
            }
            return Some(index);
        }
        index = index + 1;
    }
    assert(view.take(index as int) =~= view);
    None
}

/// Whether a node with this path was already materialized.
fn node_recorded(nodes: &Vec<NormalizedNodeV1>, path: &NodePathV1) -> (recorded: bool)
    ensures
        recorded == exists|i: int|
            0 <= i < nodes_view(nodes@).len() && #[trigger] nodes_view(nodes@)[i].path == path@,
{
    let ghost view = nodes_view(nodes@);
    let mut index: usize = 0;
    while index < nodes.len()
        invariant
            index <= nodes.len(),
            view == nodes_view(nodes@),
            forall|j: int| 0 <= j < index ==> #[trigger] view[j].path != path@,
        decreases nodes.len() - index,
    {
        if nodes[index].path.same(path) {
            assert(view[index as int].path == path@);
            return true;
        }
        index = index + 1;
    }
    false
}

/// Whether a fragment with this path was already expanded.
fn fragment_recorded(fragments: &Vec<NormalizedFragmentV1>, path: &FragmentPathV1) -> (recorded:
    bool)
    ensures
        recorded == exists|i: int|
            0 <= i < fragments_view(fragments@).len() && #[trigger] fragments_view(
                fragments@,
            )[i].path == path@,
{
    let ghost view = fragments_view(fragments@);
    let mut index: usize = 0;
    while index < fragments.len()
        invariant
            index <= fragments.len(),
            view == fragments_view(fragments@),
            forall|j: int| 0 <= j < index ==> #[trigger] view[j].path != path@,
        decreases fragments.len() - index,
    {
        if fragments[index].path.same(path) {
            assert(view[index as int].path == path@);
            return true;
        }
        index = index + 1;
    }
    false
}

/// A failure in a prefix of a template's properties is the failure of the whole.
proof fn lemma_properties_failure_persists(
    properties: Seq<PropertySlotV1>,
    path: Seq<PathSegmentV1>,
    overrides: Seq<((Seq<PathSegmentV1>, PropertyId), PropertyValue)>,
    slots: int,
    used: int,
    limit: int,
    count: int,
)
    requires
        0 <= count <= properties.len(),
        properties_scan(properties.take(count), path, overrides, slots, used, limit) is Err,
    ensures
        properties_scan(properties, path, overrides, slots, used, limit) == properties_scan(
            properties.take(count),
            path,
            overrides,
            slots,
            used,
            limit,
        ),
    decreases properties.len(),
{
    if count < properties.len() {
        assert(properties.drop_last().take(count) =~= properties.take(count));
        lemma_properties_failure_persists(
            properties.drop_last(),
            path,
            overrides,
            slots,
            used,
            limit,
            count,
        );
    } else {
        assert(properties.take(count) =~= properties);
    }
}

/// A failure in a prefix of a template's child slots is the failure of the whole.
proof fn lemma_children_failure_persists(
    children: Seq<ChildFactoryV1>,
    path: Seq<PathSegmentV1>,
    depth_limit: int,
    count: int,
)
    requires
        0 <= count <= children.len(),
        children_scan(children.take(count), path, depth_limit) is Err,
    ensures
        children_scan(children, path, depth_limit) == children_scan(
            children.take(count),
            path,
            depth_limit,
        ),
    decreases children.len(),
{
    if count < children.len() {
        assert(children.drop_last().take(count) =~= children.take(count));
        lemma_children_failure_persists(children.drop_last(), path, depth_limit, count);
    } else {
        assert(children.take(count) =~= children);
    }
}

/// A failure in a prefix of a region's keys is the failure of the whole.
proof fn lemma_members_failure_persists(
    keys: Seq<u64>,
    owner: Seq<PathSegmentV1>,
    slot: u16,
    body: TemplateNodeId,
    depth_limit: int,
    count: int,
)
    requires
        0 <= count <= keys.len(),
        members_scan(keys.take(count), owner, slot, body, depth_limit) is Err,
    ensures
        members_scan(keys, owner, slot, body, depth_limit) == members_scan(
            keys.take(count),
            owner,
            slot,
            body,
            depth_limit,
        ),
    decreases keys.len(),
{
    if count < keys.len() {
        assert(keys.drop_last().take(count) =~= keys.take(count));
        lemma_members_failure_persists(keys.drop_last(), owner, slot, body, depth_limit, count);
    } else {
        assert(keys.take(count) =~= keys);
    }
}

/// Materializes a template's properties for one node.
fn scan_properties(
    properties: &Vec<PropertySlotV1>,
    path: &NodePathV1,
    overrides: &Vec<((NodePathV1, PropertyId), PropertyValue)>,
    slots: usize,
    used: usize,
    limit: usize,
) -> (result: Result<(Vec<(PropertyId, PropertyValue)>, usize, usize), HarnessError>)
    ensures
        match result {
            Ok((values, next_slots, next_used)) => properties_scan(
                properties@,
                path@,
                override_entries(overrides@),
                slots as int,
                used as int,
                limit as int,
            ) == Ok::<_, HarnessErrorKind>((values@, next_slots as int, next_used as int)),
            Err(error) => {
                &&& properties_scan(
                    properties@,
                    path@,
                    override_entries(overrides@),
                    slots as int,
                    used as int,
                    limit as int,
                ) == Err::<(Seq<(PropertyId, PropertyValue)>, int, int), _>(error.spec_kind())
                &&& error.is_unlocated(error.spec_kind())
            },
        },
{
    let ghost entries = override_entries(overrides@);
    let mut values: Vec<(PropertyId, PropertyValue)> = Vec::new();
    let mut slots_now: usize = slots;
    let mut used_now: usize = used;
    let mut index: usize = 0;
    while index < properties.len()
        invariant
            index <= properties.len(),
            entries == override_entries(overrides@),
            properties_scan(
                properties@.take(index as int),
                path@,
                entries,
                slots as int,
                used as int,
                limit as int,
            ) == Ok::<_, HarnessErrorKind>((values@, slots_now as int, used_now as int)),
        decreases properties.len() - index,
    {
        let ghost prefix = properties@.take(index as int + 1);
        assert(prefix.drop_last() =~= properties@.take(index as int));
        let id = properties[index].id;
        let effective = properties[index].effective;
        let next_slots = match checked_increment(
            slots_now,
            limit,
            HarnessLimitKind::NormalizedProperties,
        ) {
            Ok(next) => next,
            Err(error) => {
                proof {
                    lemma_properties_failure_persists(
                        properties@,
                        path@,
                        entries,
                        slots as int,
                        used as int,
                        limit as int,
                        index as int + 1,
                    );
                }
                return Err(error);
            },
        };
        let value = match find_override(overrides, path, id) {
            Some(value) => {
                if used_now == usize::MAX {
                    proof {
                        lemma_properties_failure_persists(
                            properties@,
                            path@,
                            entries,
                            slots as int,
                            used as int,
                            limit as int,
                            index as int + 1,
                        );
                    }
                    return Err(HarnessError::new(HarnessErrorKind::ArithmeticExhausted));
                }
                used_now = used_now + 1;
                value
            },
            None => match effective {
                Some(value) => value,
                None => {
                    proof {
                        lemma_properties_failure_persists(
                            properties@,
                            path@,
                            entries,
                            slots as int,
                            used as int,
                            limit as int,
                            index as int + 1,
                        );
                    }
                    return Err(HarnessError::new(HarnessErrorKind::StateMismatch));
                },
            },
        };
        values.push((id, value));
        slots_now = next_slots;
        index = index + 1;
    }
    assert(properties@.take(index as int) =~= properties@);
    Ok((values, slots_now, used_now))
}

/// Lists a node's child groups and the work they add, in slot order.
fn scan_children(children: &Vec<ChildFactoryV1>, path: &NodePathV1, depth_limit: usize) -> (result:
    Result<(Vec<NormalizedChildGroupV1>, Vec<RebuildWorkV1>), HarnessError>)
    ensures
        match result {
            Ok((groups, added)) => children_scan(children@, path@, depth_limit as int)
                == Ok::<_, HarnessErrorKind>((groups_view(groups@), work_view(added@))),
            Err(error) => {
                &&& children_scan(children@, path@, depth_limit as int) == Err::<
                    (Seq<ChildGroupView>, Seq<WorkView>),
                    _,
                >(error.spec_kind())
                &&& error.is_unlocated(error.spec_kind())
            },
        },
{
    let mut groups: Vec<NormalizedChildGroupV1> = Vec::new();
    let mut added: Vec<RebuildWorkV1> = Vec::new();
    let mut index: usize = 0;
    assert(children@.take(0) =~= Seq::<ChildFactoryV1>::empty());
    assert(groups_view(groups@) =~= Seq::<ChildGroupView>::empty());
    assert(work_view(added@) =~= Seq::<WorkView>::empty());
    while index < children.len()
        invariant
            index <= children.len(),
            children_scan(children@.take(index as int), path@, depth_limit as int) == Ok::<
                _,
                HarnessErrorKind,
            >(
                (groups_view(groups@), work_view(added@)),
            ),
        decreases children.len() - index,
    {
        let ghost prefix = children@.take(index as int + 1);
        assert(prefix.drop_last() =~= children@.take(index as int));
        if index > 65535 {
            proof {
                lemma_children_failure_persists(
                    children@,
                    path@,
                    depth_limit as int,
                    index as int + 1,
                );
            }
            return Err(HarnessError::new(HarnessErrorKind::ArithmeticExhausted));
        }
        let slot = index as u16;
        match children[index] {
            ChildFactoryV1::Static { template } => {
                let child = path.clone().static_child(slot);
                if child.depth() > depth_limit {
                    proof {
                        lemma_children_failure_persists(
                            children@,
                            path@,
                            depth_limit as int,
                            index as int + 1,
                        );
                    }
                    return Err(HarnessError::limit(HarnessLimitKind::PathDepth));
                }
                let group = NormalizedChildGroupV1::Static(child.clone());
                let item = RebuildWorkV1::Node { path: child, parent: Some(path.clone()), template };
                proof {
                    assert(groups_view(groups@.push(group)) =~= groups_view(groups@).push(group@));
                    assert(work_view(added@.push(item)) =~= work_view(added@).push(item@));
                }
                groups.push(group);
                added.push(item);
            },
            ChildFactoryV1::Region { region } => {
                let fragment = FragmentPathV1::new(path.clone(), slot);
                let group = NormalizedChildGroupV1::Region(fragment.clone());
                let item = RebuildWorkV1::Fragment { path: fragment, descriptor: region };
                proof {
                    assert(groups_view(groups@.push(group)) =~= groups_view(groups@).push(group@));
                    assert(work_view(added@.push(item)) =~= work_view(added@).push(item@));
                }
                groups.push(group);
                added.push(item);
            },
        }
        index = index + 1;
    }
    assert(children@.take(index as int) =~= children@);
    Ok((groups, added))
}

/// Whether `key` occurs among the first `end` keys.
fn key_seen(keys: &Vec<u64>, end: usize, key: u64) -> (seen: bool)
    requires
        end <= keys.len(),
    ensures
        seen == keys@.take(end as int).contains(key),
{
    let mut index: usize = 0;
    while index < end
        invariant
            index <= end <= keys.len(),
            forall|j: int| 0 <= j < index ==> keys@[j] != key,
        decreases end - index,
    {
        if keys[index] == key {
            assert(keys@.take(end as int)[index as int] == key);
            return true;
        }
        index = index + 1;
    }
    assert(forall|j: int| 0 <= j < end ==> keys@.take(end as int)[j] != key);
    false
}

/// Lists a region instance's members and the work they add, in key order.
fn scan_members(
    keys: &Vec<u64>,
    owner: &NodePathV1,
    slot: u16,
    body: TemplateNodeId,
    depth_limit: usize,
) -> (result: Result<(Vec<(u64, NodePathV1)>, Vec<RebuildWorkV1>), HarnessError>)
    ensures
        match result {
            Ok((members, added)) => members_scan(keys@, owner@, slot, body, depth_limit as int)
                == Ok::<_, HarnessErrorKind>((members_view(members@), work_view(added@))),
            Err(error) => {
                &&& members_scan(keys@, owner@, slot, body, depth_limit as int) == Err::<
                    (Seq<(u64, Seq<PathSegmentV1>)>, Seq<WorkView>),
                    _,
                >(
                    error.spec_kind(),
                )
                &&& error.is_unlocated(error.spec_kind())
            },
        },
{
    let mut members: Vec<(u64, NodePathV1)> = Vec::new();
    let mut added: Vec<RebuildWorkV1> = Vec::new();
    let mut index: usize = 0;
    assert(keys@.take(0) =~= Seq::<u64>::empty());
    assert(members_view(members@) =~= Seq::<(u64, Seq<PathSegmentV1>)>::empty());
    assert(work_view(added@) =~= Seq::<WorkView>::empty());
    while index < keys.len()
        invariant
            index <= keys.len(),
            members_scan(keys@.take(index as int), owner@, slot, body, depth_limit as int) == Ok::<
                _,
                HarnessErrorKind,
            >(
                (members_view(members@), work_view(added@)),
            ),
        decreases keys.len() - index,
    {
        let ghost prefix = keys@.take(index as int + 1);
        assert(prefix.drop_last() =~= keys@.take(index as int));
        let key = keys[index];
        if key_seen(keys, index, key) {
            proof {
                lemma_members_failure_persists(
                    keys@,
                    owner@,
                    slot,
                    body,
                    depth_limit as int,
                    index as int + 1,
                );
            }
            return Err(HarnessError::new(HarnessErrorKind::InvalidOperation));
        }
        let member = owner.clone().member(slot, key);
        if member.depth() > depth_limit {
            proof {
                lemma_members_failure_persists(
                    keys@,
                    owner@,
                    slot,
                    body,
                    depth_limit as int,
                    index as int + 1,
                );
            }
            return Err(HarnessError::limit(HarnessLimitKind::PathDepth));
        }
        let entry = (key, member.clone());
        let item = RebuildWorkV1::Node { path: member, parent: Some(owner.clone()), template: body };
        proof {
            assert(members_view(members@.push(entry)) =~= members_view(members@).push(
                (entry.0, entry.1@),
            ));
            assert(work_view(added@.push(item)) =~= work_view(added@).push(item@));
        }
        members.push(entry);
        added.push(item);
        index = index + 1;
    }
    assert(keys@.take(index as int) =~= keys@);
    Ok((members, added))
}

/// Pushes added work so that the first added item is popped first.
fn push_reversed(work: &mut Vec<RebuildWorkV1>, added: Vec<RebuildWorkV1>)
    ensures
        work_view(final(work)@) == work_view(old(work)@) + work_view(added@).reverse(),
{
    let ghost base = work_view(old(work)@);
    let ghost pushed = added@;
    let ghost total = pushed.len() as int;
    let mut added = added;
    assert(pushed.take(total) =~= pushed);
    assert(work_view(pushed.subrange(total, total)).reverse() =~= Seq::<WorkView>::empty());
    assert(work_view(work@) =~= base + work_view(pushed.subrange(total, total)).reverse());
    while added.len() > 0
        invariant
            total == pushed.len(),
            added.len() <= total,
            added@ == pushed.take(added.len() as int),
            work_view(work@) == base + work_view(pushed.subrange(added.len() as int, total)).reverse(),
        decreases added.len(),
    {
        let ghost before = work_view(work@);
        let ghost count = added.len() as int;
        assert(added@[count - 1] == pushed[count - 1]);
        let item = added.pop().unwrap();
        assert(item == pushed[count - 1]);
        work.push(item);
        assert(work_view(work@) =~= before.push(item@));
        assert(work_view(pushed.subrange(count - 1, total)).reverse() =~= work_view(
            pushed.subrange(count, total),
        ).reverse().push(item@));
        assert(added@ =~= pushed.take(added.len() as int));
    }
    assert(pushed.subrange(0, total) =~= pushed);
}

/// The executable state of a rebuild in progress.
struct RebuildProgress {
    work: Vec<RebuildWorkV1>,
    nodes: Vec<NormalizedNodeV1>,
    fragments: Vec<NormalizedFragmentV1>,
    property_slots: usize,
    memberships: usize,
    used_properties: usize,
    used_regions: usize,
}

impl RebuildProgress {
    spec fn state(&self) -> RebuildState {
        RebuildState {
            work: work_view(self.work@),
            nodes: nodes_view(self.nodes@),
            fragments: fragments_view(self.fragments@),
            property_slots: self.property_slots as int,
            memberships: self.memberships as int,
            used_properties: self.used_properties as int,
            used_regions: self.used_regions as int,
        }
    }
}

/// Performs one node step on the progress, whose work no longer holds it.
fn rebuild_node(
    construction: &ConstructionModelV1,
    desired: &DesiredStateV1,
    limits: HarnessLimitsV1,
    progress: &mut RebuildProgress,
    path: NodePathV1,
    parent: Option<NodePathV1>,
    template: TemplateNodeId,
) -> (result: Result<(), HarnessError>)
    ensures
        match result {
            Ok(()) => node_step(
                *construction,
                desired@,
                limits,
                old(progress).state(),
                path@,
                optional_path(parent),
                template,
            ) == Ok::<_, HarnessErrorKind>(final(progress).state()),
            Err(error) => {
                &&& node_step(
                    *construction,
                    desired@,
                    limits,
                    old(progress).state(),
                    path@,
                    optional_path(parent),
                    template,
                ) == Err::<RebuildState, _>(error.spec_kind())
                &&& error.is_unlocated(error.spec_kind())
            },
        },
{
    if let Err(error) = ensure_path_depth(&path, limits) {
        return Err(error);
    }
    if node_recorded(&progress.nodes, &path) {
        return Err(HarnessError::new(HarnessErrorKind::StateMismatch));
    }
    if let Err(error) = ensure_next_count(
        progress.nodes.len(),
        limits.normalized_nodes,
        HarnessLimitKind::NormalizedNodes,
    ) {
        return Err(error);
    }
    let index = match find_template(&construction.templates, template) {
        Some(index) => index,
        None => return Err(HarnessError::new(HarnessErrorKind::StateMismatch)),
    };
    let factory = &construction.templates[index];
    let (properties, slots, used) = match scan_properties(
        &factory.properties,
        &path,
        &desired.property_overrides,
        progress.property_slots,
        progress.used_properties,
        limits.normalized_properties,
    ) {
        Ok(scanned) => scanned,
        Err(error) => return Err(error),
    };
    let (groups, added) = match scan_children(&factory.children, &path, limits.path_depth) {
        Ok(scanned) => scanned,
        Err(error) => return Err(error),
    };
    let node = NormalizedNodeV1 {
        path,
        parent,
        template,
        component: factory.component,
        properties,
        child_groups: groups,
    };
    proof {
        assert(nodes_view(progress.nodes@.push(node)) =~= nodes_view(progress.nodes@).push(node@));
    }
    push_reversed(&mut progress.work, added);
    progress.nodes.push(node);
    progress.property_slots = slots;
    progress.used_properties = used;
    Ok(())
}

/// Performs one fragment step on the progress, whose work no longer holds it.
fn rebuild_fragment(
    construction: &ConstructionModelV1,
    desired: &DesiredStateV1,
    limits: HarnessLimitsV1,
    progress: &mut RebuildProgress,
    path: FragmentPathV1,
    descriptor: StructuralRegionId,
) -> (result: Result<(), HarnessError>)
    ensures
        match result {
            Ok(()) => fragment_step(
                *construction,
                desired@,
                limits,
                old(progress).state(),
                path@,
                descriptor,
            ) == Ok::<_, HarnessErrorKind>(final(progress).state()),
            Err(error) => {
                &&& fragment_step(
                    *construction,
                    desired@,
                    limits,
                    old(progress).state(),
                    path@,
                    descriptor,
                ) == Err::<RebuildState, _>(error.spec_kind())
                &&& error.is_unlocated(error.spec_kind())
            },
        },
{
    if let Err(error) = ensure_path_depth(path.owner(), limits) {
        return Err(error);
    }
    if fragment_recorded(&progress.fragments, &path) {
        return Err(HarnessError::new(HarnessErrorKind::StateMismatch));
    }
    if let Err(error) = ensure_next_count(
        progress.fragments.len(),
        limits.normalized_fragments,
        HarnessLimitKind::NormalizedFragments,
    ) {
        return Err(error);
    }
    let index = match find_region(&construction.regions, descriptor) {
        Some(index) => index,
        None => return Err(HarnessError::new(HarnessErrorKind::StateMismatch)),
    };
    let region = &construction.regions[index];
    let overridden = find_region_keys(&desired.region_keys, &path);
    let keys: &Vec<u64> = match overridden {
        Some(entry) => &desired.region_keys[entry].1,
        None => &region.initial_keys,
    };
    let used = match overridden {
        Some(_) => match progress.used_regions.checked_add(1) {
            Some(used) => used,
            None => return Err(HarnessError::new(HarnessErrorKind::ArithmeticExhausted)),
        },
        None => progress.used_regions,
    };
    let memberships = match progress.memberships.checked_add(keys.len()) {
        Some(memberships) => memberships,
        None => return Err(HarnessError::new(HarnessErrorKind::ArithmeticExhausted)),
    };
    if memberships > limits.live_memberships {
        return Err(HarnessError::limit(HarnessLimitKind::LiveMemberships));
    }
    let (members, added) = match scan_members(
        keys,
        path.owner(),
        path.region_slot(),
        region.repeat_body,
        limits.path_depth,
    ) {
        Ok(scanned) => scanned,
        Err(error) => return Err(error),
    };
    let fragment = NormalizedFragmentV1 { path, descriptor, members };
    proof {
        assert(fragments_view(progress.fragments@.push(fragment)) =~= fragments_view(
            progress.fragments@,
        ).push(fragment@));
    }
    push_reversed(&mut progress.work, added);
    progress.fragments.push(fragment);
    progress.memberships = memberships;
    progress.used_regions = used;
    Ok(())
}

/// Reconstructs the complete normalized state a construction program and a
/// desired state determine, without calling runtime behavior.
pub fn clean_rebuild_v1(
    construction: &ConstructionModelV1,
    desired: &DesiredStateV1,
    limits: HarnessLimitsV1,
) -> (result: Result<NormalizedStateV1, HarnessError>)
    ensures
        match result {
            Ok(state) => clean_rebuild(*construction, desired@, limits) == Ok::<
                _,
                HarnessErrorKind,
            >(state@) && well_rebuilt(*construction, state@, limits),
            Err(error) => {
                &&& clean_rebuild(*construction, desired@, limits) == Err::<StateView, _>(
                    error.spec_kind(),
                )
                &&& error.is_unlocated(error.spec_kind())
            },
        },
{
    if desired.construction_domain != construction.domain {
        return Err(HarnessError::new(HarnessErrorKind::InvalidSemanticPath));
    }
    let root = RebuildWorkV1::Node {
        path: NodePathV1::root(),
        parent: None,
        template: construction.root,
    };
    let mut progress = RebuildProgress {
        work: vec![root],
        nodes: Vec::new(),
        fragments: Vec::new(),
        property_slots: 0,
        memberships: 0,
        used_properties: 0,
        used_regions: 0,
    };
    let ghost start = rebuild_start(*construction);
    proof {
        assert(work_view(progress.work@) =~= start.work);
        assert(nodes_view(progress.nodes@) =~= start.nodes);
        assert(fragments_view(progress.fragments@) =~= start.fragments);
    }
    let ghost mut fuel: nat = rebuild_fuel(limits);
    while progress.work.len() > 0
        invariant
            desired.construction_domain == construction.domain,
            start == rebuild_start(*construction),
            rebuild_run(*construction, desired@, limits, start, rebuild_fuel(limits))
                == rebuild_run(*construction, desired@, limits, progress.state(), fuel),
            progress.nodes.len() <= limits.normalized_nodes,
            progress.fragments.len() <= limits.normalized_fragments,
            fuel >= (limits.normalized_nodes - progress.nodes.len()) + (
            limits.normalized_fragments - progress.fragments.len()) + 1,
        decreases (limits.normalized_nodes - progress.nodes.len()) + (limits.normalized_fragments
            - progress.fragments.len()),
    {
        let ghost before = progress.state();
        let item = progress.work.pop().unwrap();
        proof {
            assert(work_view(progress.work@) =~= before.work.drop_last());
            assert(progress.state() == without_last_work(before));
            assert(item@ == before.work.last());
        }
        let outcome = match item {
            RebuildWorkV1::Node { path, parent, template } => rebuild_node(
                construction,
                desired,
                limits,
                &mut progress,
                path,
                parent,
                template,
            ),
            RebuildWorkV1::Fragment { path, descriptor } => rebuild_fragment(
                construction,
                desired,
                limits,
                &mut progress,
                path,
                descriptor,
            ),
        };
        match outcome {
            Ok(()) => {
                proof {
                    fuel = (fuel - 1) as nat;
                }
            },
            Err(error) => {
                proof {
                    assert(rebuild_step(*construction, desired@, limits, before) == Err::<
                        RebuildState,
                        _,
                    >(error.spec_kind()));
                    assert(rebuild_run(*construction, desired@, limits, before, fuel) == Err::<
                        RebuildState,
                        _,
                    >(error.spec_kind()));
                }
                return Err(error);
            },
        }
    }
    if progress.used_properties != desired.property_overrides.len() || progress.used_regions
        != desired.region_keys.len() {
        return Err(HarnessError::new(HarnessErrorKind::InvalidSemanticPath));
    }
    let rebuilt = NormalizedStateV1 { nodes: progress.nodes, fragments: progress.fragments };
    proof {
        lemma_rebuild_starts_at_root(*construction, desired@, limits);
        lemma_rebuilt_paths_distinct(*construction, desired@, limits);
        lemma_rebuild_within_limits(*construction, desired@, limits);
        lemma_rebuild_parents_first(*construction, desired@, limits);
    }
    Ok(rebuilt)
}

/// What every clean rebuild is: the root first, at the empty path with no
/// parent; every other node after its parent; node paths and fragment paths
/// each distinct; no more nodes or
/// fragments than their ceilings; no path deeper than the path-depth ceiling.
pub open spec fn well_rebuilt(
    construction: ConstructionModelV1,
    state: StateView,
    limits: HarnessLimitsV1,
) -> bool {
    &&& state.nodes.len() >= 1
    &&& state.nodes[0].path == Seq::<PathSegmentV1>::empty()
    &&& state.nodes[0].parent is None
    &&& state.nodes[0].template == construction.root
    &&& forall|i: int|
        0 <= i < state.nodes.len() ==> match #[trigger] state.nodes[i].parent {
            Some(parent) => node_before(state.nodes, parent, i),
            None => i == 0,
        }
    &&& forall|i: int, j: int|
        0 <= i < j < state.nodes.len() ==> #[trigger] state.nodes[i].path
            != #[trigger] state.nodes[j].path
    &&& forall|i: int, j: int|
        0 <= i < j < state.fragments.len() ==> #[trigger] state.fragments[i].path
            != #[trigger] state.fragments[j].path
    &&& state.nodes.len() <= limits.normalized_nodes
    &&& state.fragments.len() <= limits.normalized_fragments
    &&& forall|i: int| 0 <= i < state.nodes.len() ==> #[trigger] state.nodes[i].path.len()
        <= limits.path_depth
    &&& forall|i: int|
        0 <= i < state.fragments.len() ==> #[trigger] state.fragments[i].path.0.len()
            <= limits.path_depth
}

} // verus!
