//! The preflight of a binding: before anything is bound, every ceiling the
//! snapshot would cross is recorded, and the first in the closed harness
//! order is reported.

use vstd::prelude::*;

use crate::error::{HarnessError, HarnessErrorKind, HarnessLimitKind};
use crate::fixture::HarnessLimitsV1;
use crate::identity::{lookup, IdentityIndexV1, NodeEntry, NodeId};
use crate::identity::FragmentId;
use crate::model::{
    groups_view, members_view, state_fragment, state_node, ChildGroupView, FragmentView, NodeView, NormalizedChildGroupV1,
    NormalizedFragmentV1, NormalizedNodeV1, NormalizedStateV1, StateView,
};
use crate::observe::bind::ReportedCountsV1;
use crate::observe::view::{
    view_child_at, view_children, view_fragment, view_member_at, view_members, SnapshotModelV1,
};
use crate::observe::{first_limit, first_observation_limit_v1, with_crossing, ObservationLimitCrossingsV1};
use crate::semantic::{NodePathV1, PathSegmentV1};

verus! {

/// The handles of the members of a region instance with a key, in order.
pub open spec fn key_matches(observed: Seq<(u64, NodeId)>, key: u64) -> Seq<NodeId>
    decreases observed.len(),
{
    if observed.len() == 0 {
        Seq::empty()
    } else {
        let earlier = key_matches(observed.drop_last(), key);
        if observed.last().0 == key {
            earlier.push(observed.last().1)
        } else {
            earlier
        }
    }
}

/// The member with a key, when exactly one member has it.
pub open spec fn unique_match(observed: Seq<(u64, NodeId)>, key: u64) -> Option<NodeId> {
    let matches = key_matches(observed, key);
    if matches.len() == 1 {
        Some(matches[0])
    } else {
        None
    }
}

/// The entries with one more, unless the key is already bound.
pub open spec fn insert_new<K, V>(entries: Seq<(K, V)>, key: K, value: V) -> Option<Seq<(K, V)>> {
    if lookup(entries, key) is Some {
        None
    } else {
        Some(entries.push((key, value)))
    }
}

/// The crossings with `kind` recorded when `crossed` holds.
pub open spec fn cross_if(
    crossings: ObservationLimitCrossingsV1,
    crossed: bool,
    kind: HarnessLimitKind,
) -> ObservationLimitCrossingsV1 {
    if crossed {
        with_crossing(crossings, kind)
    } else {
        crossings
    }
}

/// A running total after adding `amount`, saturating at `usize::MAX`.
pub open spec fn total_after(current: int, amount: int) -> int {
    if current + amount > usize::MAX {
        usize::MAX as int
    } else {
        current + amount
    }
}

/// What the preflight has bound and counted at one point.
pub struct PreflightState {
    pub nodes: Seq<NodeEntry>,
    pub observed_nodes: int,
    pub observed_fragments: int,
    pub observed_properties: int,
    pub observed_memberships: int,
    pub crossings: ObservationLimitCrossingsV1,
}

/// Binds the expected members of a region instance whose key the snapshot
/// gives exactly one member.
pub open spec fn preflight_members(
    members: Seq<(u64, Seq<PathSegmentV1>)>,
    observed: Seq<(u64, NodeId)>,
    nodes: Seq<NodeEntry>,
) -> Result<Seq<NodeEntry>, HarnessErrorKind>
    decreases members.len(),
{
    if members.len() == 0 {
        Ok(nodes)
    } else {
        match preflight_members(members.drop_last(), observed, nodes) {
            Err(kind) => Err(kind),
            Ok(nodes) => match unique_match(observed, members.last().0) {
                None => Ok(nodes),
                Some(node) => match insert_new(nodes, members.last().1, node) {
                    None => Err(HarnessErrorKind::StateMismatch),
                    Some(nodes) => Ok(nodes),
                },
            },
        }
    }
}

/// Preflights one child group of a bound node. `offset` is the flat position
/// of the group's first child while it is known.
pub open spec fn preflight_group(
    group: ChildGroupView,
    expected: StateView,
    snapshot: SnapshotModelV1,
    limits: HarnessLimitsV1,
    owner: NodeId,
    state: PreflightState,
    offset: Option<int>,
) -> Result<(PreflightState, Option<int>), HarnessErrorKind> {
    match group {
        ChildGroupView::Static(path) => {
            let state = PreflightState {
                crossings: cross_if(
                    state.crossings,
                    path.len() > limits.path_depth,
                    HarnessLimitKind::PathDepth,
                ),
                ..state
            };
            match offset {
                None => Ok((state, None)),
                Some(position) => {
                    let next = if position + 1 > usize::MAX {
                        None
                    } else {
                        Some(position + 1)
                    };
                    match view_child_at(snapshot, owner, position) {
                        None => Ok((state, next)),
                        Some(child) => match insert_new(state.nodes, path, child) {
                            None => Err(HarnessErrorKind::StateMismatch),
                            Some(nodes) => Ok((PreflightState { nodes, ..state }, next)),
                        },
                    }
                },
            }
        },
        ChildGroupView::Region(path) => match state_fragment(expected, path) {
            None => Err(HarnessErrorKind::StateMismatch),
            Some(fragment) => match view_fragment(snapshot, owner, fragment.descriptor) {
                None => Ok((state, None)),
                Some(handle) => {
                    let state = PreflightState {
                        observed_fragments: total_after(state.observed_fragments, 1),
                        crossings: cross_if(
                            state.crossings,
                            state.observed_fragments + 1 > limits.normalized_fragments,
                            HarnessLimitKind::NormalizedFragments,
                        ),
                        ..state
                    };
                    match view_members(snapshot, handle) {
                        None => Ok((state, None)),
                        Some(members) => {
                            let count = members.len() as int;
                            let crossed = state.observed_memberships + count
                                > limits.live_memberships;
                            let state = PreflightState {
                                observed_memberships: total_after(
                                    state.observed_memberships,
                                    count,
                                ),
                                crossings: cross_if(
                                    state.crossings,
                                    crossed,
                                    HarnessLimitKind::LiveMemberships,
                                ),
                                ..state
                            };
                            let member_depth = total_after(path.0.len() as int, 1);
                            let state = if count > 0 {
                                PreflightState {
                                    crossings: cross_if(
                                        state.crossings,
                                        member_depth > limits.path_depth,
                                        HarnessLimitKind::PathDepth,
                                    ),
                                    ..state
                                }
                            } else {
                                state
                            };
                            if crossed {
                                Ok((state, None))
                            } else {
                                let next = match offset {
                                    Some(position) => if position + count > usize::MAX {
                                        None
                                    } else {
                                        Some(position + count)
                                    },
                                    None => None,
                                };
                                match preflight_members(fragment.members, members, state.nodes) {
                                    Err(kind) => Err(kind),
                                    Ok(nodes) => Ok((PreflightState { nodes, ..state }, next)),
                                }
                            }
                        },
                    }
                },
            },
        },
    }
}

/// Preflights a bound node's child groups in order.
pub open spec fn preflight_groups(
    groups: Seq<ChildGroupView>,
    expected: StateView,
    snapshot: SnapshotModelV1,
    limits: HarnessLimitsV1,
    owner: NodeId,
    state: PreflightState,
    offset: Option<int>,
) -> Result<(PreflightState, Option<int>), HarnessErrorKind>
    decreases groups.len(),
{
    if groups.len() == 0 {
        Ok((state, offset))
    } else {
        match preflight_groups(
            groups.drop_last(),
            expected,
            snapshot,
            limits,
            owner,
            state,
            offset,
        ) {
            Err(kind) => Err(kind),
            Ok((state, offset)) => preflight_group(
                groups.last(),
                expected,
                snapshot,
                limits,
                owner,
                state,
                offset,
            ),
        }
    }
}

/// A bound node's totals before its groups: its properties count, and its
/// flat children count while the snapshot reports them, which also makes the
/// first group's flat position known.
pub open spec fn preflight_node_entry(
    node: NodeView,
    snapshot: SnapshotModelV1,
    limits: HarnessLimitsV1,
    state: PreflightState,
    owner: NodeId,
) -> (PreflightState, Option<int>) {
    let state = PreflightState {
        observed_properties: total_after(state.observed_properties, node.properties.len() as int),
        crossings: cross_if(
            state.crossings,
            state.observed_properties + node.properties.len() > limits.normalized_properties,
            HarnessLimitKind::NormalizedProperties,
        ),
        ..state
    };
    match view_children(snapshot, owner) {
        Some(children) => (
            PreflightState {
                observed_nodes: total_after(state.observed_nodes, children.len() as int),
                crossings: cross_if(
                    state.crossings,
                    state.observed_nodes + children.len() > limits.normalized_nodes,
                    HarnessLimitKind::NormalizedNodes,
                ),
                ..state
            },
            Some(0int),
        ),
        None => (state, None),
    }
}

/// Preflights one expected node: an unbound node is passed over; a bound one
/// counts its properties and its flat children and preflights its groups.
pub open spec fn preflight_node(
    node: NodeView,
    expected: StateView,
    snapshot: SnapshotModelV1,
    limits: HarnessLimitsV1,
    state: PreflightState,
) -> Result<PreflightState, HarnessErrorKind> {
    match lookup(state.nodes, node.path) {
        None => Ok(state),
        Some(owner) => {
            let (state, offset) = preflight_node_entry(node, snapshot, limits, state, owner);
            match preflight_groups(
                node.child_groups,
                expected,
                snapshot,
                limits,
                owner,
                state,
                offset,
            ) {
                Err(kind) => Err(kind),
                Ok((state, _)) => Ok(state),
            }
        },
    }
}

/// Preflights expected nodes in authored order.
pub open spec fn preflight_nodes(
    nodes: Seq<NodeView>,
    expected: StateView,
    snapshot: SnapshotModelV1,
    limits: HarnessLimitsV1,
    state: PreflightState,
) -> Result<PreflightState, HarnessErrorKind>
    decreases nodes.len(),
{
    if nodes.len() == 0 {
        Ok(state)
    } else {
        match preflight_nodes(nodes.drop_last(), expected, snapshot, limits, state) {
            Err(kind) => Err(kind),
            Ok(state) => preflight_node(nodes.last(), expected, snapshot, limits, state),
        }
    }
}

/// Whether an expected path is deeper than the ceiling.
pub open spec fn expected_depth_crossed(expected: StateView, limits: HarnessLimitsV1) -> bool {
    ||| exists|i: int|
        0 <= i < expected.nodes.len() && #[trigger] expected.nodes[i].path.len()
            > limits.path_depth
    ||| exists|i: int|
        0 <= i < expected.fragments.len() && #[trigger] expected.fragments[i].path.0.len()
            > limits.path_depth
}

/// The preflight before any node: only the root is bound, and the crossings
/// of the reported totals and of the expected paths are recorded.
pub open spec fn preflight_start(
    expected: StateView,
    snapshot: SnapshotModelV1,
    limits: HarnessLimitsV1,
) -> PreflightState {
    PreflightState {
        nodes: seq![(Seq::empty(), snapshot.root)],
        observed_nodes: 1,
        observed_fragments: 0,
        observed_properties: 0,
        observed_memberships: 0,
        crossings: ObservationLimitCrossingsV1 {
            live_memberships: false,
            path_depth: expected_depth_crossed(expected, limits),
            normalized_nodes: snapshot.node_count > limits.normalized_nodes,
            normalized_fragments: snapshot.fragment_count > limits.normalized_fragments,
            normalized_properties: snapshot.property_slot_count > limits.normalized_properties,
        },
    }
}

/// The preflight of binding an expected state to a snapshot: the snapshot's
/// reported totals, or the first ceiling crossed in the closed harness order,
/// or a mismatch that makes binding impossible.
pub open spec fn preflight(
    expected: StateView,
    snapshot: SnapshotModelV1,
    limits: HarnessLimitsV1,
) -> Result<ReportedCountsV1, HarnessErrorKind> {
    match state_node(expected, Seq::empty()) {
        None => Err(HarnessErrorKind::StateMismatch),
        Some(_) => {
            match preflight_nodes(
                expected.nodes,
                expected,
                snapshot,
                limits,
                preflight_start(expected, snapshot, limits),
            ) {
                Err(kind) => Err(kind),
                Ok(end) => match first_limit(end.crossings) {
                    Some(kind) => Err(HarnessErrorKind::LimitExceeded(kind)),
                    None => Ok(
                        ReportedCountsV1 {
                            nodes: snapshot.node_count,
                            fragments: snapshot.fragment_count,
                            properties: snapshot.property_slot_count,
                        },
                    ),
                },
            }
        },
    }
}

/// An optional flat position as an integer.
pub open spec fn position_view(position: Option<usize>) -> Option<int> {
    match position {
        Some(position) => Some(position as int),
        None => None,
    }
}

/// Adds an amount to a running total, saturating, and records a crossing of
/// the inclusive limit; reports whether the limit was crossed.
fn record_total(
    current: &mut usize,
    amount: usize,
    kind: HarnessLimitKind,
    limit: usize,
    crossings: &mut ObservationLimitCrossingsV1,
) -> (crossed: bool)
    ensures
        *final(current) == total_after(*old(current) as int, amount as int),
        crossed == (*old(current) + amount > limit),
        *final(crossings) == cross_if(*old(crossings), crossed, kind),
{
    match current.checked_add(amount) {
        None => {
            *current = usize::MAX;
            crossings.record(kind);
            true
        },
        Some(next) => {
            *current = next;
            if next > limit {
                crossings.record(kind);
                true
            } else {
                false
            }
        },
    }
}

/// The executable state of a preflight.
struct PreflightProgress {
    nodes: IdentityIndexV1,
    observed_nodes: usize,
    observed_fragments: usize,
    observed_properties: usize,
    observed_memberships: usize,
    crossings: ObservationLimitCrossingsV1,
}

impl PreflightProgress {
    spec fn state(&self) -> PreflightState {
        PreflightState {
            nodes: self.nodes@.nodes,
            observed_nodes: self.observed_nodes as int,
            observed_fragments: self.observed_fragments as int,
            observed_properties: self.observed_properties as int,
            observed_memberships: self.observed_memberships as int,
            crossings: self.crossings,
        }
    }
}

/// Binds the expected members of a region instance whose key the snapshot
/// gives exactly one member.
fn bind_expected_members(
    nodes: &mut IdentityIndexV1,
    expected: &Vec<(u64, NodePathV1)>,
    view: &SnapshotModelV1,
    fragment: FragmentId,
    count: usize,
) -> (result: Result<(), HarnessError>)
    requires
        view_members(*view, fragment) is Some,
        count == view_members(*view, fragment)->Some_0.len(),
    ensures
        final(nodes)@.fragments == old(nodes)@.fragments,
        match result {
            Ok(()) => preflight_members(
                members_view(expected@),
                view_members(*view, fragment)->Some_0,
                old(nodes)@.nodes,
            ) == Ok::<_, HarnessErrorKind>(final(nodes)@.nodes),
            Err(error) => {
                &&& preflight_members(
                    members_view(expected@),
                    view_members(*view, fragment)->Some_0,
                    old(nodes)@.nodes,
                ) == Err::<Seq<NodeEntry>, _>(error.spec_kind())
                &&& error.is_unlocated(error.spec_kind())
            },
        },
{
    let ghost observed = view_members(*view, fragment)->Some_0;
    let ghost wanted = members_view(expected@);
    let ghost initial = nodes@.nodes;
    let mut member: usize = 0;
    assert(wanted.take(0) =~= Seq::<(u64, Seq<PathSegmentV1>)>::empty());
    while member < expected.len()
        invariant
            member <= expected.len(),
            wanted == members_view(expected@),
            wanted.len() == expected.len(),
            observed == view_members(*view, fragment)->Some_0,
            view_members(*view, fragment) is Some,
            count == observed.len(),
            nodes@.fragments == old(nodes)@.fragments,
            initial == old(nodes)@.nodes,
            preflight_members(wanted.take(member as int), observed, initial) == Ok::<
                _,
                HarnessErrorKind,
            >(nodes@.nodes),
        decreases expected.len() - member,
    {
        assert(wanted.take(member as int + 1).drop_last() =~= wanted.take(member as int));
        let key = expected[member].0;
        let mut found: Option<NodeId> = None;
        let mut duplicate = false;
        let mut index: usize = 0;
        assert(observed.take(0) =~= Seq::<(u64, NodeId)>::empty());
        while index < count
            invariant
                index <= count,
                count == observed.len(),
                observed == view_members(*view, fragment)->Some_0,
                view_members(*view, fragment) is Some,
                key_matches(observed.take(index as int), key).len() == 0 <==> found is None,
                key_matches(observed.take(index as int), key).len() > 0 ==> found == Some(
                    key_matches(observed.take(index as int), key).last(),
                ),
                duplicate <==> key_matches(observed.take(index as int), key).len() >= 2,
            decreases count - index,
        {
            assert(observed.take(index as int + 1).drop_last() =~= observed.take(index as int));
            match view.keyed_at(fragment, index) {
                None => {
                    assert(false);
                    return Err(HarnessError::new(HarnessErrorKind::StateMismatch));
                },
                Some((candidate_key, node)) => {
                    if candidate_key == key {
                        duplicate = found.is_some();
                        found = Some(node);
                    }
                },
            }
            index = index + 1;
        }
        assert(observed.take(index as int) =~= observed);
        if let Some(node) = found {
            if !duplicate {
                if !nodes.record_node(expected[member].1.clone(), node) {
                    proof {
                        assert(wanted.take(member as int + 1) =~= wanted.take(member as int).push(
                            wanted[member as int],
                        ));
                        lemma_preflight_members_failure_persists(
                            wanted,
                            observed,
                            initial,
                            member as int + 1,
                        );
                    }
                    return Err(HarnessError::new(HarnessErrorKind::StateMismatch));
                }
            }
        }
        member = member + 1;
    }
    assert(wanted.take(member as int) =~= wanted);
    Ok(())
}

proof fn lemma_preflight_members_failure_persists(
    members: Seq<(u64, Seq<PathSegmentV1>)>,
    observed: Seq<(u64, NodeId)>,
    nodes: Seq<NodeEntry>,
    count: int,
)
    requires
        0 <= count <= members.len(),
        preflight_members(members.take(count), observed, nodes) is Err,
    ensures
        preflight_members(members, observed, nodes) == preflight_members(
            members.take(count),
            observed,
            nodes,
        ),
    decreases members.len(),
{
    if count < members.len() {
        assert(members.drop_last().take(count) =~= members.take(count));
        lemma_preflight_members_failure_persists(members.drop_last(), observed, nodes, count);
    } else {
        assert(members.take(count) =~= members);
    }
}

proof fn lemma_preflight_groups_failure_persists(
    groups: Seq<ChildGroupView>,
    expected: StateView,
    snapshot: SnapshotModelV1,
    limits: HarnessLimitsV1,
    owner: NodeId,
    state: PreflightState,
    offset: Option<int>,
    count: int,
)
    requires
        0 <= count <= groups.len(),
        preflight_groups(groups.take(count), expected, snapshot, limits, owner, state, offset) is Err,
    ensures
        preflight_groups(groups, expected, snapshot, limits, owner, state, offset)
            == preflight_groups(groups.take(count), expected, snapshot, limits, owner, state, offset),
    decreases groups.len(),
{
    if count < groups.len() {
        assert(groups.drop_last().take(count) =~= groups.take(count));
        lemma_preflight_groups_failure_persists(
            groups.drop_last(),
            expected,
            snapshot,
            limits,
            owner,
            state,
            offset,
            count,
        );
    } else {
        assert(groups.take(count) =~= groups);
    }
}

/// Preflights one child group of a bound node.
fn preflight_group_step(
    progress: &mut PreflightProgress,
    group: &NormalizedChildGroupV1,
    expected: &NormalizedStateV1,
    view: &SnapshotModelV1,
    limits: HarnessLimitsV1,
    owner: NodeId,
    offset: Option<usize>,
) -> (result: Result<Option<usize>, HarnessError>)
    ensures
        match result {
            Ok(next) => preflight_group(
                group@,
                expected@,
                *view,
                limits,
                owner,
                old(progress).state(),
                position_view(offset),
            ) == Ok::<_, HarnessErrorKind>((final(progress).state(), position_view(next))),
            Err(error) => {
                &&& preflight_group(
                    group@,
                    expected@,
                    *view,
                    limits,
                    owner,
                    old(progress).state(),
                    position_view(offset),
                ) == Err::<(PreflightState, Option<int>), _>(error.spec_kind())
                &&& error.is_unlocated(error.spec_kind())
            },
        },
{
    match group {
        NormalizedChildGroupV1::Static(path) => {
            if path.depth() > limits.path_depth {
                progress.crossings.record(HarnessLimitKind::PathDepth);
            }
            match offset {
                None => Ok(None),
                Some(position) => {
                    let child_count = view.child_count(owner);
                    if let Some(count) = child_count {
                        if position < count {
                            if let Some(child) = view.child_at(owner, position) {
                                if !progress.nodes.record_node(path.clone(), child) {
                                    return Err(HarnessError::new(HarnessErrorKind::StateMismatch));
                                }
                            }
                        }
                    }
                    Ok(position.checked_add(1))
                },
            }
        },
        NormalizedChildGroupV1::Region(path) => {
            let fragment = match expected.fragment(path) {
                Some(fragment) => fragment,
                None => return Err(HarnessError::new(HarnessErrorKind::StateMismatch)),
            };
            let handle = match view.fragment(owner, fragment.descriptor) {
                Some(handle) => handle,
                None => return Ok(None),
            };
            record_total(
                &mut progress.observed_fragments,
                1,
                HarnessLimitKind::NormalizedFragments,
                limits.normalized_fragments,
                &mut progress.crossings,
            );
            let count = match view.keyed_count(handle) {
                Some(count) => count,
                None => return Ok(None),
            };
            let crossed = record_total(
                &mut progress.observed_memberships,
                count,
                HarnessLimitKind::LiveMemberships,
                limits.live_memberships,
                &mut progress.crossings,
            );
            if count > 0 {
                let owner_depth = fragment.path.owner().depth();
                let member_depth = if owner_depth == usize::MAX {
                    usize::MAX
                } else {
                    owner_depth + 1
                };
                if member_depth > limits.path_depth {
                    progress.crossings.record(HarnessLimitKind::PathDepth);
                }
            }
            if crossed {
                return Ok(None);
            }
            let next = match offset {
                Some(position) => position.checked_add(count),
                None => None,
            };
            match bind_expected_members(
                &mut progress.nodes,
                &fragment.members,
                view,
                handle,
                count,
            ) {
                Ok(()) => Ok(next),
                Err(error) => Err(error),
            }
        },
    }
}

/// Preflights one expected node.
fn preflight_node_step(
    progress: &mut PreflightProgress,
    node: &NormalizedNodeV1,
    expected: &NormalizedStateV1,
    view: &SnapshotModelV1,
    limits: HarnessLimitsV1,
) -> (result: Result<(), HarnessError>)
    ensures
        match result {
            Ok(()) => preflight_node(node@, expected@, *view, limits, old(progress).state())
                == Ok::<_, HarnessErrorKind>(final(progress).state()),
            Err(error) => {
                &&& preflight_node(node@, expected@, *view, limits, old(progress).state())
                    == Err::<PreflightState, _>(error.spec_kind())
                &&& error.is_unlocated(error.spec_kind())
            },
        },
{
    let ghost initial = progress.state();
    let owner = match progress.nodes.node(&node.path) {
        Some(owner) => owner,
        None => return Ok(()),
    };
    record_total(
        &mut progress.observed_properties,
        node.properties.len(),
        HarnessLimitKind::NormalizedProperties,
        limits.normalized_properties,
        &mut progress.crossings,
    );
    let child_count = view.child_count(owner);
    let mut offset: Option<usize> = None;
    if let Some(count) = child_count {
        record_total(
            &mut progress.observed_nodes,
            count,
            HarnessLimitKind::NormalizedNodes,
            limits.normalized_nodes,
            &mut progress.crossings,
        );
        offset = Some(0);
    }
    let ghost groups = groups_view(node.child_groups@);
    let ghost start = progress.state();
    let ghost start_offset = position_view(offset);
    assert((start, start_offset) == preflight_node_entry(node@, *view, limits, initial, owner));
    let mut index: usize = 0;
    assert(groups.take(0) =~= Seq::<ChildGroupView>::empty());
    while index < node.child_groups.len()
        invariant
            index <= node.child_groups.len(),
            lookup(initial.nodes, node@.path) == Some(owner),
            (start, start_offset) == preflight_node_entry(node@, *view, limits, initial, owner),
            initial == old(progress).state(),
            groups == groups_view(node.child_groups@),
            groups.len() == node.child_groups.len(),
            preflight_groups(
                groups.take(index as int),
                expected@,
                *view,
                limits,
                owner,
                start,
                start_offset,
            ) == Ok::<_, HarnessErrorKind>((progress.state(), position_view(offset))),
        decreases node.child_groups.len() - index,
    {
        assert(groups.take(index as int + 1).drop_last() =~= groups.take(index as int));
        match preflight_group_step(
            progress,
            &node.child_groups[index],
            expected,
            view,
            limits,
            owner,
            offset,
        ) {
            Ok(next) => {
                offset = next;
            },
            Err(error) => {
                proof {
                    lemma_preflight_groups_failure_persists(
                        groups,
                        expected@,
                        *view,
                        limits,
                        owner,
                        start,
                        start_offset,
                        index as int + 1,
                    );
                }
                return Err(error);
            },
        }
        index = index + 1;
    }
    assert(groups.take(index as int) =~= groups);
    Ok(())
}

proof fn lemma_preflight_nodes_failure_persists(
    nodes: Seq<NodeView>,
    expected: StateView,
    snapshot: SnapshotModelV1,
    limits: HarnessLimitsV1,
    state: PreflightState,
    count: int,
)
    requires
        0 <= count <= nodes.len(),
        preflight_nodes(nodes.take(count), expected, snapshot, limits, state) is Err,
    ensures
        preflight_nodes(nodes, expected, snapshot, limits, state) == preflight_nodes(
            nodes.take(count),
            expected,
            snapshot,
            limits,
            state,
        ),
    decreases nodes.len(),
{
    if count < nodes.len() {
        assert(nodes.drop_last().take(count) =~= nodes.take(count));
        lemma_preflight_nodes_failure_persists(
            nodes.drop_last(),
            expected,
            snapshot,
            limits,
            state,
            count,
        );
    } else {
        assert(nodes.take(count) =~= nodes);
    }
}

/// Preflights binding an expected state to a snapshot: returns the
/// snapshot's reported totals, or the first ceiling crossed in the closed
/// harness order, or a mismatch that makes binding impossible.
pub fn preflight_snapshot_v1(
    expected: &NormalizedStateV1,
    view: &SnapshotModelV1,
    limits: HarnessLimitsV1,
) -> (result: Result<ReportedCountsV1, HarnessError>)
    ensures
        match result {
            Ok(reported) => preflight(expected@, *view, limits) == Ok::<_, HarnessErrorKind>(
                reported,
            ),
            Err(error) => {
                &&& preflight(expected@, *view, limits) == Err::<ReportedCountsV1, _>(
                    error.spec_kind(),
                )
                &&& error.is_unlocated(error.spec_kind())
            },
        },
{
    let root = NodePathV1::root();
    if expected.node(&root).is_none() {
        return Err(HarnessError::new(HarnessErrorKind::StateMismatch));
    }
    let reported = ReportedCountsV1::new(
        view.node_count,
        view.fragment_count,
        view.property_slot_count,
    );
    let mut crossings = ObservationLimitCrossingsV1::new(
        false,
        false,
        reported.nodes > limits.normalized_nodes,
        reported.fragments > limits.normalized_fragments,
        reported.properties > limits.normalized_properties,
    );
    let ghost nodes_view_all = expected@.nodes;
    let ghost fragments_view_all = expected@.fragments;
    let mut index: usize = 0;
    while index < expected.nodes.len()
        invariant
            index <= expected.nodes.len(),
            nodes_view_all == expected@.nodes,
            nodes_view_all.len() == expected.nodes.len(),
            crossings.live_memberships == false,
            crossings.normalized_nodes == (view.node_count > limits.normalized_nodes),
            crossings.normalized_fragments == (view.fragment_count > limits.normalized_fragments),
            crossings.normalized_properties == (view.property_slot_count
                > limits.normalized_properties),
            crossings.path_depth == exists|i: int|
                0 <= i < index && #[trigger] nodes_view_all[i].path.len() > limits.path_depth,
        decreases expected.nodes.len() - index,
    {
        if expected.nodes[index].path.depth() > limits.path_depth {
            crossings.record(HarnessLimitKind::PathDepth);
        }
        proof {
            assert(nodes_view_all[index as int].path == expected.nodes@[index as int].path@);
        }
        index = index + 1;
    }
    let mut index: usize = 0;
    while index < expected.fragments.len()
        invariant
            index <= expected.fragments.len(),
            nodes_view_all == expected@.nodes,
            fragments_view_all == expected@.fragments,
            fragments_view_all.len() == expected.fragments.len(),
            crossings.live_memberships == false,
            crossings.normalized_nodes == (view.node_count > limits.normalized_nodes),
            crossings.normalized_fragments == (view.fragment_count > limits.normalized_fragments),
            crossings.normalized_properties == (view.property_slot_count
                > limits.normalized_properties),
            crossings.path_depth == ((exists|i: int|
                0 <= i < nodes_view_all.len() && #[trigger] nodes_view_all[i].path.len()
                    > limits.path_depth) || exists|i: int|
                0 <= i < index && #[trigger] fragments_view_all[i].path.0.len()
                    > limits.path_depth),
        decreases expected.fragments.len() - index,
    {
        if expected.fragments[index].path.owner().depth() > limits.path_depth {
            crossings.record(HarnessLimitKind::PathDepth);
        }
        proof {
            assert(fragments_view_all[index as int].path == expected.fragments@[index as int].path@);
        }
        index = index + 1;
    }
    let mut nodes = IdentityIndexV1::new();
    nodes.record_node(root, view.root);
    let mut progress = PreflightProgress {
        nodes,
        observed_nodes: 1,
        observed_fragments: 0,
        observed_properties: 0,
        observed_memberships: 0,
        crossings,
    };
    let ghost start = progress.state();
    proof {
        assert(start.nodes =~= seq![(Seq::<PathSegmentV1>::empty(), view.root)]);
        assert(start.crossings.path_depth == expected_depth_crossed(expected@, limits));
        assert(start == preflight_start(expected@, *view, limits));
    }
    let mut index: usize = 0;
    assert(nodes_view_all.take(0) =~= Seq::<NodeView>::empty());
    while index < expected.nodes.len()
        invariant
            index <= expected.nodes.len(),
            state_node(expected@, Seq::<PathSegmentV1>::empty()) is Some,
            start == preflight_start(expected@, *view, limits),
            nodes_view_all == expected@.nodes,
            nodes_view_all.len() == expected.nodes.len(),
            preflight_nodes(nodes_view_all.take(index as int), expected@, *view, limits, start)
                == Ok::<_, HarnessErrorKind>(progress.state()),
        decreases expected.nodes.len() - index,
    {
        assert(nodes_view_all.take(index as int + 1).drop_last() =~= nodes_view_all.take(
            index as int,
        ));
        if let Err(error) = preflight_node_step(
            &mut progress,
            &expected.nodes[index],
            expected,
            view,
            limits,
        ) {
            proof {
                lemma_preflight_nodes_failure_persists(
                    nodes_view_all,
                    expected@,
                    *view,
                    limits,
                    start,
                    index as int + 1,
                );
            }
            return Err(error);
        }
        index = index + 1;
    }
    assert(nodes_view_all.take(index as int) =~= nodes_view_all);
    if let Some(kind) = first_observation_limit_v1(progress.crossings) {
        return Err(HarnessError::limit(kind));
    }
    Ok(reported)
}

} // verus!
