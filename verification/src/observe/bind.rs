//! Binding the expected state's semantic paths to the handles a snapshot
//! reports, without trusting the snapshot's shape: what cannot be bound stays
//! unbound for the diagnosis to describe.

use vstd::prelude::*;

use crate::error::{HarnessError, HarnessErrorKind, HarnessLimitKind};
use crate::fixture::HarnessLimitsV1;
use crate::identity::{
    lemma_lookup_prefix, lemma_lookup_take_step, lookup, FragmentEntry, FragmentId, IdentityIndexV1, IdentityIndexView, NodeEntry, NodeId,
};
use crate::model::{
    groups_view, members_view, state_fragment, state_node, ChildGroupView, FragmentView,
    NodeView, NormalizedChildGroupV1, NormalizedNodeV1, NormalizedStateV1, StateView,
};
use crate::observe::preflight::{
    insert_new, key_matches, preflight, preflight_snapshot_v1, unique_match,
};
use crate::observe::view::{view_children, view_fragment, view_members, SnapshotModelV1};
use crate::semantic::{FragmentPathV1, NodePathV1, PathSegmentV1};

verus! {

/// The totals a snapshot reports about itself.
#[derive(Clone, Copy, Debug, PartialEq, Eq, Structural)]
pub struct ReportedCountsV1 {
    pub nodes: usize,
    pub fragments: usize,
    pub properties: usize,
}

impl ReportedCountsV1 {
    /// Groups the three reported totals.
    pub fn new(nodes: usize, fragments: usize, properties: usize) -> (counts: Self)
        ensures
            counts == (ReportedCountsV1 { nodes, fragments, properties }),
    {
        ReportedCountsV1 { nodes, fragments, properties }
    }

    /// Returns the reported node total.
    pub fn nodes(self) -> (nodes: usize)
        ensures
            nodes == self.nodes,
    {
        self.nodes
    }

    /// Returns the reported fragment total.
    pub fn fragments(self) -> (fragments: usize)
        ensures
            fragments == self.fragments,
    {
        self.fragments
    }

    /// Returns the reported property slot total.
    pub fn properties(self) -> (properties: usize)
        ensures
            properties == self.properties,
    {
        self.properties
    }
}

/// Mathematical form of what a snapshot reports for one expected region instance.
pub enum BoundFragmentView {
    Absent,
    Present(Seq<(u64, NodeId)>),
}

/// Everything a binding has bound and read at one point: node handles by
/// path, fragment handles by path, each bound node's flat children, and
/// each expected region instance's members as reported.
pub struct BindState {
    pub nodes: Seq<NodeEntry>,
    pub handles: Seq<FragmentEntry>,
    pub children: Seq<(Seq<PathSegmentV1>, Seq<NodeId>)>,
    pub fragments: Seq<((Seq<PathSegmentV1>, u16), BoundFragmentView)>,
    pub observed_nodes: int,
    pub observed_memberships: int,
}

/// Mathematical form of a bound snapshot.
pub struct BoundView {
    pub identities: IdentityIndexView,
    pub children: Seq<(Seq<PathSegmentV1>, Seq<NodeId>)>,
    pub fragments: Seq<((Seq<PathSegmentV1>, u16), BoundFragmentView)>,
    pub reported: ReportedCountsV1,
}

/// Binds each expected member whose key the snapshot gives exactly one
/// member; every member path must be within the depth ceiling.
pub open spec fn bind_members(
    members: Seq<(u64, Seq<PathSegmentV1>)>,
    observed: Seq<(u64, NodeId)>,
    limits: HarnessLimitsV1,
    nodes: Seq<NodeEntry>,
) -> Result<Seq<NodeEntry>, HarnessErrorKind>
    decreases members.len(),
{
    if members.len() == 0 {
        Ok(nodes)
    } else {
        match bind_members(members.drop_last(), observed, limits, nodes) {
            Err(kind) => Err(kind),
            Ok(nodes) => {
                let (key, path) = members.last();
                if path.len() > limits.path_depth {
                    Err(HarnessErrorKind::LimitExceeded(HarnessLimitKind::PathDepth))
                } else {
                    match unique_match(observed, key) {
                        None => Ok(nodes),
                        Some(node) => match insert_new(nodes, path, node) {
                            None => Err(HarnessErrorKind::StateMismatch),
                            Some(nodes) => Ok(nodes),
                        },
                    }
                }
            },
        }
    }
}

/// Binds one child group of a bound node against its flat children. `offset`
/// is the flat position of the group's first child while it is known.
pub open spec fn bind_group(
    group: ChildGroupView,
    expected: StateView,
    snapshot: SnapshotModelV1,
    limits: HarnessLimitsV1,
    owner: NodeId,
    children: Seq<NodeId>,
    state: BindState,
    offset: Option<int>,
) -> Result<(BindState, Option<int>), HarnessErrorKind> {
    match group {
        ChildGroupView::Static(path) => if path.len() > limits.path_depth {
            Err(HarnessErrorKind::LimitExceeded(HarnessLimitKind::PathDepth))
        } else {
            match offset {
                None => Ok((state, None)),
                Some(position) => {
                    let bound = if 0 <= position < children.len() {
                        insert_new(state.nodes, path, children[position])
                    } else {
                        Some(state.nodes)
                    };
                    match bound {
                        None => Err(HarnessErrorKind::StateMismatch),
                        Some(nodes) => if position + 1 > usize::MAX {
                            Err(HarnessErrorKind::ArithmeticExhausted)
                        } else {
                            Ok((BindState { nodes, ..state }, Some(position + 1)))
                        },
                    }
                },
            }
        },
        ChildGroupView::Region(path) => match state_fragment(expected, path) {
            None => Err(HarnessErrorKind::StateMismatch),
            Some(fragment) => match view_fragment(snapshot, owner, fragment.descriptor) {
                None => match insert_new(state.fragments, path, BoundFragmentView::Absent) {
                    None => Err(HarnessErrorKind::StateMismatch),
                    Some(fragments) => Ok((BindState { fragments, ..state }, None)),
                },
                Some(handle) => match insert_new(state.handles, path, handle) {
                    None => Err(HarnessErrorKind::StateMismatch),
                    Some(handles) => if state.observed_memberships > limits.live_memberships {
                        Err(HarnessErrorKind::ArithmeticExhausted)
                    } else {
                        match view_members(snapshot, handle) {
                            None => Err(HarnessErrorKind::StateMismatch),
                            Some(members) => if members.len() > limits.live_memberships
                                - state.observed_memberships {
                                Err(
                                    HarnessErrorKind::LimitExceeded(
                                        HarnessLimitKind::LiveMemberships,
                                    ),
                                )
                            } else if state.observed_memberships + members.len() > usize::MAX {
                                Err(HarnessErrorKind::ArithmeticExhausted)
                            } else {
                                match bind_members(fragment.members, members, limits, state.nodes) {
                                    Err(kind) => Err(kind),
                                    Ok(nodes) => {
                                        let next = match offset {
                                            Some(position) => Some(position + members.len()),
                                            None => None,
                                        };
                                        if next is Some && next->Some_0 > usize::MAX {
                                            Err(HarnessErrorKind::ArithmeticExhausted)
                                        } else {
                                            match insert_new(
                                                state.fragments,
                                                path,
                                                BoundFragmentView::Present(members),
                                            ) {
                                                None => Err(HarnessErrorKind::StateMismatch),
                                                Some(fragments) => Ok(
                                                    (
                                                        BindState {
                                                            nodes,
                                                            handles,
                                                            fragments,
                                                            observed_memberships: state.observed_memberships
                                                                + members.len(),
                                                            ..state
                                                        },
                                                        next,
                                                    ),
                                                ),
                                            }
                                        }
                                    },
                                }
                            },
                        }
                    },
                },
            },
        },
    }
}

/// Binds a bound node's child groups in order.
pub open spec fn bind_groups(
    groups: Seq<ChildGroupView>,
    expected: StateView,
    snapshot: SnapshotModelV1,
    limits: HarnessLimitsV1,
    owner: NodeId,
    children: Seq<NodeId>,
    state: BindState,
    offset: Option<int>,
) -> Result<(BindState, Option<int>), HarnessErrorKind>
    decreases groups.len(),
{
    if groups.len() == 0 {
        Ok((state, offset))
    } else {
        match bind_groups(
            groups.drop_last(),
            expected,
            snapshot,
            limits,
            owner,
            children,
            state,
            offset,
        ) {
            Err(kind) => Err(kind),
            Ok((state, offset)) => bind_group(
                groups.last(),
                expected,
                snapshot,
                limits,
                owner,
                children,
                state,
                offset,
            ),
        }
    }
}

/// Binds one expected node: an unbound node is passed over; a bound one has
/// its flat children read, within the node ceiling, and its groups bound.
pub open spec fn bind_node(
    node: NodeView,
    expected: StateView,
    snapshot: SnapshotModelV1,
    limits: HarnessLimitsV1,
    state: BindState,
) -> Result<BindState, HarnessErrorKind> {
    match lookup(state.nodes, node.path) {
        None => Ok(state),
        Some(owner) => if state.observed_nodes > limits.normalized_nodes {
            Err(HarnessErrorKind::ArithmeticExhausted)
        } else {
            match view_children(snapshot, owner) {
                None => Err(HarnessErrorKind::StateMismatch),
                Some(children) => if children.len() > limits.normalized_nodes
                    - state.observed_nodes {
                    Err(HarnessErrorKind::LimitExceeded(HarnessLimitKind::NormalizedNodes))
                } else if state.observed_nodes + children.len() > usize::MAX {
                    Err(HarnessErrorKind::ArithmeticExhausted)
                } else {
                    match bind_groups(
                        node.child_groups,
                        expected,
                        snapshot,
                        limits,
                        owner,
                        children,
                        BindState {
                            observed_nodes: state.observed_nodes + children.len(),
                            ..state
                        },
                        Some(0int),
                    ) {
                        Err(kind) => Err(kind),
                        Ok((state, _)) => match insert_new(state.children, node.path, children) {
                            None => Err(HarnessErrorKind::StateMismatch),
                            Some(recorded) => Ok(BindState { children: recorded, ..state }),
                        },
                    }
                },
            }
        },
    }
}

/// Binds expected nodes in authored order.
pub open spec fn bind_nodes(
    nodes: Seq<NodeView>,
    expected: StateView,
    snapshot: SnapshotModelV1,
    limits: HarnessLimitsV1,
    state: BindState,
) -> Result<BindState, HarnessErrorKind>
    decreases nodes.len(),
{
    if nodes.len() == 0 {
        Ok(state)
    } else {
        match bind_nodes(nodes.drop_last(), expected, snapshot, limits, state) {
            Err(kind) => Err(kind),
            Ok(state) => bind_node(nodes.last(), expected, snapshot, limits, state),
        }
    }
}

/// The binding before any node: only the root is bound.
pub open spec fn bind_start(snapshot: SnapshotModelV1) -> BindState {
    BindState {
        nodes: seq![(Seq::empty(), snapshot.root)],
        handles: Seq::empty(),
        children: Seq::empty(),
        fragments: Seq::empty(),
        observed_nodes: 1,
        observed_memberships: 0,
    }
}

/// Indexes the bound handles of expected nodes in authored order.
pub open spec fn bound_node_identities(
    nodes: Seq<NodeView>,
    bound: Seq<NodeEntry>,
) -> Result<Seq<NodeEntry>, HarnessErrorKind>
    decreases nodes.len(),
{
    if nodes.len() == 0 {
        Ok(Seq::empty())
    } else {
        match bound_node_identities(nodes.drop_last(), bound) {
            Err(kind) => Err(kind),
            Ok(index) => match lookup(bound, nodes.last().path) {
                None => Ok(index),
                Some(node) => match insert_new(index, nodes.last().path, node) {
                    None => Err(HarnessErrorKind::StateMismatch),
                    Some(index) => Ok(index),
                },
            },
        }
    }
}

/// Indexes the bound handles of expected fragments in authored order.
pub open spec fn bound_fragment_identities(
    fragments: Seq<FragmentView>,
    bound: Seq<FragmentEntry>,
) -> Result<Seq<FragmentEntry>, HarnessErrorKind>
    decreases fragments.len(),
{
    if fragments.len() == 0 {
        Ok(Seq::empty())
    } else {
        match bound_fragment_identities(fragments.drop_last(), bound) {
            Err(kind) => Err(kind),
            Ok(index) => match lookup(bound, fragments.last().path) {
                None => Ok(index),
                Some(fragment) => match insert_new(index, fragments.last().path, fragment) {
                    None => Err(HarnessErrorKind::StateMismatch),
                    Some(index) => Ok(index),
                },
            },
        }
    }
}

/// Binding an expected state's paths to a snapshot's handles: after the
/// preflight, every expected node reachable through bound handles has its
/// flat children read and its groups bound; what the snapshot does not give
/// stays unbound.
pub open spec fn bind(
    expected: StateView,
    snapshot: SnapshotModelV1,
    limits: HarnessLimitsV1,
) -> Result<BoundView, HarnessErrorKind> {
    match preflight(expected, snapshot, limits) {
        Err(kind) => Err(kind),
        Ok(reported) => if state_node(expected, Seq::empty()) is None {
            Err(HarnessErrorKind::StateMismatch)
        } else {
            match bind_nodes(expected.nodes, expected, snapshot, limits, bind_start(snapshot)) {
                Err(kind) => Err(kind),
                Ok(end) => match bound_node_identities(expected.nodes, end.nodes) {
                    Err(kind) => Err(kind),
                    Ok(nodes) => match bound_fragment_identities(expected.fragments, end.handles) {
                        Err(kind) => Err(kind),
                        Ok(fragments) => Ok(
                            BoundView {
                                identities: IdentityIndexView { nodes, fragments },
                                children: end.children,
                                fragments: end.fragments,
                                reported,
                            },
                        ),
                    },
                },
            }
        },
    }
}

/// What a snapshot reports for one expected region instance.
#[derive(Debug)]
pub enum BoundFragmentV1 {
    /// The owner has no instance for the descriptor.
    Absent,
    /// The instance's members, key and handle, in order.
    Present(Vec<(u64, NodeId)>),
}

impl View for BoundFragmentV1 {
    type V = BoundFragmentView;

    open spec fn view(&self) -> BoundFragmentView {
        match self {
            BoundFragmentV1::Absent => BoundFragmentView::Absent,
            BoundFragmentV1::Present(members) => BoundFragmentView::Present(members@),
        }
    }
}

/// Flat children by node path, as views.
pub open spec fn children_view(entries: Seq<(NodePathV1, Vec<NodeId>)>) -> Seq<
    (Seq<PathSegmentV1>, Seq<NodeId>),
> {
    entries.map_values(|entry: (NodePathV1, Vec<NodeId>)| (entry.0@, entry.1@))
}

/// Reported region instances by fragment path, as views.
pub open spec fn bound_fragments_view(entries: Seq<(FragmentPathV1, BoundFragmentV1)>) -> Seq<
    ((Seq<PathSegmentV1>, u16), BoundFragmentView),
> {
    entries.map_values(|entry: (FragmentPathV1, BoundFragmentV1)| (entry.0@, entry.1@))
}

/// The expected state's paths bound to a snapshot's handles, with what the
/// snapshot reports for each bound node and region instance.
#[derive(Debug)]
pub struct BoundSnapshotV1 {
    identities: IdentityIndexV1,
    children: Vec<(NodePathV1, Vec<NodeId>)>,
    fragments: Vec<(FragmentPathV1, BoundFragmentV1)>,
    reported_counts: ReportedCountsV1,
}

impl View for BoundSnapshotV1 {
    type V = BoundView;

    closed spec fn view(&self) -> BoundView {
        BoundView {
            identities: self.identities@,
            children: children_view(self.children@),
            fragments: bound_fragments_view(self.fragments@),
            reported: self.reported_counts,
        }
    }
}

impl BoundSnapshotV1 {
    /// Returns the bound handles by semantic path.
    pub fn identities(&self) -> (identities: &IdentityIndexV1)
        ensures
            identities@ == self@.identities,
    {
        &self.identities
    }

    /// Returns the flat children read for a bound node.
    pub fn children(&self, path: &NodePathV1) -> (children: Option<&Vec<NodeId>>)
        ensures
            match children {
                Some(children) => lookup(self@.children, path@) == Some(children@),
                None => lookup(self@.children, path@) is None,
            },
    {
        let ghost entries = children_view(self.children@);
        let mut index: usize = 0;
        while index < self.children.len()
            invariant
                index <= self.children.len(),
                entries == children_view(self.children@),
                entries == self@.children,
                lookup(entries.take(index as int), path@).is_none(),
            decreases self.children.len() - index,
        {
            proof {
                lemma_lookup_take_step(entries, index as int, path@);
            }
            if self.children[index].0.same(path) {
                proof {
                    lemma_lookup_prefix(entries, index as int + 1, path@);
                }
                return Some(&self.children[index].1);
            }
            index = index + 1;
        }
        assert(entries.take(index as int) =~= entries);
        None
    }

    /// Returns what the snapshot reports for an expected region instance.
    pub fn fragment(&self, path: &FragmentPathV1) -> (fragment: Option<&BoundFragmentV1>)
        ensures
            match fragment {
                Some(fragment) => lookup(self@.fragments, path@) == Some(fragment@),
                None => lookup(self@.fragments, path@) is None,
            },
    {
        let ghost entries = bound_fragments_view(self.fragments@);
        let mut index: usize = 0;
        while index < self.fragments.len()
            invariant
                index <= self.fragments.len(),
                entries == bound_fragments_view(self.fragments@),
                entries == self@.fragments,
                lookup(entries.take(index as int), path@).is_none(),
            decreases self.fragments.len() - index,
        {
            proof {
                lemma_lookup_take_step(entries, index as int, path@);
            }
            if self.fragments[index].0.same(path) {
                proof {
                    lemma_lookup_prefix(entries, index as int + 1, path@);
                }
                return Some(&self.fragments[index].1);
            }
            index = index + 1;
        }
        assert(entries.take(index as int) =~= entries);
        None
    }

    /// Returns the totals the snapshot reports.
    pub fn reported_counts(&self) -> (reported: ReportedCountsV1)
        ensures
            reported == self@.reported,
    {
        self.reported_counts
    }

    /// Consumes the binding, keeping the handles by path.
    pub fn into_identities(self) -> (identities: IdentityIndexV1)
        ensures
            identities@ == self@.identities,
    {
        self.identities
    }
}

/// Records a node's flat children unless some are recorded for its path.
fn insert_children(
    entries: &mut Vec<(NodePathV1, Vec<NodeId>)>,
    path: &NodePathV1,
    children: Vec<NodeId>,
) -> (inserted: bool)
    ensures
        inserted == lookup(children_view(old(entries)@), path@) is None,
        inserted ==> children_view(final(entries)@) == children_view(old(entries)@).push(
            (path@, children@),
        ),
{
    let ghost view = children_view(entries@);
    let mut index: usize = 0;
    while index < entries.len()
        invariant
            index <= entries.len(),
            view == children_view(entries@),
            view == children_view(old(entries)@),
            lookup(view.take(index as int), path@).is_none(),
        decreases entries.len() - index,
    {
        proof {
            lemma_lookup_take_step(view, index as int, path@);
        }
        if entries[index].0.same(path) {
            proof {
                lemma_lookup_prefix(view, index as int + 1, path@);
            }
            return false;
        }
        index = index + 1;
    }
    assert(view.take(index as int) =~= view);
    let entry = (path.clone(), children);
    proof {
        assert(children_view(entries@.push(entry)) =~= view.push((path@, entry.1@)));
    }
    entries.push(entry);
    true
}

/// Records a region instance's report unless one is recorded for its path.
fn insert_bound_fragment(
    entries: &mut Vec<(FragmentPathV1, BoundFragmentV1)>,
    path: &FragmentPathV1,
    bound: BoundFragmentV1,
) -> (inserted: bool)
    ensures
        inserted == lookup(bound_fragments_view(old(entries)@), path@) is None,
        inserted ==> bound_fragments_view(final(entries)@) == bound_fragments_view(
            old(entries)@,
        ).push((path@, bound@)),
{
    let ghost view = bound_fragments_view(entries@);
    let mut index: usize = 0;
    while index < entries.len()
        invariant
            index <= entries.len(),
            view == bound_fragments_view(entries@),
            view == bound_fragments_view(old(entries)@),
            lookup(view.take(index as int), path@).is_none(),
        decreases entries.len() - index,
    {
        proof {
            lemma_lookup_take_step(view, index as int, path@);
        }
        if entries[index].0.same(path) {
            proof {
                lemma_lookup_prefix(view, index as int + 1, path@);
            }
            return false;
        }
        index = index + 1;
    }
    assert(view.take(index as int) =~= view);
    let entry = (path.clone(), bound);
    proof {
        assert(bound_fragments_view(entries@.push(entry)) =~= view.push((path@, entry.1@)));
    }
    entries.push(entry);
    true
}

/// Reads a node's flat children, refusing more than `remaining`.
fn read_children(view: &SnapshotModelV1, node: NodeId, remaining: usize) -> (result: Result<
    Vec<NodeId>,
    HarnessError,
>)
    ensures
        match result {
            Ok(children) => view_children(*view, node) == Some(children@) && children.len()
                <= remaining,
            Err(error) => match view_children(*view, node) {
                None => error.is_unlocated(HarnessErrorKind::StateMismatch),
                Some(children) => children.len() > remaining && error.is_unlocated(
                    HarnessErrorKind::LimitExceeded(HarnessLimitKind::NormalizedNodes),
                ),
            },
        },
{
    let count = match view.child_count(node) {
        Some(count) => count,
        None => return Err(HarnessError::new(HarnessErrorKind::StateMismatch)),
    };
    if count > remaining {
        return Err(HarnessError::limit(HarnessLimitKind::NormalizedNodes));
    }
    let ghost all = view_children(*view, node)->Some_0;
    let mut children: Vec<NodeId> = Vec::new();
    let mut index: usize = 0;
    while index < count
        invariant
            index <= count,
            view_children(*view, node) is Some,
            all == view_children(*view, node)->Some_0,
            count == all.len(),
            children@ == all.take(index as int),
        decreases count - index,
    {
        match view.child_at(node, index) {
            Some(child) => children.push(child),
            None => {
                assert(false);
                return Err(HarnessError::new(HarnessErrorKind::StateMismatch));
            },
        }
        assert(children@ =~= all.take(index as int + 1));
        index = index + 1;
    }
    assert(all.take(index as int) =~= all);
    Ok(children)
}

/// Reads a region instance's members, refusing more than `remaining`.
fn read_keyed_members(view: &SnapshotModelV1, fragment: FragmentId, remaining: usize) -> (result:
    Result<Vec<(u64, NodeId)>, HarnessError>)
    ensures
        match result {
            Ok(members) => view_members(*view, fragment) == Some(members@) && members.len()
                <= remaining,
            Err(error) => match view_members(*view, fragment) {
                None => error.is_unlocated(HarnessErrorKind::StateMismatch),
                Some(members) => members.len() > remaining && error.is_unlocated(
                    HarnessErrorKind::LimitExceeded(HarnessLimitKind::LiveMemberships),
                ),
            },
        },
{
    let count = match view.keyed_count(fragment) {
        Some(count) => count,
        None => return Err(HarnessError::new(HarnessErrorKind::StateMismatch)),
    };
    if count > remaining {
        return Err(HarnessError::limit(HarnessLimitKind::LiveMemberships));
    }
    let ghost all = view_members(*view, fragment)->Some_0;
    let mut members: Vec<(u64, NodeId)> = Vec::new();
    let mut index: usize = 0;
    while index < count
        invariant
            index <= count,
            view_members(*view, fragment) is Some,
            all == view_members(*view, fragment)->Some_0,
            count == all.len(),
            members@ == all.take(index as int),
        decreases count - index,
    {
        match view.keyed_at(fragment, index) {
            Some(member) => members.push(member),
            None => {
                assert(false);
                return Err(HarnessError::new(HarnessErrorKind::StateMismatch));
            },
        }
        assert(members@ =~= all.take(index as int + 1));
        index = index + 1;
    }
    assert(all.take(index as int) =~= all);
    Ok(members)
}

/// The member with a key, when exactly one member has it.
fn unique_member(observed: &Vec<(u64, NodeId)>, key: u64) -> (node: Option<NodeId>)
    ensures
        node == unique_match(observed@, key),
{
    let mut found: Option<NodeId> = None;
    let mut duplicate = false;
    let mut index: usize = 0;
    assert(observed@.take(0) =~= Seq::<(u64, NodeId)>::empty());
    while index < observed.len()
        invariant
            index <= observed.len(),
            key_matches(observed@.take(index as int), key).len() == 0 <==> found is None,
            key_matches(observed@.take(index as int), key).len() > 0 ==> found == Some(
                key_matches(observed@.take(index as int), key)[0],
            ),
            duplicate <==> key_matches(observed@.take(index as int), key).len() >= 2,
        decreases observed.len() - index,
    {
        assert(observed@.take(index as int + 1).drop_last() =~= observed@.take(index as int));
        if observed[index].0 == key {
            if found.is_some() {
                duplicate = true;
            } else {
                found = Some(observed[index].1);
            }
        }
        index = index + 1;
    }
    assert(observed@.take(index as int) =~= observed@);
    if duplicate {
        None
    } else {
        found
    }
}

proof fn lemma_bind_members_failure_persists(
    members: Seq<(u64, Seq<PathSegmentV1>)>,
    observed: Seq<(u64, NodeId)>,
    limits: HarnessLimitsV1,
    nodes: Seq<NodeEntry>,
    count: int,
)
    requires
        0 <= count <= members.len(),
        bind_members(members.take(count), observed, limits, nodes) is Err,
    ensures
        bind_members(members, observed, limits, nodes) == bind_members(
            members.take(count),
            observed,
            limits,
            nodes,
        ),
    decreases members.len(),
{
    if count < members.len() {
        assert(members.drop_last().take(count) =~= members.take(count));
        lemma_bind_members_failure_persists(members.drop_last(), observed, limits, nodes, count);
    } else {
        assert(members.take(count) =~= members);
    }
}

/// Binds each expected member whose key the snapshot gives exactly one member.
fn bind_member_paths(
    bound: &mut IdentityIndexV1,
    expected: &Vec<(u64, NodePathV1)>,
    observed: &Vec<(u64, NodeId)>,
    limits: HarnessLimitsV1,
) -> (result: Result<(), HarnessError>)
    ensures
        final(bound)@.fragments == old(bound)@.fragments,
        match result {
            Ok(()) => bind_members(members_view(expected@), observed@, limits, old(bound)@.nodes)
                == Ok::<_, HarnessErrorKind>(final(bound)@.nodes),
            Err(error) => {
                &&& bind_members(members_view(expected@), observed@, limits, old(bound)@.nodes)
                    == Err::<Seq<NodeEntry>, _>(error.spec_kind())
                &&& error.is_unlocated(error.spec_kind())
            },
        },
{
    let ghost wanted = members_view(expected@);
    let ghost initial = bound@.nodes;
    let mut index: usize = 0;
    assert(wanted.take(0) =~= Seq::<(u64, Seq<PathSegmentV1>)>::empty());
    while index < expected.len()
        invariant
            index <= expected.len(),
            wanted == members_view(expected@),
            wanted.len() == expected.len(),
            initial == old(bound)@.nodes,
            bound@.fragments == old(bound)@.fragments,
            bind_members(wanted.take(index as int), observed@, limits, initial) == Ok::<
                _,
                HarnessErrorKind,
            >(bound@.nodes),
        decreases expected.len() - index,
    {
        assert(wanted.take(index as int + 1).drop_last() =~= wanted.take(index as int));
        if expected[index].1.depth() > limits.path_depth {
            proof {
                lemma_bind_members_failure_persists(wanted, observed@, limits, initial, index as int + 1);
            }
            return Err(HarnessError::limit(HarnessLimitKind::PathDepth));
        }
        if let Some(node) = unique_member(observed, expected[index].0) {
            if !bound.record_node(expected[index].1.clone(), node) {
                proof {
                    lemma_bind_members_failure_persists(
                        wanted,
                        observed@,
                        limits,
                        initial,
                        index as int + 1,
                    );
                }
                return Err(HarnessError::new(HarnessErrorKind::StateMismatch));
            }
        }
        index = index + 1;
    }
    assert(wanted.take(index as int) =~= wanted);
    Ok(())
}

/// The executable state of a binding.
struct BindProgress {
    bound: IdentityIndexV1,
    children: Vec<(NodePathV1, Vec<NodeId>)>,
    fragments: Vec<(FragmentPathV1, BoundFragmentV1)>,
    observed_nodes: usize,
    observed_memberships: usize,
}

impl BindProgress {
    spec fn state(&self) -> BindState {
        BindState {
            nodes: self.bound@.nodes,
            handles: self.bound@.fragments,
            children: children_view(self.children@),
            fragments: bound_fragments_view(self.fragments@),
            observed_nodes: self.observed_nodes as int,
            observed_memberships: self.observed_memberships as int,
        }
    }
}

/// An optional flat position as an integer.
pub open spec fn offset_view(offset: Option<usize>) -> Option<int> {
    match offset {
        Some(offset) => Some(offset as int),
        None => None,
    }
}

/// Binds one child group of a bound node.
fn bind_group_step(
    progress: &mut BindProgress,
    group: &NormalizedChildGroupV1,
    expected: &NormalizedStateV1,
    view: &SnapshotModelV1,
    limits: HarnessLimitsV1,
    owner: NodeId,
    children: &Vec<NodeId>,
    offset: Option<usize>,
) -> (result: Result<Option<usize>, HarnessError>)
    ensures
        match result {
            Ok(next) => bind_group(
                group@,
                expected@,
                *view,
                limits,
                owner,
                children@,
                old(progress).state(),
                offset_view(offset),
            ) == Ok::<_, HarnessErrorKind>((final(progress).state(), offset_view(next))),
            Err(error) => {
                &&& bind_group(
                    group@,
                    expected@,
                    *view,
                    limits,
                    owner,
                    children@,
                    old(progress).state(),
                    offset_view(offset),
                ) == Err::<(BindState, Option<int>), _>(error.spec_kind())
                &&& error.is_unlocated(error.spec_kind())
            },
        },
{
    match group {
        NormalizedChildGroupV1::Static(path) => {
            if path.depth() > limits.path_depth {
                return Err(HarnessError::limit(HarnessLimitKind::PathDepth));
            }
            match offset {
                None => Ok(None),
                Some(position) => {
                    if position < children.len() {
                        if !progress.bound.record_node(path.clone(), children[position]) {
                            return Err(HarnessError::new(HarnessErrorKind::StateMismatch));
                        }
                    }
                    if position == usize::MAX {
                        return Err(HarnessError::new(HarnessErrorKind::ArithmeticExhausted));
                    }
                    Ok(Some(position + 1))
                },
            }
        },
        NormalizedChildGroupV1::Region(path) => {
            let fragment = match expected.fragment(path) {
                Some(fragment) => fragment,
                None => return Err(HarnessError::new(HarnessErrorKind::StateMismatch)),
            };
            let handle = match view.fragment(owner, fragment.descriptor) {
                Some(handle) => handle,
                None => {
                    if !insert_bound_fragment(
                        &mut progress.fragments,
                        path,
                        BoundFragmentV1::Absent,
                    ) {
                        return Err(HarnessError::new(HarnessErrorKind::StateMismatch));
                    }
                    return Ok(None);
                },
            };
            if !progress.bound.record_fragment(path.clone(), handle) {
                return Err(HarnessError::new(HarnessErrorKind::StateMismatch));
            }
            if progress.observed_memberships > limits.live_memberships {
                return Err(HarnessError::new(HarnessErrorKind::ArithmeticExhausted));
            }
            let remaining = limits.live_memberships - progress.observed_memberships;
            let members = match read_keyed_members(view, handle, remaining) {
                Ok(members) => members,
                Err(error) => return Err(error),
            };
            if members.len() > usize::MAX - progress.observed_memberships {
                return Err(HarnessError::new(HarnessErrorKind::ArithmeticExhausted));
            }
            progress.observed_memberships = progress.observed_memberships + members.len();
            if let Err(error) = bind_member_paths(
                &mut progress.bound,
                &fragment.members,
                &members,
                limits,
            ) {
                return Err(error);
            }
            let next = match offset {
                Some(position) => {
                    if members.len() > usize::MAX - position {
                        return Err(HarnessError::new(HarnessErrorKind::ArithmeticExhausted));
                    }
                    Some(position + members.len())
                },
                None => None,
            };
            if !insert_bound_fragment(&mut progress.fragments, path, BoundFragmentV1::Present(members)) {
                return Err(HarnessError::new(HarnessErrorKind::StateMismatch));
            }
            Ok(next)
        },
    }
}

proof fn lemma_bind_groups_failure_persists(
    groups: Seq<ChildGroupView>,
    expected: StateView,
    snapshot: SnapshotModelV1,
    limits: HarnessLimitsV1,
    owner: NodeId,
    children: Seq<NodeId>,
    state: BindState,
    offset: Option<int>,
    count: int,
)
    requires
        0 <= count <= groups.len(),
        bind_groups(groups.take(count), expected, snapshot, limits, owner, children, state, offset)
            is Err,
    ensures
        bind_groups(groups, expected, snapshot, limits, owner, children, state, offset)
            == bind_groups(
            groups.take(count),
            expected,
            snapshot,
            limits,
            owner,
            children,
            state,
            offset,
        ),
    decreases groups.len(),
{
    if count < groups.len() {
        assert(groups.drop_last().take(count) =~= groups.take(count));
        lemma_bind_groups_failure_persists(
            groups.drop_last(),
            expected,
            snapshot,
            limits,
            owner,
            children,
            state,
            offset,
            count,
        );
    } else {
        assert(groups.take(count) =~= groups);
    }
}

/// Binds one expected node.
fn bind_node_step(
    progress: &mut BindProgress,
    node: &NormalizedNodeV1,
    expected: &NormalizedStateV1,
    view: &SnapshotModelV1,
    limits: HarnessLimitsV1,
) -> (result: Result<(), HarnessError>)
    ensures
        match result {
            Ok(()) => bind_node(node@, expected@, *view, limits, old(progress).state()) == Ok::<
                _,
                HarnessErrorKind,
            >(final(progress).state()),
            Err(error) => {
                &&& bind_node(node@, expected@, *view, limits, old(progress).state()) == Err::<
                    BindState,
                    _,
                >(error.spec_kind())
                &&& error.is_unlocated(error.spec_kind())
            },
        },
{
    let ghost initial = progress.state();
    let owner = match progress.bound.node(&node.path) {
        Some(owner) => owner,
        None => return Ok(()),
    };
    if progress.observed_nodes > limits.normalized_nodes {
        return Err(HarnessError::new(HarnessErrorKind::ArithmeticExhausted));
    }
    let remaining = limits.normalized_nodes - progress.observed_nodes;
    let children = match read_children(view, owner, remaining) {
        Ok(children) => children,
        Err(error) => return Err(error),
    };
    if children.len() > usize::MAX - progress.observed_nodes {
        return Err(HarnessError::new(HarnessErrorKind::ArithmeticExhausted));
    }
    progress.observed_nodes = progress.observed_nodes + children.len();
    let ghost groups = groups_view(node.child_groups@);
    let ghost start = progress.state();
    let mut offset: Option<usize> = Some(0);
    let mut index: usize = 0;
    assert(groups.take(0) =~= Seq::<ChildGroupView>::empty());
    while index < node.child_groups.len()
        invariant
            index <= node.child_groups.len(),
            groups == groups_view(node.child_groups@),
            groups.len() == node.child_groups.len(),
            initial == old(progress).state(),
            lookup(initial.nodes, node@.path) == Some(owner),
            initial.observed_nodes <= limits.normalized_nodes,
            view_children(*view, owner) == Some(children@),
            children.len() <= limits.normalized_nodes - initial.observed_nodes,
            initial.observed_nodes + children.len() <= usize::MAX,
            start == (BindState { observed_nodes: initial.observed_nodes + children.len(), ..initial }),
            bind_groups(
                groups.take(index as int),
                expected@,
                *view,
                limits,
                owner,
                children@,
                start,
                Some(0int),
            ) == Ok::<_, HarnessErrorKind>((progress.state(), offset_view(offset))),
        decreases node.child_groups.len() - index,
    {
        assert(groups.take(index as int + 1).drop_last() =~= groups.take(index as int));
        match bind_group_step(
            progress,
            &node.child_groups[index],
            expected,
            view,
            limits,
            owner,
            &children,
            offset,
        ) {
            Ok(next) => {
                offset = next;
            },
            Err(error) => {
                proof {
                    lemma_bind_groups_failure_persists(
                        groups,
                        expected@,
                        *view,
                        limits,
                        owner,
                        children@,
                        start,
                        Some(0int),
                        index as int + 1,
                    );
                }
                return Err(error);
            },
        }
        index = index + 1;
    }
    assert(groups.take(index as int) =~= groups);
    if !insert_children(&mut progress.children, &node.path, children) {
        return Err(HarnessError::new(HarnessErrorKind::StateMismatch));
    }
    Ok(())
}

proof fn lemma_bind_nodes_failure_persists(
    nodes: Seq<NodeView>,
    expected: StateView,
    snapshot: SnapshotModelV1,
    limits: HarnessLimitsV1,
    state: BindState,
    count: int,
)
    requires
        0 <= count <= nodes.len(),
        bind_nodes(nodes.take(count), expected, snapshot, limits, state) is Err,
    ensures
        bind_nodes(nodes, expected, snapshot, limits, state) == bind_nodes(
            nodes.take(count),
            expected,
            snapshot,
            limits,
            state,
        ),
    decreases nodes.len(),
{
    if count < nodes.len() {
        assert(nodes.drop_last().take(count) =~= nodes.take(count));
        lemma_bind_nodes_failure_persists(nodes.drop_last(), expected, snapshot, limits, state, count);
    } else {
        assert(nodes.take(count) =~= nodes);
    }
}

proof fn lemma_node_identities_failure_persists(
    nodes: Seq<NodeView>,
    bound: Seq<NodeEntry>,
    count: int,
)
    requires
        0 <= count <= nodes.len(),
        bound_node_identities(nodes.take(count), bound) is Err,
    ensures
        bound_node_identities(nodes, bound) == bound_node_identities(nodes.take(count), bound),
    decreases nodes.len(),
{
    if count < nodes.len() {
        assert(nodes.drop_last().take(count) =~= nodes.take(count));
        lemma_node_identities_failure_persists(nodes.drop_last(), bound, count);
    } else {
        assert(nodes.take(count) =~= nodes);
    }
}

proof fn lemma_fragment_identities_failure_persists(
    fragments: Seq<FragmentView>,
    bound: Seq<FragmentEntry>,
    count: int,
)
    requires
        0 <= count <= fragments.len(),
        bound_fragment_identities(fragments.take(count), bound) is Err,
    ensures
        bound_fragment_identities(fragments, bound) == bound_fragment_identities(
            fragments.take(count),
            bound,
        ),
    decreases fragments.len(),
{
    if count < fragments.len() {
        assert(fragments.drop_last().take(count) =~= fragments.take(count));
        lemma_fragment_identities_failure_persists(fragments.drop_last(), bound, count);
    } else {
        assert(fragments.take(count) =~= fragments);
    }
}

/// Indexes the bound handles of expected nodes, then of expected fragments,
/// in authored order.
fn build_identity_index(expected: &NormalizedStateV1, bound: &IdentityIndexV1) -> (result: Result<
    IdentityIndexV1,
    HarnessError,
>)
    ensures
        match result {
            Ok(identities) => {
                &&& bound_node_identities(expected@.nodes, bound@.nodes) == Ok::<
                    _,
                    HarnessErrorKind,
                >(identities@.nodes)
                &&& bound_fragment_identities(expected@.fragments, bound@.fragments) == Ok::<
                    _,
                    HarnessErrorKind,
                >(identities@.fragments)
            },
            Err(error) => {
                &&& error.is_unlocated(HarnessErrorKind::StateMismatch)
                &&& (bound_node_identities(expected@.nodes, bound@.nodes) is Err || (
                bound_node_identities(expected@.nodes, bound@.nodes) is Ok
                    && bound_fragment_identities(expected@.fragments, bound@.fragments) is Err))
                &&& bound_node_identities(expected@.nodes, bound@.nodes) is Err
                    ==> bound_node_identities(expected@.nodes, bound@.nodes) == Err::<
                    Seq<NodeEntry>,
                    _,
                >(HarnessErrorKind::StateMismatch)
                &&& bound_node_identities(expected@.nodes, bound@.nodes) is Ok
                    ==> bound_fragment_identities(expected@.fragments, bound@.fragments) == Err::<
                    Seq<FragmentEntry>,
                    _,
                >(HarnessErrorKind::StateMismatch)
            },
        },
{
    let ghost nodes = expected@.nodes;
    let ghost fragments = expected@.fragments;
    let mut identities = IdentityIndexV1::new();
    let mut index: usize = 0;
    assert(nodes.take(0) =~= Seq::<NodeView>::empty());
    assert(identities@.nodes =~= Seq::<NodeEntry>::empty());
    while index < expected.nodes.len()
        invariant
            index <= expected.nodes.len(),
            nodes == expected@.nodes,
            nodes.len() == expected.nodes.len(),
            identities@.fragments.len() == 0,
            bound_node_identities(nodes.take(index as int), bound@.nodes) == Ok::<
                _,
                HarnessErrorKind,
            >(identities@.nodes),
        decreases expected.nodes.len() - index,
    {
        assert(nodes.take(index as int + 1).drop_last() =~= nodes.take(index as int));
        assert(nodes[index as int].path == expected.nodes@[index as int].path@);
        if let Some(node) = bound.node(&expected.nodes[index].path) {
            if !identities.record_node(expected.nodes[index].path.clone(), node) {
                proof {
                    lemma_node_identities_failure_persists(nodes, bound@.nodes, index as int + 1);
                }
                return Err(HarnessError::new(HarnessErrorKind::StateMismatch));
            }
        }
        index = index + 1;
    }
    assert(nodes.take(index as int) =~= nodes);
    let mut index: usize = 0;
    assert(fragments.take(0) =~= Seq::<FragmentView>::empty());
    assert(identities@.fragments =~= Seq::<FragmentEntry>::empty());
    while index < expected.fragments.len()
        invariant
            index <= expected.fragments.len(),
            fragments == expected@.fragments,
            fragments.len() == expected.fragments.len(),
            bound_node_identities(expected@.nodes, bound@.nodes) == Ok::<_, HarnessErrorKind>(
                identities@.nodes,
            ),
            bound_fragment_identities(fragments.take(index as int), bound@.fragments) == Ok::<
                _,
                HarnessErrorKind,
            >(identities@.fragments),
        decreases expected.fragments.len() - index,
    {
        assert(fragments.take(index as int + 1).drop_last() =~= fragments.take(index as int));
        assert(fragments[index as int].path == expected.fragments@[index as int].path@);
        if let Some(fragment) = bound.fragment(&expected.fragments[index].path) {
            if !identities.record_fragment(expected.fragments[index].path.clone(), fragment) {
                proof {
                    lemma_fragment_identities_failure_persists(
                        fragments,
                        bound@.fragments,
                        index as int + 1,
                    );
                }
                return Err(HarnessError::new(HarnessErrorKind::StateMismatch));
            }
        }
        index = index + 1;
    }
    assert(fragments.take(index as int) =~= fragments);
    Ok(identities)
}

/// Binds the expected state's semantic paths to the handles a snapshot
/// reports: after the preflight, every expected node reachable through bound
/// handles has its flat children read and its groups bound.
pub fn bind_expected_paths_v1(
    expected: &NormalizedStateV1,
    view: &SnapshotModelV1,
    limits: HarnessLimitsV1,
) -> (result: Result<BoundSnapshotV1, HarnessError>)
    ensures
        match result {
            Ok(bound) => bind(expected@, *view, limits) == Ok::<_, HarnessErrorKind>(bound@),
            Err(error) => {
                &&& bind(expected@, *view, limits) == Err::<BoundView, _>(error.spec_kind())
                &&& error.is_unlocated(error.spec_kind())
            },
        },
{
    let reported_counts = match preflight_snapshot_v1(expected, view, limits) {
        Ok(reported) => reported,
        Err(error) => return Err(error),
    };
    let root = NodePathV1::root();
    if expected.node(&root).is_none() {
        return Err(HarnessError::new(HarnessErrorKind::StateMismatch));
    }
    let mut bound = IdentityIndexV1::new();
    bound.record_node(root, view.root);
    let mut progress = BindProgress {
        bound,
        children: Vec::new(),
        fragments: Vec::new(),
        observed_nodes: 1,
        observed_memberships: 0,
    };
    let ghost start = progress.state();
    proof {
        assert(start.nodes =~= seq![(Seq::<PathSegmentV1>::empty(), view.root)]);
        assert(start.handles =~= Seq::<FragmentEntry>::empty());
        assert(start.children =~= Seq::<(Seq<PathSegmentV1>, Seq<NodeId>)>::empty());
        assert(start.fragments =~= Seq::<((Seq<PathSegmentV1>, u16), BoundFragmentView)>::empty());
        assert(start == bind_start(*view));
    }
    let ghost nodes = expected@.nodes;
    let mut index: usize = 0;
    assert(nodes.take(0) =~= Seq::<NodeView>::empty());
    while index < expected.nodes.len()
        invariant
            index <= expected.nodes.len(),
            nodes == expected@.nodes,
            nodes.len() == expected.nodes.len(),
            start == bind_start(*view),
            preflight(expected@, *view, limits) == Ok::<_, HarnessErrorKind>(reported_counts),
            state_node(expected@, Seq::<PathSegmentV1>::empty()) is Some,
            bind_nodes(nodes.take(index as int), expected@, *view, limits, start) == Ok::<
                _,
                HarnessErrorKind,
            >(progress.state()),
        decreases expected.nodes.len() - index,
    {
        assert(nodes.take(index as int + 1).drop_last() =~= nodes.take(index as int));
        if let Err(error) = bind_node_step(&mut progress, &expected.nodes[index], expected, view, limits) {
            proof {
                lemma_bind_nodes_failure_persists(
                    nodes,
                    expected@,
                    *view,
                    limits,
                    start,
                    index as int + 1,
                );
            }
            return Err(error);
        }
        index = index + 1;
    }
    assert(nodes.take(index as int) =~= nodes);
    let identities = match build_identity_index(expected, &progress.bound) {
        Ok(identities) => identities,
        Err(error) => return Err(error),
    };
    Ok(
        BoundSnapshotV1 {
            identities,
            children: progress.children,
            fragments: progress.fragments,
            reported_counts,
        },
    )
}

} // verus!
