//! Diagnosis of an observation against the expected state: the first field
//! in a closed order in which the snapshot differs, as a privacy-safe
//! fingerprint, or the bound handles when nothing differs.

use vstd::prelude::*;

use crate::case::{PropertyId, PropertyValue};
use crate::error::{HarnessError, HarnessErrorKind};
use crate::fingerprint::{
    paths_view, FailureFingerprintKindV1, FailureFingerprintV1, FingerprintFieldV1,
    FingerprintLocationV1, FingerprintLocationView, FingerprintSummaryV1, FingerprintView,
    SummaryView,
};
use crate::fixture::HarnessLimitsV1;
use crate::identity::{lookup, IdentityIndexV1, IdentityIndexView, NodeEntry, NodeId};
use crate::model::{
    groups_view, members_view, nodes_view, property_slot_total, state_fragment, ChildGroupView, ConstructionModelV1, FragmentView, NodeView,
    NormalizedChildGroupV1, NormalizedNodeV1, NormalizedStateV1, StateView,
};
use crate::observe::preflight::preflight;
use crate::observe::bind::{bind, bind_expected_paths_v1, BoundFragmentV1, BoundFragmentView, BoundSnapshotV1, BoundView, ReportedCountsV1};
use crate::observe::partial::ObservedSnapshotV1;
use crate::observe::view::{
    view_component, view_parent, view_property, view_template, SnapshotModelV1,
};
use crate::semantic::{NodePathV1, PathSegmentV1};

verus! {

/// A logical state mismatch fingerprint.
pub open spec fn mismatch(
    location: FingerprintLocationView,
    field: FingerprintFieldV1,
    expected: SummaryView,
    observed: SummaryView,
) -> FingerprintView {
    FingerprintView {
        kind: FailureFingerprintKindV1::StateMismatch,
        location,
        field,
        expected,
        observed,
        rejection: None,
    }
}

/// The paths bound to a handle, in authored order.
pub open spec fn handle_paths(entries: Seq<NodeEntry>, node: NodeId) -> Seq<Seq<PathSegmentV1>>
    decreases entries.len(),
{
    if entries.len() == 0 {
        Seq::empty()
    } else {
        let earlier = handle_paths(entries.drop_last(), node);
        if entries.last().1 == node {
            earlier.push(entries.last().0)
        } else {
            earlier
        }
    }
}

/// The path bound to a handle, when exactly one path is.
pub open spec fn unique_path(entries: Seq<NodeEntry>, node: NodeId) -> Option<Seq<PathSegmentV1>> {
    let paths = handle_paths(entries, node);
    if paths.len() == 1 {
        Some(paths[0])
    } else {
        None
    }
}

/// The first property of a node whose value the snapshot does not give.
pub open spec fn property_mismatch(
    properties: Seq<(PropertyId, PropertyValue)>,
    snapshot: SnapshotModelV1,
    node: NodeId,
    path: Seq<PathSegmentV1>,
) -> Option<FingerprintView>
    decreases properties.len(),
{
    if properties.len() == 0 {
        None
    } else {
        match property_mismatch(properties.drop_last(), snapshot, node, path) {
            Some(found) => Some(found),
            None => {
                let (property, value) = properties.last();
                match view_property(snapshot, node, property) {
                    Some(observed) => if observed == value {
                        None
                    } else {
                        Some(
                            mismatch(
                                FingerprintLocationView::Node(path),
                                FingerprintFieldV1::Property,
                                SummaryView::Property(property, value),
                                SummaryView::Property(property, observed),
                            ),
                        )
                    },
                    None => Some(
                        mismatch(
                            FingerprintLocationView::Node(path),
                            FingerprintFieldV1::Property,
                            SummaryView::Property(property, value),
                            SummaryView::Absent,
                        ),
                    ),
                }
            },
        }
    }
}

/// The parent difference of a bound node, if any.
pub open spec fn parent_mismatch(
    expected: NodeView,
    node: NodeId,
    snapshot: SnapshotModelV1,
    identities: IdentityIndexView,
) -> Result<Option<FingerprintView>, HarnessErrorKind> {
    let expected_parent = match expected.parent {
        Some(parent) => match lookup(identities.nodes, parent) {
            Some(handle) => Ok(Some(handle)),
            None => Err(HarnessErrorKind::StateMismatch),
        },
        None => Ok(None),
    };
    match expected_parent {
        Err(kind) => Err(kind),
        Ok(expected_handle) => if view_parent(snapshot, node) == expected_handle {
            Ok(None)
        } else {
            let expected_summary = match expected.parent {
                Some(parent) => SummaryView::Node(parent),
                None => SummaryView::Absent,
            };
            match view_parent(snapshot, node) {
                None => Ok(
                    Some(
                        mismatch(
                            FingerprintLocationView::Node(expected.path),
                            FingerprintFieldV1::Parent,
                            expected_summary,
                            SummaryView::Absent,
                        ),
                    ),
                ),
                Some(observed) => match unique_path(identities.nodes, observed) {
                    None => Err(HarnessErrorKind::StateMismatch),
                    Some(path) => Ok(
                        Some(
                            mismatch(
                                FingerprintLocationView::Node(expected.path),
                                FingerprintFieldV1::Parent,
                                expected_summary,
                                SummaryView::Node(path),
                            ),
                        ),
                    ),
                },
            }
        },
    }
}

/// The first field of one expected node in which the snapshot differs:
/// binding, template, component, properties in order, then parent.
pub open spec fn node_field_mismatch(
    expected: NodeView,
    snapshot: SnapshotModelV1,
    identities: IdentityIndexView,
) -> Result<Option<FingerprintView>, HarnessErrorKind> {
    let location = FingerprintLocationView::Node(expected.path);
    match lookup(identities.nodes, expected.path) {
        None => Ok(
            Some(
                mismatch(
                    location,
                    FingerprintFieldV1::Template,
                    SummaryView::Template(expected.template),
                    SummaryView::Absent,
                ),
            ),
        ),
        Some(node) => if view_template(snapshot, node) != Some(expected.template) {
            Ok(
                Some(
                    mismatch(
                        location,
                        FingerprintFieldV1::Template,
                        SummaryView::Template(expected.template),
                        match view_template(snapshot, node) {
                            Some(template) => SummaryView::Template(template),
                            None => SummaryView::Absent,
                        },
                    ),
                ),
            )
        } else if view_component(snapshot, node) != Some(expected.component) {
            Ok(
                Some(
                    mismatch(
                        location,
                        FingerprintFieldV1::Component,
                        SummaryView::Component(expected.component),
                        match view_component(snapshot, node) {
                            Some(component) => SummaryView::Component(component),
                            None => SummaryView::Absent,
                        },
                    ),
                ),
            )
        } else {
            match property_mismatch(expected.properties, snapshot, node, expected.path) {
                Some(found) => Ok(Some(found)),
                None => parent_mismatch(expected, node, snapshot, identities),
            }
        },
    }
}

/// The first expected node, in authored order, with a field difference.
pub open spec fn node_fields_mismatch(
    nodes: Seq<NodeView>,
    snapshot: SnapshotModelV1,
    identities: IdentityIndexView,
) -> Result<Option<FingerprintView>, HarnessErrorKind>
    decreases nodes.len(),
{
    if nodes.len() == 0 {
        Ok(None)
    } else {
        match node_fields_mismatch(nodes.drop_last(), snapshot, identities) {
            Err(kind) => Err(kind),
            Ok(Some(found)) => Ok(Some(found)),
            Ok(None) => node_field_mismatch(nodes.last(), snapshot, identities),
        }
    }
}

/// The keys of members, in order.
pub open spec fn expected_keys(members: Seq<(u64, Seq<PathSegmentV1>)>) -> Seq<u64> {
    members.map_values(|member: (u64, Seq<PathSegmentV1>)| member.0)
}

/// The keys of reported members, in order.
pub open spec fn reported_keys(members: Seq<(u64, NodeId)>) -> Seq<u64> {
    members.map_values(|member: (u64, NodeId)| member.0)
}

/// The difference of one expected region instance: its binding, then its keys.
pub open spec fn fragment_mismatch(fragment: FragmentView, bound: BoundView) -> Result<
    Option<FingerprintView>,
    HarnessErrorKind,
> {
    let location = FingerprintLocationView::Fragment(fragment.path);
    match lookup(bound.fragments, fragment.path) {
        None => Err(HarnessErrorKind::StateMismatch),
        Some(BoundFragmentView::Absent) => Ok(
            Some(
                mismatch(
                    location,
                    FingerprintFieldV1::FragmentBinding,
                    SummaryView::BindingPresent,
                    SummaryView::BindingAbsent,
                ),
            ),
        ),
        Some(BoundFragmentView::Present(members)) => if expected_keys(fragment.members)
            == reported_keys(members) {
            Ok(None)
        } else {
            Ok(
                Some(
                    mismatch(
                        location,
                        FingerprintFieldV1::KeyedOrder,
                        SummaryView::Keys(expected_keys(fragment.members)),
                        SummaryView::Keys(reported_keys(members)),
                    ),
                ),
            )
        },
    }
}

/// The first expected region instance, in authored order, with a difference.
pub open spec fn fragments_mismatch(fragments: Seq<FragmentView>, bound: BoundView) -> Result<
    Option<FingerprintView>,
    HarnessErrorKind,
>
    decreases fragments.len(),
{
    if fragments.len() == 0 {
        Ok(None)
    } else {
        match fragments_mismatch(fragments.drop_last(), bound) {
            Err(kind) => Err(kind),
            Ok(Some(found)) => Ok(Some(found)),
            Ok(None) => fragment_mismatch(fragments.last(), bound),
        }
    }
}

/// The member paths of members, in order.
pub open spec fn member_paths(members: Seq<(u64, Seq<PathSegmentV1>)>) -> Seq<Seq<PathSegmentV1>> {
    members.map_values(|member: (u64, Seq<PathSegmentV1>)| member.1)
}

/// A node's children as the expected state lists them, flat: static children
/// and the members of each region instance, in slot order.
pub open spec fn flattened_children(groups: Seq<ChildGroupView>, expected: StateView) -> Result<
    Seq<Seq<PathSegmentV1>>,
    HarnessErrorKind,
>
    decreases groups.len(),
{
    if groups.len() == 0 {
        Ok(Seq::empty())
    } else {
        match flattened_children(groups.drop_last(), expected) {
            Err(kind) => Err(kind),
            Ok(children) => match groups.last() {
                ChildGroupView::Static(path) => Ok(children.push(path)),
                ChildGroupView::Region(path) => match state_fragment(expected, path) {
                    None => Err(HarnessErrorKind::StateMismatch),
                    Some(fragment) => Ok(children + member_paths(fragment.members)),
                },
            },
        }
    }
}

/// The paths of reported children: the expected path at the same position
/// when it is bound to the same handle, else the one path bound to the
/// handle.
pub open spec fn observed_child_paths(
    expected: Seq<Seq<PathSegmentV1>>,
    observed: Seq<NodeId>,
    identities: IdentityIndexView,
) -> Result<Seq<Seq<PathSegmentV1>>, HarnessErrorKind>
    decreases observed.len(),
{
    if observed.len() == 0 {
        Ok(Seq::empty())
    } else {
        match observed_child_paths(expected, observed.drop_last(), identities) {
            Err(kind) => Err(kind),
            Ok(paths) => {
                let index = observed.len() - 1;
                let node = observed.last();
                if index < expected.len() && lookup(identities.nodes, expected[index]) == Some(
                    node,
                ) {
                    Ok(paths.push(expected[index]))
                } else {
                    match unique_path(identities.nodes, node) {
                        None => Err(HarnessErrorKind::StateMismatch),
                        Some(path) => Ok(paths.push(path)),
                    }
                }
            },
        }
    }
}

/// The child order difference of one expected node, if any.
pub open spec fn child_order_mismatch(node: NodeView, expected: StateView, bound: BoundView) -> Result<
    Option<FingerprintView>,
    HarnessErrorKind,
> {
    match flattened_children(node.child_groups, expected) {
        Err(kind) => Err(kind),
        Ok(children) => match lookup(bound.children, node.path) {
            None => Err(HarnessErrorKind::StateMismatch),
            Some(reported) => match observed_child_paths(children, reported, bound.identities) {
                Err(kind) => Err(kind),
                Ok(paths) => if children == paths {
                    Ok(None)
                } else {
                    Ok(
                        Some(
                            mismatch(
                                FingerprintLocationView::Node(node.path),
                                FingerprintFieldV1::ChildOrder,
                                SummaryView::Nodes(children),
                                SummaryView::Nodes(paths),
                            ),
                        ),
                    )
                },
            },
        },
    }
}

/// The first expected node, in authored order, whose children differ.
pub open spec fn child_orders_mismatch(nodes: Seq<NodeView>, expected: StateView, bound: BoundView) -> Result<
    Option<FingerprintView>,
    HarnessErrorKind,
>
    decreases nodes.len(),
{
    if nodes.len() == 0 {
        Ok(None)
    } else {
        match child_orders_mismatch(nodes.drop_last(), expected, bound) {
            Err(kind) => Err(kind),
            Ok(Some(found)) => Ok(Some(found)),
            Ok(None) => child_order_mismatch(nodes.last(), expected, bound),
        }
    }
}

/// One total compared as 32-bit counts.
pub open spec fn count_mismatch(field: FingerprintFieldV1, expected: int, reported: int) -> Result<
    Option<FingerprintView>,
    HarnessErrorKind,
> {
    if expected > u32::MAX || reported > u32::MAX {
        Err(HarnessErrorKind::ArithmeticExhausted)
    } else if expected == reported {
        Ok(None)
    } else {
        Ok(
            Some(
                mismatch(
                    FingerprintLocationView::Global,
                    field,
                    SummaryView::Count(expected as u32),
                    SummaryView::Count(reported as u32),
                ),
            ),
        )
    }
}

/// The first total that differs: nodes, fragments, then property slots.
pub open spec fn counts_mismatch(expected: StateView, reported: ReportedCountsV1) -> Result<
    Option<FingerprintView>,
    HarnessErrorKind,
> {
    match count_mismatch(FingerprintFieldV1::NodeCount, expected.nodes.len() as int, reported.nodes as int) {
        Err(kind) => Err(kind),
        Ok(Some(found)) => Ok(Some(found)),
        Ok(None) => match count_mismatch(
            FingerprintFieldV1::FragmentCount,
            expected.fragments.len() as int,
            reported.fragments as int,
        ) {
            Err(kind) => Err(kind),
            Ok(Some(found)) => Ok(Some(found)),
            Ok(None) => count_mismatch(
                FingerprintFieldV1::PropertyCount,
                crate::model::property_slot_total(expected.nodes),
                reported.properties as int,
            ),
        },
    }
}

/// Mathematical form of an observation outcome.
pub enum ObservationView {
    Complete((StateView, IdentityIndexView)),
    Mismatch(FingerprintView),
}

/// Observing a snapshot against the expected state: bind, then report the
/// first difference in node fields, region instances, child order and
/// totals, in that order; with none, the expected state with the bound
/// handles.
pub open spec fn observe_against(
    expected: StateView,
    snapshot: SnapshotModelV1,
    limits: HarnessLimitsV1,
) -> Result<ObservationView, HarnessErrorKind> {
    match bind(expected, snapshot, limits) {
        Err(kind) => Err(kind),
        Ok(bound) => match node_fields_mismatch(expected.nodes, snapshot, bound.identities) {
            Err(kind) => Err(kind),
            Ok(Some(found)) => Ok(ObservationView::Mismatch(found)),
            Ok(None) => match fragments_mismatch(expected.fragments, bound) {
                Err(kind) => Err(kind),
                Ok(Some(found)) => Ok(ObservationView::Mismatch(found)),
                Ok(None) => match child_orders_mismatch(expected.nodes, expected, bound) {
                    Err(kind) => Err(kind),
                    Ok(Some(found)) => Ok(ObservationView::Mismatch(found)),
                    Ok(None) => match counts_mismatch(expected, bound.reported) {
                        Err(kind) => Err(kind),
                        Ok(Some(found)) => Ok(ObservationView::Mismatch(found)),
                        Ok(None) => Ok(ObservationView::Complete((expected, bound.identities))),
                    },
                },
            },
        },
    }
}

/// How an executable diagnosis reports what its specification gives.
pub open spec fn reports(
    result: Result<Option<FailureFingerprintV1>, HarnessError>,
    expected: Result<Option<FingerprintView>, HarnessErrorKind>,
) -> bool {
    match result {
        Ok(Some(fingerprint)) => expected == Ok::<_, HarnessErrorKind>(Some(fingerprint@)),
        Ok(None) => expected == Ok::<Option<FingerprintView>, HarnessErrorKind>(None),
        Err(error) => {
            &&& expected == Err::<Option<FingerprintView>, _>(error.spec_kind())
            &&& error.is_unlocated(error.spec_kind())
        },
    }
}

/// The one path bound to a handle, or a mismatch when none or several are.
fn unique_node_path(identities: &IdentityIndexV1, node: NodeId) -> (result: Result<
    NodePathV1,
    HarnessError,
>)
    ensures
        match result {
            Ok(path) => unique_path(identities@.nodes, node) == Some(path@),
            Err(error) => unique_path(identities@.nodes, node) is None && error.is_unlocated(
                HarnessErrorKind::StateMismatch,
            ),
        },
{
    let entries = identities.nodes_in_authored_order();
    let ghost view = identities@.nodes;
    let mut first: Option<usize> = None;
    let mut many = false;
    let mut index: usize = 0;
    assert(view.take(0) =~= Seq::<NodeEntry>::empty());
    while index < entries.len()
        invariant
            index <= entries.len(),
            entries@.len() == view.len(),
            crate::identity::node_entries(entries@) == view,
            handle_paths(view.take(index as int), node).len() == 0 <==> first is None,
            first is Some ==> first->Some_0 < index && handle_paths(view.take(index as int), node)[0]
                == view[first->Some_0 as int].0,
            many <==> handle_paths(view.take(index as int), node).len() >= 2,
        decreases entries.len() - index,
    {
        assert(view.take(index as int + 1).drop_last() =~= view.take(index as int));
        assert(view[index as int] == (entries@[index as int].0@, entries@[index as int].1));
        if entries[index].1 == node {
            if first.is_some() {
                many = true;
            } else {
                first = Some(index);
            }
        }
        index = index + 1;
    }
    assert(view.take(index as int) =~= view);
    match first {
        Some(position) => if many {
            Err(HarnessError::new(HarnessErrorKind::StateMismatch))
        } else {
            assert(view[position as int] == (entries@[position as int].0@, entries@[
                position as int
            ].1));
            Ok(entries[position].0.clone())
        },
        None => Err(HarnessError::new(HarnessErrorKind::StateMismatch)),
    }
}

proof fn lemma_property_mismatch_prefix(
    properties: Seq<(PropertyId, PropertyValue)>,
    snapshot: SnapshotModelV1,
    node: NodeId,
    path: Seq<PathSegmentV1>,
    count: int,
)
    requires
        0 <= count <= properties.len(),
        property_mismatch(properties.take(count), snapshot, node, path) is Some,
    ensures
        property_mismatch(properties, snapshot, node, path) == property_mismatch(
            properties.take(count),
            snapshot,
            node,
            path,
        ),
    decreases properties.len(),
{
    if count < properties.len() {
        assert(properties.drop_last().take(count) =~= properties.take(count));
        lemma_property_mismatch_prefix(properties.drop_last(), snapshot, node, path, count);
    } else {
        assert(properties.take(count) =~= properties);
    }
}

/// The first property of a bound node whose value the snapshot does not give.
fn diagnose_properties(expected: &NormalizedNodeV1, node: NodeId, view: &SnapshotModelV1) -> (found:
    Option<FailureFingerprintV1>)
    ensures
        match found {
            Some(fingerprint) => property_mismatch(
                expected.properties@,
                *view,
                node,
                expected.path@,
            ) == Some(fingerprint@),
            None => property_mismatch(expected.properties@, *view, node, expected.path@) is None,
        },
{
    let ghost properties = expected.properties@;
    let mut index: usize = 0;
    assert(properties.take(0) =~= Seq::<(PropertyId, PropertyValue)>::empty());
    while index < expected.properties.len()
        invariant
            index <= expected.properties.len(),
            properties == expected.properties@,
            property_mismatch(properties.take(index as int), *view, node, expected.path@) is None,
        decreases expected.properties.len() - index,
    {
        assert(properties.take(index as int + 1).drop_last() =~= properties.take(index as int));
        let (property, value) = expected.properties[index];
        let observed = view.property(node, property);
        let differs = match observed {
            Some(observed_value) => observed_value != value,
            None => true,
        };
        if differs {
            let observed_summary = match observed {
                Some(observed_value) => FingerprintSummaryV1::Property(property, observed_value),
                None => FingerprintSummaryV1::Absent,
            };
            let fingerprint = FailureFingerprintV1::state_mismatch(
                FingerprintLocationV1::Node(expected.path.clone()),
                FingerprintFieldV1::Property,
                FingerprintSummaryV1::Property(property, value),
                observed_summary,
            );
            proof {
                lemma_property_mismatch_prefix(
                    properties,
                    *view,
                    node,
                    expected.path@,
                    index as int + 1,
                );
            }
            return Some(fingerprint);
        }
        index = index + 1;
    }
    assert(properties.take(index as int) =~= properties);
    None
}

/// The parent difference of a bound node, if any.
fn diagnose_parent(
    expected: &NormalizedNodeV1,
    node: NodeId,
    view: &SnapshotModelV1,
    identities: &IdentityIndexV1,
) -> (result: Result<Option<FailureFingerprintV1>, HarnessError>)
    ensures
        reports(result, parent_mismatch(expected@, node, *view, identities@)),
{
    let expected_parent = match &expected.parent {
        Some(path) => match identities.node(path) {
            Some(handle) => Some(handle),
            None => return Err(HarnessError::new(HarnessErrorKind::StateMismatch)),
        },
        None => None,
    };
    let observed_parent = view.parent(node);
    if observed_parent == expected_parent {
        return Ok(None);
    }
    let expected_summary = match &expected.parent {
        Some(path) => FingerprintSummaryV1::Node(path.clone()),
        None => FingerprintSummaryV1::Absent,
    };
    let observed_summary = match observed_parent {
        Some(parent) => match unique_node_path(identities, parent) {
            Ok(path) => FingerprintSummaryV1::Node(path),
            Err(error) => return Err(error),
        },
        None => FingerprintSummaryV1::Absent,
    };
    Ok(
        Some(
            FailureFingerprintV1::state_mismatch(
                FingerprintLocationV1::Node(expected.path.clone()),
                FingerprintFieldV1::Parent,
                expected_summary,
                observed_summary,
            ),
        ),
    )
}

/// The first field of one expected node in which the snapshot differs.
fn diagnose_node(
    expected: &NormalizedNodeV1,
    view: &SnapshotModelV1,
    identities: &IdentityIndexV1,
) -> (result: Result<Option<FailureFingerprintV1>, HarnessError>)
    ensures
        reports(result, node_field_mismatch(expected@, *view, identities@)),
{
    let node = match identities.node(&expected.path) {
        Some(node) => node,
        None => {
            return Ok(
                Some(
                    FailureFingerprintV1::state_mismatch(
                        FingerprintLocationV1::Node(expected.path.clone()),
                        FingerprintFieldV1::Template,
                        FingerprintSummaryV1::Template(expected.template),
                        FingerprintSummaryV1::Absent,
                    ),
                ),
            );
        },
    };
    let observed_template = view.template(node);
    if observed_template != Some(expected.template) {
        let observed_summary = match observed_template {
            Some(template) => FingerprintSummaryV1::Template(template),
            None => FingerprintSummaryV1::Absent,
        };
        return Ok(
            Some(
                FailureFingerprintV1::state_mismatch(
                    FingerprintLocationV1::Node(expected.path.clone()),
                    FingerprintFieldV1::Template,
                    FingerprintSummaryV1::Template(expected.template),
                    observed_summary,
                ),
            ),
        );
    }
    let observed_component = view.component(node);
    if observed_component != Some(expected.component) {
        let observed_summary = match observed_component {
            Some(component) => FingerprintSummaryV1::Component(component),
            None => FingerprintSummaryV1::Absent,
        };
        return Ok(
            Some(
                FailureFingerprintV1::state_mismatch(
                    FingerprintLocationV1::Node(expected.path.clone()),
                    FingerprintFieldV1::Component,
                    FingerprintSummaryV1::Component(expected.component),
                    observed_summary,
                ),
            ),
        );
    }
    if let Some(fingerprint) = diagnose_properties(expected, node, view) {
        return Ok(Some(fingerprint));
    }
    diagnose_parent(expected, node, view, identities)
}

proof fn lemma_node_fields_decided(
    nodes: Seq<NodeView>,
    snapshot: SnapshotModelV1,
    identities: IdentityIndexView,
    count: int,
)
    requires
        0 <= count <= nodes.len(),
        node_fields_mismatch(nodes.take(count), snapshot, identities) != Ok::<
            Option<FingerprintView>,
            HarnessErrorKind,
        >(None),
    ensures
        node_fields_mismatch(nodes, snapshot, identities) == node_fields_mismatch(
            nodes.take(count),
            snapshot,
            identities,
        ),
    decreases nodes.len(),
{
    if count < nodes.len() {
        assert(nodes.drop_last().take(count) =~= nodes.take(count));
        lemma_node_fields_decided(nodes.drop_last(), snapshot, identities, count);
    } else {
        assert(nodes.take(count) =~= nodes);
    }
}

/// The first expected node, in authored order, whose fields the snapshot
/// reports differently.
pub fn diagnose_node_fields_v1(
    expected: &NormalizedStateV1,
    view: &SnapshotModelV1,
    identities: &IdentityIndexV1,
) -> (result: Result<Option<FailureFingerprintV1>, HarnessError>)
    ensures
        reports(result, node_fields_mismatch(expected@.nodes, *view, identities@)),
{
    let ghost nodes = expected@.nodes;
    let mut index: usize = 0;
    assert(nodes.take(0) =~= Seq::<NodeView>::empty());
    while index < expected.nodes.len()
        invariant
            index <= expected.nodes.len(),
            nodes == expected@.nodes,
            nodes.len() == expected.nodes.len(),
            node_fields_mismatch(nodes.take(index as int), *view, identities@) == Ok::<
                Option<FingerprintView>,
                HarnessErrorKind,
            >(None),
        decreases expected.nodes.len() - index,
    {
        assert(nodes.take(index as int + 1).drop_last() =~= nodes.take(index as int));
        let result = diagnose_node(&expected.nodes[index], view, identities);
        match result {
            Ok(None) => {},
            _ => {
                proof {
                    lemma_node_fields_decided(nodes, *view, identities@, index as int + 1);
                }
                return result;
            },
        }
        index = index + 1;
    }
    assert(nodes.take(index as int) =~= nodes);
    Ok(None)
}

/// Whether two key lists are equal.
fn same_keys(left: &Vec<u64>, right: &Vec<u64>) -> (same: bool)
    ensures
        same == (left@ == right@),
{
    if left.len() != right.len() {
        return false;
    }
    let mut index: usize = 0;
    while index < left.len()
        invariant
            index <= left.len(),
            left.len() == right.len(),
            forall|j: int| 0 <= j < index ==> left@[j] == right@[j],
        decreases left.len() - index,
    {
        if left[index] != right[index] {
            return false;
        }
        index = index + 1;
    }
    assert(left@ =~= right@);
    true
}

/// The keys of expected members, in order.
fn member_keys(members: &Vec<(u64, NodePathV1)>) -> (keys: Vec<u64>)
    ensures
        keys@ == expected_keys(members_view(members@)),
{
    let mut keys: Vec<u64> = Vec::new();
    let mut index: usize = 0;
    while index < members.len()
        invariant
            index <= members.len(),
            keys@ == expected_keys(members_view(members@)).take(index as int),
        decreases members.len() - index,
    {
        keys.push(members[index].0);
        index = index + 1;
        assert(keys@ =~= expected_keys(members_view(members@)).take(index as int));
    }
    assert(expected_keys(members_view(members@)).take(index as int) =~= expected_keys(
        members_view(members@),
    ));
    keys
}

/// The keys of reported members, in order.
fn observed_keys(members: &Vec<(u64, NodeId)>) -> (keys: Vec<u64>)
    ensures
        keys@ == reported_keys(members@),
{
    let mut keys: Vec<u64> = Vec::new();
    let mut index: usize = 0;
    while index < members.len()
        invariant
            index <= members.len(),
            keys@ == reported_keys(members@).take(index as int),
        decreases members.len() - index,
    {
        keys.push(members[index].0);
        index = index + 1;
        assert(keys@ =~= reported_keys(members@).take(index as int));
    }
    assert(reported_keys(members@).take(index as int) =~= reported_keys(members@));
    keys
}

proof fn lemma_fragments_decided(fragments: Seq<FragmentView>, bound: BoundView, count: int)
    requires
        0 <= count <= fragments.len(),
        fragments_mismatch(fragments.take(count), bound) != Ok::<
            Option<FingerprintView>,
            HarnessErrorKind,
        >(None),
    ensures
        fragments_mismatch(fragments, bound) == fragments_mismatch(fragments.take(count), bound),
    decreases fragments.len(),
{
    if count < fragments.len() {
        assert(fragments.drop_last().take(count) =~= fragments.take(count));
        lemma_fragments_decided(fragments.drop_last(), bound, count);
    } else {
        assert(fragments.take(count) =~= fragments);
    }
}

/// The first expected region instance, in authored order, that the snapshot
/// does not bind or whose keys it reports in another order.
pub fn diagnose_fragments_v1(expected: &NormalizedStateV1, observed: &BoundSnapshotV1) -> (result:
    Result<Option<FailureFingerprintV1>, HarnessError>)
    ensures
        reports(result, fragments_mismatch(expected@.fragments, observed@)),
{
    let ghost fragments = expected@.fragments;
    let mut index: usize = 0;
    assert(fragments.take(0) =~= Seq::<FragmentView>::empty());
    while index < expected.fragments.len()
        invariant
            index <= expected.fragments.len(),
            fragments == expected@.fragments,
            fragments.len() == expected.fragments.len(),
            fragments_mismatch(fragments.take(index as int), observed@) == Ok::<
                Option<FingerprintView>,
                HarnessErrorKind,
            >(None),
        decreases expected.fragments.len() - index,
    {
        assert(fragments.take(index as int + 1).drop_last() =~= fragments.take(index as int));
        let fragment = &expected.fragments[index];
        let result = match observed.fragment(&fragment.path) {
            None => Err(HarnessError::new(HarnessErrorKind::StateMismatch)),
            Some(BoundFragmentV1::Absent) => Ok(
                Some(
                    FailureFingerprintV1::state_mismatch(
                        FingerprintLocationV1::Fragment(fragment.path.clone()),
                        FingerprintFieldV1::FragmentBinding,
                        FingerprintSummaryV1::BindingPresent,
                        FingerprintSummaryV1::BindingAbsent,
                    ),
                ),
            ),
            Some(BoundFragmentV1::Present(members)) => {
                let wanted = member_keys(&fragment.members);
                let reported = observed_keys(members);
                if same_keys(&wanted, &reported) {
                    Ok(None)
                } else {
                    Ok(
                        Some(
                            FailureFingerprintV1::state_mismatch(
                                FingerprintLocationV1::Fragment(fragment.path.clone()),
                                FingerprintFieldV1::KeyedOrder,
                                FingerprintSummaryV1::Keys(wanted),
                                FingerprintSummaryV1::Keys(reported),
                            ),
                        ),
                    )
                }
            },
        };
        assert(reports(result, fragment_mismatch(fragments[index as int], observed@)));
        match result {
            Ok(None) => {},
            _ => {
                proof {
                    lemma_fragments_decided(fragments, observed@, index as int + 1);
                }
                return result;
            },
        }
        index = index + 1;
    }
    assert(fragments.take(index as int) =~= fragments);
    Ok(None)
}

proof fn lemma_flattened_failure_persists(
    groups: Seq<ChildGroupView>,
    expected: StateView,
    count: int,
)
    requires
        0 <= count <= groups.len(),
        flattened_children(groups.take(count), expected) is Err,
    ensures
        flattened_children(groups, expected) == flattened_children(groups.take(count), expected),
    decreases groups.len(),
{
    if count < groups.len() {
        assert(groups.drop_last().take(count) =~= groups.take(count));
        lemma_flattened_failure_persists(groups.drop_last(), expected, count);
    } else {
        assert(groups.take(count) =~= groups);
    }
}

/// A node's children as the expected state lists them, flat.
fn flatten_children(expected: &NormalizedStateV1, node: &NormalizedNodeV1) -> (result: Result<
    Vec<NodePathV1>,
    HarnessError,
>)
    ensures
        match result {
            Ok(children) => flattened_children(groups_view(node.child_groups@), expected@)
                == Ok::<_, HarnessErrorKind>(paths_view(children@)),
            Err(error) => {
                &&& flattened_children(groups_view(node.child_groups@), expected@) == Err::<
                    Seq<Seq<PathSegmentV1>>,
                    _,
                >(error.spec_kind())
                &&& error.is_unlocated(error.spec_kind())
            },
        },
{
    let ghost groups = groups_view(node.child_groups@);
    let mut children: Vec<NodePathV1> = Vec::new();
    let mut index: usize = 0;
    assert(groups.take(0) =~= Seq::<ChildGroupView>::empty());
    assert(paths_view(children@) =~= Seq::<Seq<PathSegmentV1>>::empty());
    while index < node.child_groups.len()
        invariant
            index <= node.child_groups.len(),
            groups == groups_view(node.child_groups@),
            groups.len() == node.child_groups.len(),
            flattened_children(groups.take(index as int), expected@) == Ok::<
                _,
                HarnessErrorKind,
            >(paths_view(children@)),
        decreases node.child_groups.len() - index,
    {
        assert(groups.take(index as int + 1).drop_last() =~= groups.take(index as int));
        match &node.child_groups[index] {
            NormalizedChildGroupV1::Static(path) => {
                let child = path.clone();
                proof {
                    assert(paths_view(children@.push(child)) =~= paths_view(children@).push(
                        child@,
                    ));
                }
                children.push(child);
            },
            NormalizedChildGroupV1::Region(path) => {
                let fragment = match expected.fragment(path) {
                    Some(fragment) => fragment,
                    None => {
                        proof {
                            lemma_flattened_failure_persists(groups, expected@, index as int + 1);
                        }
                        return Err(HarnessError::new(HarnessErrorKind::StateMismatch));
                    },
                };
                let ghost before = paths_view(children@);
                let ghost members = member_paths(members_view(fragment.members@));
                let mut member: usize = 0;
                while member < fragment.members.len()
                    invariant
                        member <= fragment.members.len(),
                        members == member_paths(members_view(fragment.members@)),
                        members.len() == fragment.members.len(),
                        paths_view(children@) == before + members.take(member as int),
                    decreases fragment.members.len() - member,
                {
                    let child = fragment.members[member].1.clone();
                    proof {
                        assert(paths_view(children@.push(child)) =~= paths_view(children@).push(
                            child@,
                        ));
                        assert(before + members.take(member as int + 1) =~= (before
                            + members.take(member as int)).push(child@));
                    }
                    children.push(child);
                    member = member + 1;
                }
                assert(members.take(member as int) =~= members);
            },
        }
        index = index + 1;
    }
    assert(groups.take(index as int) =~= groups);
    Ok(children)
}

proof fn lemma_observed_paths_failure_persists(
    expected: Seq<Seq<PathSegmentV1>>,
    observed: Seq<NodeId>,
    identities: IdentityIndexView,
    count: int,
)
    requires
        0 <= count <= observed.len(),
        observed_child_paths(expected, observed.take(count), identities) is Err,
    ensures
        observed_child_paths(expected, observed, identities) == observed_child_paths(
            expected,
            observed.take(count),
            identities,
        ),
    decreases observed.len(),
{
    if count < observed.len() {
        assert(observed.drop_last().take(count) =~= observed.take(count));
        lemma_observed_paths_failure_persists(expected, observed.drop_last(), identities, count);
    } else {
        assert(observed.take(count) =~= observed);
    }
}

/// The paths of reported children.
fn observed_paths(
    expected: &Vec<NodePathV1>,
    observed: &Vec<NodeId>,
    identities: &IdentityIndexV1,
) -> (result: Result<Vec<NodePathV1>, HarnessError>)
    ensures
        match result {
            Ok(paths) => observed_child_paths(paths_view(expected@), observed@, identities@)
                == Ok::<_, HarnessErrorKind>(paths_view(paths@)),
            Err(error) => {
                &&& observed_child_paths(paths_view(expected@), observed@, identities@) == Err::<
                    Seq<Seq<PathSegmentV1>>,
                    _,
                >(error.spec_kind())
                &&& error.is_unlocated(error.spec_kind())
            },
        },
{
    let ghost wanted = paths_view(expected@);
    let mut paths: Vec<NodePathV1> = Vec::new();
    let mut index: usize = 0;
    assert(observed@.take(0) =~= Seq::<NodeId>::empty());
    assert(paths_view(paths@) =~= Seq::<Seq<PathSegmentV1>>::empty());
    while index < observed.len()
        invariant
            index <= observed.len(),
            wanted == paths_view(expected@),
            wanted.len() == expected.len(),
            observed_child_paths(wanted, observed@.take(index as int), identities@) == Ok::<
                _,
                HarnessErrorKind,
            >(paths_view(paths@)),
        decreases observed.len() - index,
    {
        assert(observed@.take(index as int + 1).drop_last() =~= observed@.take(index as int));
        let node = observed[index];
        let same = index < expected.len() && identities.node(&expected[index]) == Some(node);
        let path = if same {
            expected[index].clone()
        } else {
            match unique_node_path(identities, node) {
                Ok(path) => path,
                Err(error) => {
                    proof {
                        lemma_observed_paths_failure_persists(
                            wanted,
                            observed@,
                            identities@,
                            index as int + 1,
                        );
                    }
                    return Err(error);
                },
            }
        };
        proof {
            assert(paths_view(paths@.push(path)) =~= paths_view(paths@).push(path@));
        }
        paths.push(path);
        index = index + 1;
    }
    assert(observed@.take(index as int) =~= observed@);
    Ok(paths)
}

/// Whether two path lists name the same nodes in the same order.
fn same_paths(left: &Vec<NodePathV1>, right: &Vec<NodePathV1>) -> (same: bool)
    ensures
        same == (paths_view(left@) == paths_view(right@)),
{
    if left.len() != right.len() {
        assert(paths_view(left@).len() != paths_view(right@).len());
        return false;
    }
    let mut index: usize = 0;
    while index < left.len()
        invariant
            index <= left.len(),
            left.len() == right.len(),
            forall|j: int| 0 <= j < index ==> paths_view(left@)[j] == paths_view(right@)[j],
        decreases left.len() - index,
    {
        if !left[index].same(&right[index]) {
            assert(paths_view(left@)[index as int] != paths_view(right@)[index as int]);
            return false;
        }
        index = index + 1;
    }
    assert(paths_view(left@) =~= paths_view(right@));
    true
}

proof fn lemma_child_orders_decided(
    nodes: Seq<NodeView>,
    expected: StateView,
    bound: BoundView,
    count: int,
)
    requires
        0 <= count <= nodes.len(),
        child_orders_mismatch(nodes.take(count), expected, bound) != Ok::<
            Option<FingerprintView>,
            HarnessErrorKind,
        >(None),
    ensures
        child_orders_mismatch(nodes, expected, bound) == child_orders_mismatch(
            nodes.take(count),
            expected,
            bound,
        ),
    decreases nodes.len(),
{
    if count < nodes.len() {
        assert(nodes.drop_last().take(count) =~= nodes.take(count));
        lemma_child_orders_decided(nodes.drop_last(), expected, bound, count);
    } else {
        assert(nodes.take(count) =~= nodes);
    }
}

/// The first expected node, in authored order, whose flat children the
/// snapshot reports in another order.
pub fn diagnose_child_order_v1(expected: &NormalizedStateV1, observed: &BoundSnapshotV1) -> (result:
    Result<Option<FailureFingerprintV1>, HarnessError>)
    ensures
        reports(result, child_orders_mismatch(expected@.nodes, expected@, observed@)),
{
    let ghost nodes = expected@.nodes;
    let mut index: usize = 0;
    assert(nodes.take(0) =~= Seq::<NodeView>::empty());
    while index < expected.nodes.len()
        invariant
            index <= expected.nodes.len(),
            nodes == expected@.nodes,
            nodes.len() == expected.nodes.len(),
            child_orders_mismatch(nodes.take(index as int), expected@, observed@) == Ok::<
                Option<FingerprintView>,
                HarnessErrorKind,
            >(None),
        decreases expected.nodes.len() - index,
    {
        assert(nodes.take(index as int + 1).drop_last() =~= nodes.take(index as int));
        let node = &expected.nodes[index];
        let result = match flatten_children(expected, node) {
            Err(error) => Err(error),
            Ok(children) => match observed.children(&node.path) {
                None => Err(HarnessError::new(HarnessErrorKind::StateMismatch)),
                Some(reported) => match observed_paths(&children, reported, observed.identities()) {
                    Err(error) => Err(error),
                    Ok(paths) => if same_paths(&children, &paths) {
                        Ok(None)
                    } else {
                        Ok(
                            Some(
                                FailureFingerprintV1::state_mismatch(
                                    FingerprintLocationV1::Node(node.path.clone()),
                                    FingerprintFieldV1::ChildOrder,
                                    FingerprintSummaryV1::Nodes(children),
                                    FingerprintSummaryV1::Nodes(paths),
                                ),
                            ),
                        )
                    },
                },
            },
        };
        assert(reports(result, child_order_mismatch(nodes[index as int], expected@, observed@)));
        match result {
            Ok(None) => {},
            _ => {
                proof {
                    lemma_child_orders_decided(nodes, expected@, observed@, index as int + 1);
                }
                return result;
            },
        }
        index = index + 1;
    }
    assert(nodes.take(index as int) =~= nodes);
    Ok(None)
}

/// One total compared as 32-bit counts.
fn diagnose_count(field: FingerprintFieldV1, expected: Option<usize>, reported: usize) -> (result:
    Result<Option<FailureFingerprintV1>, HarnessError>)
    ensures
        expected is Some ==> reports(
            result,
            count_mismatch(field, expected->Some_0 as int, reported as int),
        ),
        expected is None ==> (result matches Err(error) && error.is_unlocated(
            HarnessErrorKind::ArithmeticExhausted,
        )),
{
    let expected = match expected {
        Some(expected) => expected,
        None => return Err(HarnessError::new(HarnessErrorKind::ArithmeticExhausted)),
    };
    if expected > 4294967295 || reported > 4294967295 {
        return Err(HarnessError::new(HarnessErrorKind::ArithmeticExhausted));
    }
    let expected_count = expected as u32;
    let reported_count = reported as u32;
    if expected_count == reported_count {
        Ok(None)
    } else {
        Ok(
            Some(
                FailureFingerprintV1::state_mismatch(
                    FingerprintLocationV1::Global,
                    field,
                    FingerprintSummaryV1::Count(expected_count),
                    FingerprintSummaryV1::Count(reported_count),
                ),
            ),
        )
    }
}

/// The first total the snapshot reports differently: nodes, fragments, then
/// property slots.
pub fn diagnose_counts_v1(expected: &NormalizedStateV1, observed: &BoundSnapshotV1) -> (result:
    Result<Option<FailureFingerprintV1>, HarnessError>)
    ensures
        reports(result, counts_mismatch(expected@, observed@.reported)),
{
    let reported = observed.reported_counts();
    let nodes = diagnose_count(
        FingerprintFieldV1::NodeCount,
        Some(expected.node_count()),
        reported.nodes,
    );
    match nodes {
        Ok(None) => {},
        _ => return nodes,
    }
    let fragments = diagnose_count(
        FingerprintFieldV1::FragmentCount,
        Some(expected.fragment_count()),
        reported.fragments,
    );
    match fragments {
        Ok(None) => {},
        _ => return fragments,
    }
    let slots = expected.property_slot_count();
    let properties = diagnose_count(FingerprintFieldV1::PropertyCount, slots, reported.properties);
    proof {
        if slots is None {
            assert(property_slot_total(expected@.nodes) > u32::MAX);
        }
    }
    properties
}

/// The outcome of observing a snapshot against the expected state.
#[derive(Debug)]
pub enum ObservationOutcomeV1 {
    /// Nothing differs: the expected state with the bound handles.
    Complete(ObservedSnapshotV1),
    /// The first difference.
    Mismatch(FailureFingerprintV1),
}

impl View for ObservationOutcomeV1 {
    type V = ObservationView;

    open spec fn view(&self) -> ObservationView {
        match self {
            ObservationOutcomeV1::Complete(observed) => ObservationView::Complete(observed@),
            ObservationOutcomeV1::Mismatch(fingerprint) => ObservationView::Mismatch(fingerprint@),
        }
    }
}

/// Observes a snapshot against the expected state: binds the expected paths,
/// then reports the first difference in node fields, region instances, child
/// order and totals, in that order; with none, the expected state with the
/// bound handles.
pub fn observe_snapshot_against_view_v1(
    _construction: &ConstructionModelV1,
    expected: &NormalizedStateV1,
    view: &SnapshotModelV1,
    limits: HarnessLimitsV1,
) -> (result: Result<ObservationOutcomeV1, HarnessError>)
    ensures
        match result {
            Ok(outcome) => observe_against(expected@, *view, limits) == Ok::<_, HarnessErrorKind>(
                outcome@,
            ),
            Err(error) => {
                &&& observe_against(expected@, *view, limits) == Err::<ObservationView, _>(
                    error.spec_kind(),
                )
                &&& error.is_unlocated(error.spec_kind())
            },
        },
{
    let observed = match bind_expected_paths_v1(expected, view, limits) {
        Ok(observed) => observed,
        Err(error) => return Err(error),
    };
    match diagnose_node_fields_v1(expected, view, observed.identities()) {
        Err(error) => return Err(error),
        Ok(Some(fingerprint)) => return Ok(ObservationOutcomeV1::Mismatch(fingerprint)),
        Ok(None) => {},
    }
    match diagnose_fragments_v1(expected, &observed) {
        Err(error) => return Err(error),
        Ok(Some(fingerprint)) => return Ok(ObservationOutcomeV1::Mismatch(fingerprint)),
        Ok(None) => {},
    }
    match diagnose_child_order_v1(expected, &observed) {
        Err(error) => return Err(error),
        Ok(Some(fingerprint)) => return Ok(ObservationOutcomeV1::Mismatch(fingerprint)),
        Ok(None) => {},
    }
    match diagnose_counts_v1(expected, &observed) {
        Err(error) => return Err(error),
        Ok(Some(fingerprint)) => return Ok(ObservationOutcomeV1::Mismatch(fingerprint)),
        Ok(None) => {},
    }
    let normalized = expected.clone();
    Ok(
        ObservationOutcomeV1::Complete(
            ObservedSnapshotV1 { normalized, identities: observed.into_identities() },
        ),
    )
}

/// A complete observation gives back exactly the expected state, whatever
/// handles the snapshot bound to it.
pub proof fn lemma_complete_observation_is_the_expected_state(
    expected: StateView,
    snapshot: SnapshotModelV1,
    limits: HarnessLimitsV1,
)
    requires
        observe_against(expected, snapshot, limits) is Ok,
        observe_against(expected, snapshot, limits)->Ok_0 is Complete,
    ensures
        observe_against(expected, snapshot, limits)->Ok_0->Complete_0.0 == expected,
        observe_against(expected, snapshot, limits)->Ok_0->Complete_0.1 == bind(
            expected,
            snapshot,
            limits,
        )->Ok_0.identities,
{
}

/// Ceilings come first: whenever the preflight refuses a snapshot, observing
/// it fails with that refusal, before any difference is diagnosed.
pub proof fn lemma_preflight_refusal_precedes_diagnosis(
    expected: StateView,
    snapshot: SnapshotModelV1,
    limits: HarnessLimitsV1,
)
    requires
        preflight(expected, snapshot, limits) is Err,
    ensures
        observe_against(expected, snapshot, limits) == Err::<ObservationView, _>(
            preflight(expected, snapshot, limits)->Err_0,
        ),
{
}

/// Node fields come before region instances, child order and totals: a node
/// field difference is the one reported.
pub proof fn lemma_node_fields_precede_other_differences(
    expected: StateView,
    snapshot: SnapshotModelV1,
    limits: HarnessLimitsV1,
)
    requires
        bind(expected, snapshot, limits) is Ok,
        node_fields_mismatch(expected.nodes, snapshot, bind(expected, snapshot, limits)->Ok_0.identities)
            is Ok,
        node_fields_mismatch(expected.nodes, snapshot, bind(expected, snapshot, limits)->Ok_0.identities)->Ok_0
            is Some,
    ensures
        observe_against(expected, snapshot, limits) == Ok::<_, HarnessErrorKind>(
            ObservationView::Mismatch(
                node_fields_mismatch(
                    expected.nodes,
                    snapshot,
                    bind(expected, snapshot, limits)->Ok_0.identities,
                )->Ok_0->Some_0,
            ),
        ),
{
}


/// The snapshot agrees with one expected node: the node's path is bound to
/// a handle whose template, component, every expected property value and
/// parent are those the expected node names.
pub open spec fn node_agrees(
    expected: NodeView,
    snapshot: SnapshotModelV1,
    identities: IdentityIndexView,
) -> bool {
    match lookup(identities.nodes, expected.path) {
        None => false,
        Some(node) => {
            &&& view_template(snapshot, node) == Some(expected.template)
            &&& view_component(snapshot, node) == Some(expected.component)
            &&& forall|i: int|
                0 <= i < expected.properties.len() ==> view_property(
                    snapshot,
                    node,
                    (#[trigger] expected.properties[i]).0,
                ) == Some(expected.properties[i].1)
            &&& view_parent(snapshot, node) == match expected.parent {
                Some(parent) => lookup(identities.nodes, parent),
                None => None,
            }
        },
    }
}

proof fn lemma_property_agreement(
    properties: Seq<(PropertyId, PropertyValue)>,
    snapshot: SnapshotModelV1,
    node: NodeId,
    path: Seq<PathSegmentV1>,
)
    requires
        property_mismatch(properties, snapshot, node, path) is None,
    ensures
        forall|i: int|
            0 <= i < properties.len() ==> view_property(snapshot, node, (#[trigger] properties[i]).0)
                == Some(properties[i].1),
    decreases properties.len(),
{
    if properties.len() > 0 {
        lemma_property_agreement(properties.drop_last(), snapshot, node, path);
        assert forall|i: int| 0 <= i < properties.len() implies view_property(
            snapshot,
            node,
            (#[trigger] properties[i]).0,
        ) == Some(properties[i].1) by {
            if i < properties.len() - 1 {
                assert(properties[i] == properties.drop_last()[i]);
            }
        }
    }
}

proof fn lemma_nodes_agree(
    nodes: Seq<NodeView>,
    snapshot: SnapshotModelV1,
    identities: IdentityIndexView,
)
    requires
        node_fields_mismatch(nodes, snapshot, identities) == Ok::<
            Option<FingerprintView>,
            HarnessErrorKind,
        >(None),
    ensures
        forall|i: int| 0 <= i < nodes.len() ==> node_agrees(#[trigger] nodes[i], snapshot, identities),
    decreases nodes.len(),
{
    if nodes.len() > 0 {
        lemma_nodes_agree(nodes.drop_last(), snapshot, identities);
        let last = nodes.last();
        assert(node_field_mismatch(last, snapshot, identities) == Ok::<
            Option<FingerprintView>,
            HarnessErrorKind,
        >(None));
        let node = lookup(identities.nodes, last.path)->Some_0;
        lemma_property_agreement(last.properties, snapshot, node, last.path);
        assert(node_agrees(last, snapshot, identities));
        assert forall|i: int| 0 <= i < nodes.len() implies node_agrees(
            #[trigger] nodes[i],
            snapshot,
            identities,
        ) by {
            if i < nodes.len() - 1 {
                assert(nodes[i] == nodes.drop_last()[i]);
            }
        }
    }
}

/// The snapshot agrees with one expected region instance: it is bound and
/// present, with the expected member keys in the expected order.
pub open spec fn fragment_agrees(fragment: FragmentView, bound: BoundView) -> bool {
    match lookup(bound.fragments, fragment.path) {
        Some(BoundFragmentView::Present(members)) => reported_keys(members) == expected_keys(
            fragment.members,
        ),
        _ => false,
    }
}

proof fn lemma_fragments_agree(fragments: Seq<FragmentView>, bound: BoundView)
    requires
        fragments_mismatch(fragments, bound) == Ok::<Option<FingerprintView>, HarnessErrorKind>(
            None,
        ),
    ensures
        forall|i: int| 0 <= i < fragments.len() ==> fragment_agrees(#[trigger] fragments[i], bound),
    decreases fragments.len(),
{
    if fragments.len() > 0 {
        lemma_fragments_agree(fragments.drop_last(), bound);
        assert(fragment_agrees(fragments.last(), bound));
        assert forall|i: int| 0 <= i < fragments.len() implies fragment_agrees(
            #[trigger] fragments[i],
            bound,
        ) by {
            if i < fragments.len() - 1 {
                assert(fragments[i] == fragments.drop_last()[i]);
            }
        }
    }
}

/// A complete observation means the snapshot agrees with every expected
/// node: each path is bound, and its template, component, property values
/// and parent are the expected ones; every expected region instance is
/// present with the expected keys in order; and the snapshot reports the
/// expected numbers of nodes, region instances and property slots.
pub proof fn lemma_complete_observation_agrees(
    expected: StateView,
    snapshot: SnapshotModelV1,
    limits: HarnessLimitsV1,
)
    requires
        observe_against(expected, snapshot, limits) is Ok,
        observe_against(expected, snapshot, limits)->Ok_0 is Complete,
    ensures
        forall|i: int|
            0 <= i < expected.nodes.len() ==> node_agrees(
                #[trigger] expected.nodes[i],
                snapshot,
                bind(expected, snapshot, limits)->Ok_0.identities,
            ),
        forall|i: int|
            0 <= i < expected.fragments.len() ==> fragment_agrees(
                #[trigger] expected.fragments[i],
                bind(expected, snapshot, limits)->Ok_0,
            ),
        bind(expected, snapshot, limits)->Ok_0.reported.nodes == expected.nodes.len(),
        bind(expected, snapshot, limits)->Ok_0.reported.fragments == expected.fragments.len(),
        bind(expected, snapshot, limits)->Ok_0.reported.properties
            == crate::model::property_slot_total(expected.nodes),
{
    let bound = bind(expected, snapshot, limits)->Ok_0;
    lemma_nodes_agree(expected.nodes, snapshot, bound.identities);
    lemma_fragments_agree(expected.fragments, bound);
}

} // verus!
