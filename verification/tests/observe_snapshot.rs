use fenestra_ui_testkit::case::{PropertyId, PropertyValue};
use fenestra_ui_testkit::error::{HarnessErrorKind, HarnessLimitKind};
use fenestra_ui_testkit::fixture::HarnessLimitsV1;
use fenestra_ui_testkit::identity::{first_alias_v1, FragmentId, NodeId};
use fenestra_ui_testkit::model::rebuild::clean_rebuild_v1;
use fenestra_ui_testkit::model::{
    ChildFactoryV1, ComponentId, ConstructionModelV1, DesiredStateV1, NormalizedStateV1,
    PropertySlotV1, RegionModelV1, StructuralRegionId, TemplateModelV1, TemplateNodeId,
};
use fenestra_ui_testkit::observe::partial::{observe_snapshot_indexed_v1, observe_snapshot_v1};
use fenestra_ui_testkit::observe::view::{SnapshotFragmentV1, SnapshotModelV1, SnapshotNodeV1};
use fenestra_ui_testkit::semantic::{FragmentPathV1, NodePathV1, PathSegmentV1};

fn limits() -> HarnessLimitsV1 {
    HarnessLimitsV1 {
        transactions: 8,
        operations_per_transaction: 2,
        operations: 10,
        live_memberships: 16,
        path_depth: 8,
        normalized_nodes: 64,
        normalized_fragments: 16,
        normalized_properties: 256,
        applicable_actions: 64,
        trace_bytes: 4096,
    }
}

fn slot(id: u32, value: PropertyValue) -> PropertySlotV1 {
    PropertySlotV1 { id: PropertyId(id), value_type: value.value_type(), effective: Some(value) }
}

fn construction() -> ConstructionModelV1 {
    ConstructionModelV1 {
        domain: 1,
        root: TemplateNodeId(0),
        templates: vec![
            TemplateModelV1 {
                id: TemplateNodeId(0),
                component: ComponentId(7),
                properties: vec![slot(1, PropertyValue::ScalarI32(5)), slot(2, PropertyValue::Bool(true))],
                children: vec![
                    ChildFactoryV1::Static { template: TemplateNodeId(1) },
                    ChildFactoryV1::Region { region: StructuralRegionId(10) },
                ],
            },
            TemplateModelV1 {
                id: TemplateNodeId(1),
                component: ComponentId(8),
                properties: vec![slot(3, PropertyValue::ScalarI32(0))],
                children: vec![],
            },
        ],
        regions: vec![RegionModelV1 {
            id: StructuralRegionId(10),
            initial_keys: vec![3, 4],
            repeat_body: TemplateNodeId(1),
        }],
    }
}

fn leaf(id: u64, parent: u64, value: i32) -> SnapshotNodeV1 {
    SnapshotNodeV1 {
        id: NodeId(id),
        template: Some(TemplateNodeId(1)),
        component: Some(ComponentId(8)),
        properties: vec![(PropertyId(3), PropertyValue::ScalarI32(value))],
        parent: Some(NodeId(parent)),
        children: Some(vec![]),
    }
}

/// The snapshot a runtime built from `construction()` commits first: the root
/// (handle 1), its static child (2) and the members of keys 3 and 4 (handles
/// 13 and 14), all children of the root, flat, in slot order.
fn snapshot() -> SnapshotModelV1 {
    SnapshotModelV1 {
        root: NodeId(1),
        node_count: 4,
        fragment_count: 1,
        property_slot_count: 5,
        nodes: vec![
            SnapshotNodeV1 {
                id: NodeId(1),
                template: Some(TemplateNodeId(0)),
                component: Some(ComponentId(7)),
                properties: vec![
                    (PropertyId(1), PropertyValue::ScalarI32(5)),
                    (PropertyId(2), PropertyValue::Bool(true)),
                ],
                parent: None,
                children: Some(vec![NodeId(2), NodeId(13), NodeId(14)]),
            },
            leaf(2, 1, 0),
            leaf(13, 1, 0),
            leaf(14, 1, 0),
        ],
        fragments: vec![SnapshotFragmentV1 {
            id: FragmentId(100),
            owner: NodeId(1),
            descriptor: StructuralRegionId(10),
            members: vec![(3, NodeId(13)), (4, NodeId(14))],
        }],
    }
}

fn paths(state: &NormalizedStateV1) -> Vec<Vec<PathSegmentV1>> {
    state.nodes.iter().map(|node| node.path.segments().to_vec()).collect()
}

fn failure(snapshot: &SnapshotModelV1, limits: HarnessLimitsV1) -> HarnessErrorKind {
    let error = observe_snapshot_v1(&construction(), snapshot, limits).expect_err("observation fails");
    assert_eq!(error.transaction(), None);
    assert_eq!(error.operation(), None);
    error.kind()
}

#[test]
fn clean_snapshot_observes_as_the_clean_rebuild() {
    let desired = DesiredStateV1 { construction_domain: 1, property_overrides: vec![], region_keys: vec![] };
    let expected = clean_rebuild_v1(&construction(), &desired, limits()).unwrap();
    let observed = observe_snapshot_indexed_v1(&construction(), &snapshot(), limits()).unwrap();
    let state = observed.normalized();
    assert_eq!(paths(state), paths(&expected));
    for (left, right) in state.nodes.iter().zip(expected.nodes.iter()) {
        assert_eq!(left.template, right.template);
        assert_eq!(left.component, right.component);
        assert_eq!(left.properties, right.properties);
        assert_eq!(left.child_groups.len(), right.child_groups.len());
        assert_eq!(
            left.parent.as_ref().map(|path| path.segments().to_vec()),
            right.parent.as_ref().map(|path| path.segments().to_vec())
        );
    }
    assert_eq!(state.fragments.len(), 1);
    assert_eq!(state.fragments[0].descriptor, StructuralRegionId(10));
    let keys: Vec<u64> = state.fragments[0].members.iter().map(|member| member.0).collect();
    assert_eq!(keys, vec![3, 4]);

    let identities = observed.identities();
    assert_eq!(identities.node(&NodePathV1::root()), Some(NodeId(1)));
    assert_eq!(identities.node(&NodePathV1::root().static_child(0)), Some(NodeId(2)));
    assert_eq!(identities.node(&NodePathV1::root().member(1, 4)), Some(NodeId(14)));
    assert_eq!(identities.fragment(&FragmentPathV1::new(NodePathV1::root(), 1)), Some(FragmentId(100)));
    let order: Vec<NodeId> = identities.nodes_in_authored_order().iter().map(|entry| entry.1).collect();
    assert_eq!(order, vec![NodeId(1), NodeId(2), NodeId(13), NodeId(14)]);
    assert!(first_alias_v1(identities).is_none());
}

#[test]
fn observed_values_come_from_the_snapshot() {
    let mut snapshot = snapshot();
    snapshot.nodes[3].properties = vec![(PropertyId(3), PropertyValue::ScalarI32(-7))];
    let state = observe_snapshot_v1(&construction(), &snapshot, limits()).unwrap();
    assert_eq!(state.nodes[3].properties, vec![(PropertyId(3), PropertyValue::ScalarI32(-7))]);
}

#[test]
fn broken_links_are_state_mismatches() {
    let mut wrong_parent = snapshot();
    wrong_parent.nodes[1].parent = Some(NodeId(13));
    assert_eq!(failure(&wrong_parent, limits()), HarnessErrorKind::StateMismatch);

    let mut wrong_type = snapshot();
    wrong_type.nodes[0].properties[1].1 = PropertyValue::ScalarI32(1);
    assert_eq!(failure(&wrong_type, limits()), HarnessErrorKind::StateMismatch);

    let mut missing_value = snapshot();
    missing_value.nodes[2].properties.clear();
    assert_eq!(failure(&missing_value, limits()), HarnessErrorKind::StateMismatch);

    let mut repeated_key = snapshot();
    repeated_key.fragments[0].members[1].0 = 3;
    assert_eq!(failure(&repeated_key, limits()), HarnessErrorKind::StateMismatch);

    let mut reordered = snapshot();
    reordered.nodes[0].children = Some(vec![NodeId(2), NodeId(14), NodeId(13)]);
    assert_eq!(failure(&reordered, limits()), HarnessErrorKind::StateMismatch);

    let mut extra_child = snapshot();
    extra_child.nodes[0].children = Some(vec![NodeId(2), NodeId(13), NodeId(14), NodeId(15)]);
    assert_eq!(failure(&extra_child, limits()), HarnessErrorKind::StateMismatch);

    let mut wrong_template = snapshot();
    wrong_template.nodes[1].template = Some(TemplateNodeId(0));
    assert_eq!(failure(&wrong_template, limits()), HarnessErrorKind::StateMismatch);

    let mut missing_fragment = snapshot();
    missing_fragment.fragments[0].descriptor = StructuralRegionId(11);
    assert_eq!(failure(&missing_fragment, limits()), HarnessErrorKind::StateMismatch);
}

#[test]
fn reported_counts_must_match_the_walk() {
    let mut nodes = snapshot();
    nodes.node_count = 5;
    assert_eq!(failure(&nodes, limits()), HarnessErrorKind::StateMismatch);
    let mut fragments = snapshot();
    fragments.fragment_count = 0;
    assert_eq!(failure(&fragments, limits()), HarnessErrorKind::StateMismatch);
    let mut properties = snapshot();
    properties.property_slot_count = 4;
    assert_eq!(failure(&properties, limits()), HarnessErrorKind::StateMismatch);
}

#[test]
fn observation_enforces_each_ceiling() {
    let snapshot = snapshot();
    assert_eq!(
        failure(&snapshot, HarnessLimitsV1 { normalized_nodes: 3, ..limits() }),
        HarnessErrorKind::LimitExceeded(HarnessLimitKind::NormalizedNodes)
    );
    assert_eq!(
        failure(&snapshot, HarnessLimitsV1 { normalized_fragments: 0, ..limits() }),
        HarnessErrorKind::LimitExceeded(HarnessLimitKind::NormalizedFragments)
    );
    assert_eq!(
        failure(&snapshot, HarnessLimitsV1 { normalized_properties: 4, ..limits() }),
        HarnessErrorKind::LimitExceeded(HarnessLimitKind::NormalizedProperties)
    );
    assert_eq!(
        failure(&snapshot, HarnessLimitsV1 { live_memberships: 1, ..limits() }),
        HarnessErrorKind::LimitExceeded(HarnessLimitKind::LiveMemberships)
    );
    assert_eq!(
        failure(&snapshot, HarnessLimitsV1 { path_depth: 0, ..limits() }),
        HarnessErrorKind::LimitExceeded(HarnessLimitKind::PathDepth)
    );
}

#[test]
fn a_node_reached_twice_is_a_state_mismatch() {
    let mut aliased = snapshot();
    aliased.nodes[0].children = Some(vec![NodeId(2), NodeId(2), NodeId(14)]);
    aliased.fragments[0].members[0].1 = NodeId(2);
    assert_eq!(failure(&aliased, limits()), HarnessErrorKind::StateMismatch);
}
