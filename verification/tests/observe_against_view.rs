use fenestra_ui_testkit::case::{InputPolicy, PropertyId, PropertyValue, Rgba8};
use fenestra_ui_testkit::error::{HarnessError, HarnessErrorKind, HarnessLimitKind};
use fenestra_ui_testkit::fingerprint::{
    FailureFingerprintKindV1, FingerprintFieldV1, FingerprintLocationV1, FingerprintSummaryV1,
};
use fenestra_ui_testkit::fixture::HarnessLimitsV1;
use fenestra_ui_testkit::identity::{first_alias_v1, FragmentId, IdentityIndexV1, NodeId};
use fenestra_ui_testkit::model::rebuild::clean_rebuild_v1;
use fenestra_ui_testkit::model::{
    ChildFactoryV1, ComponentId, ConstructionModelV1, DesiredStateV1, NormalizedChildGroupV1,
    NormalizedStateV1, PropertySlotV1, RegionModelV1, StructuralRegionId, TemplateModelV1,
    TemplateNodeId,
};
use fenestra_ui_testkit::observe::diagnose::{ObservationOutcomeV1, observe_snapshot_against_view_v1};
use fenestra_ui_testkit::observe::partial::{ObservedSnapshotV1, observe_snapshot_indexed_v1};
use fenestra_ui_testkit::observe::view::{SnapshotFragmentV1, SnapshotModelV1, SnapshotNodeV1};
use fenestra_ui_testkit::semantic::{FragmentPathV1, NodePathV1};

const DOMAIN: u64 = 3;

fn limits() -> HarnessLimitsV1 {
    HarnessLimitsV1 {
        transactions: 8,
        operations_per_transaction: 4,
        operations: 32,
        live_memberships: 12,
        path_depth: 8,
        normalized_nodes: 256,
        normalized_fragments: 128,
        normalized_properties: 1_024,
        applicable_actions: 64,
        trace_bytes: 65_536,
    }
}

fn slot(id: u32, value: PropertyValue) -> PropertySlotV1 {
    PropertySlotV1 { id: PropertyId(id), value_type: value.value_type(), effective: Some(value) }
}

fn template(
    id: u32,
    properties: Vec<PropertySlotV1>,
    children: Vec<ChildFactoryV1>,
) -> TemplateModelV1 {
    TemplateModelV1 { id: TemplateNodeId(id), component: ComponentId(id), properties, children }
}

/// The observation fixture: a root with a static child, a primary keyed
/// region (keys 7 and 8) whose members each hold a static child and a nested
/// region of one member, and a secondary keyed region (key 7) of leaves.
/// Initially it has nine nodes, four region instances and fourteen property
/// slots.
fn construction() -> ConstructionModelV1 {
    ConstructionModelV1 {
        domain: DOMAIN,
        root: TemplateNodeId(0),
        templates: vec![
            template(
                0,
                vec![
                    slot(0, PropertyValue::ScalarI32(120)),
                    slot(1, PropertyValue::Bool(true)),
                    slot(2, PropertyValue::Rgba8(Rgba8(1, 2, 3, 255))),
                ],
                vec![
                    ChildFactoryV1::Static { template: TemplateNodeId(1) },
                    ChildFactoryV1::Region { region: StructuralRegionId(0) },
                    ChildFactoryV1::Region { region: StructuralRegionId(2) },
                ],
            ),
            template(
                1,
                vec![
                    slot(0, PropertyValue::ScalarI32(10)),
                    slot(1, PropertyValue::InputPolicy(InputPolicy::Accept)),
                ],
                vec![],
            ),
            template(
                2,
                vec![slot(0, PropertyValue::ScalarI32(30)), slot(1, PropertyValue::Bool(false))],
                vec![
                    ChildFactoryV1::Static { template: TemplateNodeId(3) },
                    ChildFactoryV1::Region { region: StructuralRegionId(1) },
                ],
            ),
            template(3, vec![slot(0, PropertyValue::ScalarI32(40))], vec![]),
            template(4, vec![slot(0, PropertyValue::ScalarI32(20))], vec![]),
        ],
        regions: vec![
            RegionModelV1 {
                id: StructuralRegionId(0),
                initial_keys: vec![7, 8],
                repeat_body: TemplateNodeId(2),
            },
            RegionModelV1 {
                id: StructuralRegionId(1),
                initial_keys: vec![5],
                repeat_body: TemplateNodeId(3),
            },
            RegionModelV1 {
                id: StructuralRegionId(2),
                initial_keys: vec![7],
                repeat_body: TemplateNodeId(4),
            },
        ],
    }
}

/// The handle a runtime gives the node at an authored position.
fn node_handle(position: usize) -> NodeId {
    NodeId(position as u64 + 1)
}

/// The handle a runtime gives the region instance at an authored position.
fn fragment_handle(position: usize) -> FragmentId {
    FragmentId(position as u64 + 100)
}

fn position_of(state: &NormalizedStateV1, path: &NodePathV1) -> usize {
    state.nodes.iter().position(|node| node.path == *path).expect("the node exists")
}

/// The snapshot a runtime commits for a consistent normalized state.
fn committed(state: &NormalizedStateV1) -> SnapshotModelV1 {
    let nodes = state
        .nodes
        .iter()
        .enumerate()
        .map(|(position, node)| {
            let mut children = Vec::new();
            for group in &node.child_groups {
                match group {
                    NormalizedChildGroupV1::Static(path) => {
                        children.push(node_handle(position_of(state, path)))
                    }
                    NormalizedChildGroupV1::Region(path) => {
                        let fragment = state.fragment(path).expect("the fragment exists");
                        for member in &fragment.members {
                            children.push(node_handle(position_of(state, &member.1)));
                        }
                    }
                }
            }
            SnapshotNodeV1 {
                id: node_handle(position),
                template: Some(node.template),
                component: Some(node.component),
                properties: node.properties.clone(),
                parent: node.parent.as_ref().map(|parent| node_handle(position_of(state, parent))),
                children: Some(children),
            }
        })
        .collect();
    let fragments = state
        .fragments
        .iter()
        .enumerate()
        .map(|(position, fragment)| SnapshotFragmentV1 {
            id: fragment_handle(position),
            owner: node_handle(position_of(state, fragment.path.owner())),
            descriptor: fragment.descriptor,
            members: fragment
                .members
                .iter()
                .map(|member| (member.0, node_handle(position_of(state, &member.1))))
                .collect(),
        })
        .collect();
    SnapshotModelV1 {
        root: node_handle(0),
        node_count: state.nodes.len(),
        fragment_count: state.fragments.len(),
        property_slot_count: state.nodes.iter().map(|node| node.properties.len()).sum(),
        nodes,
        fragments,
    }
}

struct ObservationCase {
    construction: ConstructionModelV1,
    expected: NormalizedStateV1,
    snapshot: SnapshotModelV1,
    identities: IdentityIndexV1,
}

impl ObservationCase {
    fn from_desired(desired: DesiredStateV1) -> Self {
        let construction = construction();
        let expected = clean_rebuild_v1(&construction, &desired, limits()).expect("clean state should rebuild");
        let snapshot = committed(&expected);
        let ObservedSnapshotV1 { identities, .. } =
            observe_snapshot_indexed_v1(&construction, &snapshot, limits())
                .expect("clean snapshot should observe");
        ObservationCase { construction, expected, snapshot, identities }
    }

    fn initial() -> Self {
        Self::from_desired(DesiredStateV1 {
            construction_domain: DOMAIN,
            property_overrides: vec![],
            region_keys: vec![],
        })
    }

    fn with_empty_root_fragments() -> Self {
        Self::from_desired(DesiredStateV1 {
            construction_domain: DOMAIN,
            property_overrides: vec![],
            region_keys: vec![
                (FragmentPathV1::new(NodePathV1::root(), 1), vec![]),
                (FragmentPathV1::new(NodePathV1::root(), 2), vec![]),
            ],
        })
    }

    fn node(&self, path: &NodePathV1) -> NodeId {
        self.identities.node(path).expect("the node is bound")
    }

    fn fragment(&self, path: &FragmentPathV1) -> FragmentId {
        self.identities.fragment(path).expect("the fragment is bound")
    }

    fn view(&self) -> SnapshotModelV1 {
        committed(&self.expected)
    }

    fn observe(&self, view: &SnapshotModelV1) -> Result<ObservationOutcomeV1, HarnessError> {
        observe_snapshot_against_view_v1(&self.construction, &self.expected, view, limits())
    }
}

fn entry(view: &mut SnapshotModelV1, node: NodeId) -> &mut SnapshotNodeV1 {
    view.nodes.iter_mut().find(|entry| entry.id == node).expect("the node is live")
}

fn fragment_entry(view: &mut SnapshotModelV1, fragment: FragmentId) -> &mut SnapshotFragmentV1 {
    view.fragments
        .iter_mut()
        .find(|entry| entry.id == fragment)
        .expect("the fragment is live")
}

fn report_counts(view: &mut SnapshotModelV1, nodes: usize, fragments: usize, properties: usize) {
    view.node_count = nodes;
    view.fragment_count = fragments;
    view.property_slot_count = properties;
}

/// Reports `count` flat children for a node by appending unknown handles.
fn report_child_count(view: &mut SnapshotModelV1, node: NodeId, count: usize) {
    let children = entry(view, node).children.as_mut().expect("the node has children");
    let mut next = 1_000;
    while children.len() < count {
        children.push(NodeId(next));
        next += 1;
    }
}

/// Reports `count` keyed members for a region instance by appending unknown
/// keys and handles.
fn report_keyed_count(view: &mut SnapshotModelV1, fragment: FragmentId, count: usize) {
    let members = &mut fragment_entry(view, fragment).members;
    let mut next = 1_000;
    while members.len() < count {
        members.push((next, NodeId(next)));
        next += 1;
    }
}

/// Makes every reference to `target` read as `source`.
fn alias_node(view: &mut SnapshotModelV1, source: NodeId, target: NodeId) {
    for node in &mut view.nodes {
        if node.parent == Some(target) {
            node.parent = Some(source);
        }
        if let Some(children) = node.children.as_mut() {
            for child in children.iter_mut() {
                if *child == target {
                    *child = source;
                }
            }
        }
    }
    for fragment in &mut view.fragments {
        for member in fragment.members.iter_mut() {
            if member.1 == target {
                member.1 = source;
            }
        }
    }
}

fn assert_state_mismatch(
    result: Result<ObservationOutcomeV1, HarnessError>,
    location: FingerprintLocationV1,
    field: FingerprintFieldV1,
    expected: FingerprintSummaryV1,
    observed: FingerprintSummaryV1,
) {
    let outcome = result.expect("diagnostic observation should remain operational");
    let ObservationOutcomeV1::Mismatch(fingerprint) = outcome else {
        panic!("observation should report a mismatch");
    };
    assert_eq!(fingerprint.kind(), FailureFingerprintKindV1::StateMismatch);
    assert_eq!(fingerprint.location(), &location);
    assert_eq!(fingerprint.field(), field);
    assert_eq!(fingerprint.expected(), &expected);
    assert_eq!(fingerprint.observed(), &observed);
}

fn assert_limit(result: Result<ObservationOutcomeV1, HarnessError>, expected: HarnessLimitKind) {
    let Err(error) = result else {
        panic!("observation should reject an exceeded limit");
    };
    assert_eq!(error.kind(), HarnessErrorKind::LimitExceeded(expected));
    assert_eq!(error.transaction(), None);
    assert_eq!(error.operation(), None);
}

fn expect_complete(case: &ObservationCase, view: &SnapshotModelV1) -> ObservedSnapshotV1 {
    let outcome = case.observe(view).expect("coherent observation should remain operational");
    let ObservationOutcomeV1::Complete(observed) = outcome else {
        panic!("coherent observation should preserve normalized state");
    };
    assert_eq!(observed.normalized(), &case.expected);
    observed
}

fn assert_alias(observed: &ObservedSnapshotV1, location: FingerprintLocationV1) {
    let fingerprint = first_alias_v1(observed.identities()).expect("a duplicate identity is found");
    assert_eq!(fingerprint.kind(), FailureFingerprintKindV1::IdentityMismatch);
    assert_eq!(fingerprint.location(), &location);
    assert_eq!(fingerprint.field(), FingerprintFieldV1::IdentityLifecycle);
    assert_eq!(fingerprint.expected(), &FingerprintSummaryV1::LifecycleDistinct);
    assert_eq!(fingerprint.observed(), &FingerprintSummaryV1::LifecycleAliased);
}

fn above_ceiling_counts() -> [((usize, usize, usize), HarnessLimitKind); 3] {
    [
        ((257, 4, 14), HarnessLimitKind::NormalizedNodes),
        ((9, 129, 14), HarnessLimitKind::NormalizedFragments),
        ((9, 4, 1_025), HarnessLimitKind::NormalizedProperties),
    ]
}

#[test]
fn clean_view_completes_with_the_exact_expected_state() {
    let case = ObservationCase::initial();
    assert_eq!(case.expected.node_count(), 9);
    assert_eq!(case.expected.fragment_count(), 4);
    assert_eq!(case.expected.property_slot_count(), Some(14));
    expect_complete(&case, &case.view());
}

#[test]
fn root_template_changes_and_absence_are_fingerprinted() {
    let root = NodePathV1::root();
    let cases = [
        (Some(TemplateNodeId(1)), FingerprintSummaryV1::Template(TemplateNodeId(1))),
        (None, FingerprintSummaryV1::Absent),
    ];
    for (observed, observed_summary) in cases {
        let case = ObservationCase::initial();
        let mut view = case.view();
        entry(&mut view, case.node(&root)).template = observed;
        assert_state_mismatch(
            case.observe(&view),
            FingerprintLocationV1::Node(root.clone()),
            FingerprintFieldV1::Template,
            FingerprintSummaryV1::Template(TemplateNodeId(0)),
            observed_summary,
        );
    }
}

#[test]
fn root_component_changes_and_absence_are_fingerprinted() {
    let root = NodePathV1::root();
    let cases = [
        (Some(ComponentId(1)), FingerprintSummaryV1::Component(ComponentId(1))),
        (None, FingerprintSummaryV1::Absent),
    ];
    for (observed, observed_summary) in cases {
        let case = ObservationCase::initial();
        let mut view = case.view();
        entry(&mut view, case.node(&root)).component = observed;
        assert_state_mismatch(
            case.observe(&view),
            FingerprintLocationV1::Node(root.clone()),
            FingerprintFieldV1::Component,
            FingerprintSummaryV1::Component(ComponentId(0)),
            observed_summary,
        );
    }
}

#[test]
fn root_property_changes_and_absence_are_fingerprinted() {
    let root = NodePathV1::root();
    let property = PropertyId(0);
    let cases = [
        (
            Some(PropertyValue::ScalarI32(121)),
            FingerprintSummaryV1::Property(property, PropertyValue::ScalarI32(121)),
        ),
        (None, FingerprintSummaryV1::Absent),
    ];
    for (observed, observed_summary) in cases {
        let case = ObservationCase::initial();
        let mut view = case.view();
        let node = entry(&mut view, case.node(&root));
        match observed {
            Some(value) => node.properties[0].1 = value,
            None => {
                node.properties.remove(0);
            }
        }
        assert_state_mismatch(
            case.observe(&view),
            FingerprintLocationV1::Node(root.clone()),
            FingerprintFieldV1::Property,
            FingerprintSummaryV1::Property(property, PropertyValue::ScalarI32(120)),
            observed_summary,
        );
    }
}

#[test]
fn static_child_parent_absence_and_known_difference_are_fingerprinted() {
    let root = NodePathV1::root();
    let child = root.clone().static_child(0);
    let other_parent = root.clone().member(1, 7);
    let cases = [
        (None, FingerprintSummaryV1::Absent),
        (Some(other_parent.clone()), FingerprintSummaryV1::Node(other_parent)),
    ];
    for (observed, observed_summary) in cases {
        let case = ObservationCase::initial();
        let mut view = case.view();
        let parent = observed.as_ref().map(|path| case.node(path));
        entry(&mut view, case.node(&child)).parent = parent;
        assert_state_mismatch(
            case.observe(&view),
            FingerprintLocationV1::Node(child.clone()),
            FingerprintFieldV1::Parent,
            FingerprintSummaryV1::Node(root.clone()),
            observed_summary,
        );
    }
}

#[test]
fn hidden_empty_fragment_binding_is_fingerprinted() {
    let case = ObservationCase::with_empty_root_fragments();
    let primary = FragmentPathV1::new(NodePathV1::root(), 1);
    let secondary = FragmentPathV1::new(NodePathV1::root(), 2);

    assert_eq!(case.expected.node_count(), 2);
    assert_eq!(case.expected.fragment_count(), 2);
    assert_eq!(case.expected.property_slot_count(), Some(5));
    for fragment in [&primary, &secondary] {
        assert!(case.expected.fragment(fragment).expect("empty root fragment should remain bound").members.is_empty());
    }
    expect_complete(&case, &case.view());

    let mut view = case.view();
    fragment_entry(&mut view, case.fragment(&secondary)).owner = NodeId(999);
    assert_state_mismatch(
        case.observe(&view),
        FingerprintLocationV1::Fragment(secondary),
        FingerprintFieldV1::FragmentBinding,
        FingerprintSummaryV1::BindingPresent,
        FingerprintSummaryV1::BindingAbsent,
    );
}

#[test]
fn swapped_complete_keyed_pairs_are_fingerprinted() {
    let case = ObservationCase::initial();
    let primary = FragmentPathV1::new(NodePathV1::root(), 1);
    let mut view = case.view();
    fragment_entry(&mut view, case.fragment(&primary)).members.swap(0, 1);
    assert_state_mismatch(
        case.observe(&view),
        FingerprintLocationV1::Fragment(primary),
        FingerprintFieldV1::KeyedOrder,
        FingerprintSummaryV1::Keys(vec![7, 8]),
        FingerprintSummaryV1::Keys(vec![8, 7]),
    );
}

#[test]
fn swapped_known_flat_children_are_fingerprinted() {
    let case = ObservationCase::initial();
    let root = NodePathV1::root();
    let static_child = root.clone().static_child(0);
    let member_seven = root.clone().member(1, 7);
    let member_eight = root.clone().member(1, 8);
    let secondary_member = root.clone().member(2, 7);
    let mut view = case.view();
    entry(&mut view, case.node(&root)).children.as_mut().unwrap().swap(1, 2);
    assert_state_mismatch(
        case.observe(&view),
        FingerprintLocationV1::Node(root),
        FingerprintFieldV1::ChildOrder,
        FingerprintSummaryV1::Nodes(vec![
            static_child.clone(),
            member_seven.clone(),
            member_eight.clone(),
            secondary_member.clone(),
        ]),
        FingerprintSummaryV1::Nodes(vec![static_child, member_eight, member_seven, secondary_member]),
    );
}

#[test]
fn keyed_order_precedes_a_later_flat_child_difference() {
    let case = ObservationCase::initial();
    let root = NodePathV1::root();
    let primary = FragmentPathV1::new(root.clone(), 1);
    let mut view = case.view();
    fragment_entry(&mut view, case.fragment(&primary)).members.swap(0, 1);
    entry(&mut view, case.node(&root)).children.as_mut().unwrap().swap(2, 3);
    assert_state_mismatch(
        case.observe(&view),
        FingerprintLocationV1::Fragment(primary),
        FingerprintFieldV1::KeyedOrder,
        FingerprintSummaryV1::Keys(vec![7, 8]),
        FingerprintSummaryV1::Keys(vec![8, 7]),
    );
}

#[test]
fn last_node_property_precedes_fragment_and_child_differences() {
    let case = ObservationCase::initial();
    let root = NodePathV1::root();
    let primary = FragmentPathV1::new(root.clone(), 1);
    let last_node = root.clone().member(2, 7);
    let property = PropertyId(0);
    let mut view = case.view();
    fragment_entry(&mut view, case.fragment(&primary)).members.swap(0, 1);
    entry(&mut view, case.node(&root)).children.as_mut().unwrap().swap(2, 3);
    entry(&mut view, case.node(&last_node)).properties[0].1 = PropertyValue::ScalarI32(21);
    assert_state_mismatch(
        case.observe(&view),
        FingerprintLocationV1::Node(last_node),
        FingerprintFieldV1::Property,
        FingerprintSummaryV1::Property(property, PropertyValue::ScalarI32(20)),
        FingerprintSummaryV1::Property(property, PropertyValue::ScalarI32(21)),
    );
}

#[test]
fn individual_reported_counts_are_fingerprinted() {
    let cases = [
        ((10, 4, 14), FingerprintFieldV1::NodeCount, 9, 10),
        ((9, 5, 14), FingerprintFieldV1::FragmentCount, 4, 5),
        ((9, 4, 15), FingerprintFieldV1::PropertyCount, 14, 15),
    ];
    for ((nodes, fragments, properties), field, expected, observed) in cases {
        let case = ObservationCase::initial();
        let mut view = case.view();
        report_counts(&mut view, nodes, fragments, properties);
        assert_state_mismatch(
            case.observe(&view),
            FingerprintLocationV1::Global,
            field,
            FingerprintSummaryV1::Count(expected),
            FingerprintSummaryV1::Count(observed),
        );
    }
}

#[test]
fn node_count_precedes_other_reported_count_differences() {
    let case = ObservationCase::initial();
    let mut view = case.view();
    report_counts(&mut view, 10, 5, 15);
    assert_state_mismatch(
        case.observe(&view),
        FingerprintLocationV1::Global,
        FingerprintFieldV1::NodeCount,
        FingerprintSummaryV1::Count(9),
        FingerprintSummaryV1::Count(10),
    );
}

#[test]
fn child_order_precedes_all_reported_count_differences() {
    let case = ObservationCase::initial();
    let root = NodePathV1::root();
    let static_child = root.clone().static_child(0);
    let member_seven = root.clone().member(1, 7);
    let member_eight = root.clone().member(1, 8);
    let secondary_member = root.clone().member(2, 7);
    let mut view = case.view();
    entry(&mut view, case.node(&root)).children.as_mut().unwrap().swap(1, 2);
    report_counts(&mut view, 10, 5, 15);
    assert_state_mismatch(
        case.observe(&view),
        FingerprintLocationV1::Node(root),
        FingerprintFieldV1::ChildOrder,
        FingerprintSummaryV1::Nodes(vec![
            static_child.clone(),
            member_seven.clone(),
            member_eight.clone(),
            secondary_member.clone(),
        ]),
        FingerprintSummaryV1::Nodes(vec![static_child, member_eight, member_seven, secondary_member]),
    );
}

#[test]
fn inclusive_reported_count_ceilings_remain_fingerprintable() {
    let cases = [
        ((256, 4, 14), FingerprintFieldV1::NodeCount, 9, 256),
        ((9, 128, 14), FingerprintFieldV1::FragmentCount, 4, 128),
        ((9, 4, 1_024), FingerprintFieldV1::PropertyCount, 14, 1_024),
    ];
    for ((nodes, fragments, properties), field, expected, observed) in cases {
        let case = ObservationCase::initial();
        let mut view = case.view();
        report_counts(&mut view, nodes, fragments, properties);
        assert_state_mismatch(
            case.observe(&view),
            FingerprintLocationV1::Global,
            field,
            FingerprintSummaryV1::Count(expected),
            FingerprintSummaryV1::Count(observed),
        );
    }
}

#[test]
fn reported_counts_above_their_ceilings_are_limits() {
    for ((nodes, fragments, properties), kind) in above_ceiling_counts() {
        let case = ObservationCase::initial();
        let mut view = case.view();
        report_counts(&mut view, nodes, fragments, properties);
        assert_limit(case.observe(&view), kind);
    }
}

#[test]
fn reported_count_limits_precede_an_early_template_mismatch() {
    for ((nodes, fragments, properties), kind) in above_ceiling_counts() {
        let case = ObservationCase::initial();
        let mut view = case.view();
        report_counts(&mut view, nodes, fragments, properties);
        entry(&mut view, case.node(&NodePathV1::root())).template = Some(TemplateNodeId(1));
        assert_limit(case.observe(&view), kind);
    }
}

#[test]
fn live_membership_limit_precedes_raw_child_count_limit() {
    let case = ObservationCase::initial();
    let root = NodePathV1::root();
    let primary = FragmentPathV1::new(root.clone(), 1);
    let mut view = case.view();
    report_child_count(&mut view, case.node(&root), 257);
    report_keyed_count(&mut view, case.fragment(&primary), 13);
    assert_limit(case.observe(&view), HarnessLimitKind::LiveMemberships);
}

#[test]
fn raw_child_count_above_the_ceiling_is_a_node_limit() {
    let case = ObservationCase::initial();
    let mut view = case.view();
    report_child_count(&mut view, case.node(&NodePathV1::root()), 257);
    assert_limit(case.observe(&view), HarnessLimitKind::NormalizedNodes);
}

#[test]
fn live_membership_limit_precedes_reported_node_count_limit() {
    let case = ObservationCase::initial();
    let primary = FragmentPathV1::new(NodePathV1::root(), 1);
    let mut view = case.view();
    report_keyed_count(&mut view, case.fragment(&primary), 13);
    report_counts(&mut view, 257, 4, 14);
    assert_limit(case.observe(&view), HarnessLimitKind::LiveMemberships);
}

#[test]
fn coherent_node_alias_preserves_state_and_reports_the_target_path() {
    let case = ObservationCase::initial();
    let source = NodePathV1::root().member(1, 7);
    let target = NodePathV1::root().member(1, 8);
    let mut view = case.view();
    alias_node(&mut view, case.node(&source), case.node(&target));
    let observed = expect_complete(&case, &view);
    assert_alias(&observed, FingerprintLocationV1::Node(target));
}

#[test]
fn coherent_empty_fragment_alias_preserves_state_and_reports_the_target_path() {
    let case = ObservationCase::with_empty_root_fragments();
    let source = FragmentPathV1::new(NodePathV1::root(), 1);
    let target = FragmentPathV1::new(NodePathV1::root(), 2);
    let mut view = case.view();
    let source_handle = case.fragment(&source);
    fragment_entry(&mut view, case.fragment(&target)).id = source_handle;
    let observed = expect_complete(&case, &view);
    assert_alias(&observed, FingerprintLocationV1::Fragment(target));
}

#[test]
fn bound_handles_follow_the_snapshot() {
    let case = ObservationCase::initial();
    let observed = expect_complete(&case, &case.view());
    let member = NodePathV1::root().member(1, 8).member(1, 5);
    assert_eq!(observed.identities().node(&member), Some(case.node(&member)));
    assert_eq!(observed.identities().nodes_in_authored_order().len(), 9);
    assert_eq!(observed.identities().fragments_in_authored_order().len(), 4);
}

#[test]
fn identity_iteration_preserves_authored_member_order() {
    let construction = construction();
    let moved = DesiredStateV1 {
        construction_domain: DOMAIN,
        property_overrides: vec![],
        region_keys: vec![(FragmentPathV1::new(NodePathV1::root(), 1), vec![9, 7, 8])],
    };
    let state = clean_rebuild_v1(&construction, &moved, limits()).expect("the moved state rebuilds");
    let snapshot = committed(&state);
    let observed = observe_snapshot_indexed_v1(&construction, &snapshot, limits())
        .expect("snapshot should observe");
    let authored: Vec<NodePathV1> = observed
        .identities()
        .nodes_in_authored_order()
        .iter()
        .map(|(path, _)| path.clone())
        .collect();
    let member_9 = NodePathV1::root().member(1, 9);
    let member_7 = NodePathV1::root().member(1, 7);
    let member_8 = NodePathV1::root().member(1, 8);
    let position = |path: &NodePathV1| {
        authored.iter().position(|candidate| candidate == path).expect("member path should be observed")
    };

    assert!(position(&member_9) < position(&member_7));
    assert!(position(&member_7) < position(&member_8));
}
