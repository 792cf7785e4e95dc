use fenestra_ui_testkit::case::{PropertyId, PropertyValue, PropertyValueType};
use fenestra_ui_testkit::error::{HarnessErrorKind, HarnessLimitKind};
use fenestra_ui_testkit::fixture::HarnessLimitsV1;
use fenestra_ui_testkit::model::rebuild::clean_rebuild_v1;
use fenestra_ui_testkit::model::{
    ChildFactoryV1, ComponentId, ConstructionModelV1, DesiredStateV1, NormalizedChildGroupV1,
    NormalizedStateV1, PropertySlotV1, RegionModelV1, StructuralRegionId, TemplateModelV1, TemplateNodeId,
};
use fenestra_ui_testkit::semantic::{FragmentPathV1, NodePathV1, PathSegmentV1};

const DOMAIN: u64 = 41;

fn limits() -> HarnessLimitsV1 {
    HarnessLimitsV1 {
        transactions: 8,
        operations_per_transaction: 2,
        operations: 10,
        live_memberships: 16,
        path_depth: 8,
        normalized_nodes: 64,
        normalized_fragments: 16,
        normalized_properties: 256,
        applicable_actions: 64,
        trace_bytes: 4096,
    }
}

/// A root with two properties, a static child and a keyed region whose
/// members are built from the leaf template.
fn construction() -> ConstructionModelV1 {
    ConstructionModelV1 {
        domain: DOMAIN,
        root: TemplateNodeId(0),
        templates: vec![
            TemplateModelV1 {
                id: TemplateNodeId(0),
                component: ComponentId(7),
                properties: vec![
                    slot(1, PropertyValue::ScalarI32(5)),
                    slot(2, PropertyValue::Bool(true)),
                ],
                children: vec![
                    ChildFactoryV1::Static { template: TemplateNodeId(1) },
                    ChildFactoryV1::Region { region: StructuralRegionId(10) },
                ],
            },
            TemplateModelV1 {
                id: TemplateNodeId(1),
                component: ComponentId(8),
                properties: vec![slot(3, PropertyValue::ScalarI32(0))],
                children: vec![],
            },
        ],
        regions: vec![RegionModelV1 {
            id: StructuralRegionId(10),
            initial_keys: vec![3, 4],
            repeat_body: TemplateNodeId(1),
        }],
    }
}

fn slot(id: u32, value: PropertyValue) -> PropertySlotV1 {
    PropertySlotV1 { id: PropertyId(id), value_type: value.value_type(), effective: Some(value) }
}

fn untouched() -> DesiredStateV1 {
    DesiredStateV1 { construction_domain: DOMAIN, property_overrides: vec![], region_keys: vec![] }
}

fn segments(path: &NodePathV1) -> Vec<PathSegmentV1> {
    path.segments().to_vec()
}

fn member(key: u64) -> Vec<PathSegmentV1> {
    vec![PathSegmentV1::Member { region_slot: 1, key }]
}

fn rebuilt(construction: &ConstructionModelV1, desired: &DesiredStateV1) -> NormalizedStateV1 {
    clean_rebuild_v1(construction, desired, limits()).expect("the rebuild succeeds")
}

fn failure(
    construction: &ConstructionModelV1,
    desired: &DesiredStateV1,
    limits: HarnessLimitsV1,
) -> HarnessErrorKind {
    let error = clean_rebuild_v1(construction, desired, limits).expect_err("the rebuild fails");
    assert_eq!(error.transaction(), None);
    assert_eq!(error.operation(), None);
    error.kind()
}

#[test]
fn rebuild_lists_nodes_in_authored_depth_first_order() {
    let state = rebuilt(&construction(), &untouched());
    let paths: Vec<Vec<PathSegmentV1>> = state.nodes.iter().map(|node| segments(&node.path)).collect();
    assert_eq!(
        paths,
        vec![
            vec![],
            vec![PathSegmentV1::Static { authored_slot: 0 }],
            member(3),
            member(4),
        ]
    );
    assert_eq!(state.nodes[0].parent.as_ref().map(segments), None);
    assert_eq!(state.nodes[1].parent.as_ref().map(segments), Some(vec![]));
    assert_eq!(state.nodes[2].parent.as_ref().map(segments), Some(vec![]));
    assert_eq!(state.nodes[0].template, TemplateNodeId(0));
    assert_eq!(state.nodes[0].component, ComponentId(7));
    assert_eq!(state.nodes[3].template, TemplateNodeId(1));
    assert_eq!(state.nodes[3].component, ComponentId(8));
    assert_eq!(
        state.nodes[0].properties,
        vec![
            (PropertyId(1), PropertyValue::ScalarI32(5)),
            (PropertyId(2), PropertyValue::Bool(true)),
        ]
    );
    assert_eq!(state.nodes[0].child_groups.len(), 2);
    match &state.nodes[0].child_groups[0] {
        NormalizedChildGroupV1::Static(path) => {
            assert_eq!(segments(path), vec![PathSegmentV1::Static { authored_slot: 0 }])
        }
        NormalizedChildGroupV1::Region(_) => panic!("slot 0 is static"),
    }
    match &state.nodes[0].child_groups[1] {
        NormalizedChildGroupV1::Region(path) => {
            assert_eq!(segments(path.owner()), Vec::<PathSegmentV1>::new());
            assert_eq!(path.region_slot(), 1);
        }
        NormalizedChildGroupV1::Static(_) => panic!("slot 1 is a region"),
    }
    assert_eq!(state.fragments.len(), 1);
    assert_eq!(state.fragments[0].descriptor, StructuralRegionId(10));
    let keys: Vec<u64> = state.fragments[0].members.iter().map(|member| member.0).collect();
    assert_eq!(keys, vec![3, 4]);
    assert_eq!(segments(&state.fragments[0].members[1].1), member(4));
}

#[test]
fn rebuild_applies_desired_overrides_and_keys() {
    let desired = DesiredStateV1 {
        construction_domain: DOMAIN,
        property_overrides: vec![
            ((NodePathV1::root(), PropertyId(2)), PropertyValue::Bool(false)),
            ((NodePathV1::root().member(1, 9), PropertyId(3)), PropertyValue::ScalarI32(-4)),
        ],
        region_keys: vec![(FragmentPathV1::new(NodePathV1::root(), 1), vec![9, 2])],
    };
    let state = rebuilt(&construction(), &desired);
    assert_eq!(
        state.nodes[0].properties,
        vec![
            (PropertyId(1), PropertyValue::ScalarI32(5)),
            (PropertyId(2), PropertyValue::Bool(false)),
        ]
    );
    let paths: Vec<Vec<PathSegmentV1>> = state.nodes.iter().map(|node| segments(&node.path)).collect();
    assert_eq!(paths[2], member(9));
    assert_eq!(paths[3], member(2));
    assert_eq!(state.nodes[2].properties, vec![(PropertyId(3), PropertyValue::ScalarI32(-4))]);
    assert_eq!(state.nodes[3].properties, vec![(PropertyId(3), PropertyValue::ScalarI32(0))]);
}

#[test]
fn rebuild_refuses_a_desired_state_of_another_program() {
    let desired = DesiredStateV1 { construction_domain: DOMAIN + 1, ..untouched() };
    assert_eq!(failure(&construction(), &desired, limits()), HarnessErrorKind::InvalidSemanticPath);
}

#[test]
fn rebuild_refuses_an_override_no_node_consumes() {
    let desired = DesiredStateV1 {
        property_overrides: vec![(
            (NodePathV1::root().static_child(5), PropertyId(3)),
            PropertyValue::ScalarI32(1),
        )],
        ..untouched()
    };
    assert_eq!(failure(&construction(), &desired, limits()), HarnessErrorKind::InvalidSemanticPath);
    let keyed = DesiredStateV1 {
        region_keys: vec![(FragmentPathV1::new(NodePathV1::root(), 0), vec![1])],
        ..untouched()
    };
    assert_eq!(failure(&construction(), &keyed, limits()), HarnessErrorKind::InvalidSemanticPath);
}

#[test]
fn rebuild_refuses_repeated_region_keys() {
    let desired = DesiredStateV1 {
        region_keys: vec![(FragmentPathV1::new(NodePathV1::root(), 1), vec![6, 7, 6])],
        ..untouched()
    };
    assert_eq!(failure(&construction(), &desired, limits()), HarnessErrorKind::InvalidOperation);
}

#[test]
fn rebuild_enforces_each_ceiling() {
    let construction = construction();
    let desired = untouched();
    let nodes = HarnessLimitsV1 { normalized_nodes: 3, ..limits() };
    assert_eq!(
        failure(&construction, &desired, nodes),
        HarnessErrorKind::LimitExceeded(HarnessLimitKind::NormalizedNodes)
    );
    let fragments = HarnessLimitsV1 { normalized_fragments: 0, ..limits() };
    assert_eq!(
        failure(&construction, &desired, fragments),
        HarnessErrorKind::LimitExceeded(HarnessLimitKind::NormalizedFragments)
    );
    let properties = HarnessLimitsV1 { normalized_properties: 3, ..limits() };
    assert_eq!(
        failure(&construction, &desired, properties),
        HarnessErrorKind::LimitExceeded(HarnessLimitKind::NormalizedProperties)
    );
    let memberships = HarnessLimitsV1 { live_memberships: 1, ..limits() };
    assert_eq!(
        failure(&construction, &desired, memberships),
        HarnessErrorKind::LimitExceeded(HarnessLimitKind::LiveMemberships)
    );
    let depth = HarnessLimitsV1 { path_depth: 0, ..limits() };
    assert_eq!(
        failure(&construction, &desired, depth),
        HarnessErrorKind::LimitExceeded(HarnessLimitKind::PathDepth)
    );
    let exact = HarnessLimitsV1 {
        normalized_nodes: 4,
        normalized_fragments: 1,
        normalized_properties: 5,
        live_memberships: 2,
        path_depth: 1,
        ..limits()
    };
    assert_eq!(clean_rebuild_v1(&construction, &desired, exact).unwrap().nodes.len(), 4);
}

#[test]
fn rebuild_stops_a_self_nesting_template_at_the_depth_ceiling() {
    let mut construction = construction();
    construction.templates[1].children = vec![ChildFactoryV1::Static { template: TemplateNodeId(1) }];
    assert_eq!(
        failure(&construction, &untouched(), limits()),
        HarnessErrorKind::LimitExceeded(HarnessLimitKind::PathDepth)
    );
}

#[test]
fn rebuild_reports_a_program_that_names_what_it_lacks() {
    let mut missing_template = construction();
    missing_template.regions[0].repeat_body = TemplateNodeId(5);
    assert_eq!(failure(&missing_template, &untouched(), limits()), HarnessErrorKind::StateMismatch);
    let mut missing_region = construction();
    missing_region.regions[0].id = StructuralRegionId(11);
    assert_eq!(failure(&missing_region, &untouched(), limits()), HarnessErrorKind::StateMismatch);
    let mut missing_value = construction();
    missing_value.templates[0].properties[1].effective = None;
    assert_eq!(missing_value.templates[0].properties[1].value_type, PropertyValueType::Bool);
    assert_eq!(failure(&missing_value, &untouched(), limits()), HarnessErrorKind::StateMismatch);
    let overridden = DesiredStateV1 {
        property_overrides: vec![((NodePathV1::root(), PropertyId(2)), PropertyValue::Bool(true))],
        ..untouched()
    };
    assert_eq!(rebuilt(&missing_value, &overridden).nodes.len(), 4);
}

#[test]
fn rebuilt_paths_are_distinct() {
    let desired = DesiredStateV1 {
        region_keys: vec![(FragmentPathV1::new(NodePathV1::root(), 1), vec![1, 2, 3, 4])],
        ..untouched()
    };
    let state = rebuilt(&construction(), &desired);
    for (i, left) in state.nodes.iter().enumerate() {
        for right in state.nodes.iter().skip(i + 1) {
            assert_ne!(segments(&left.path), segments(&right.path));
        }
    }
    assert_eq!(state.nodes.len(), 6);
}
