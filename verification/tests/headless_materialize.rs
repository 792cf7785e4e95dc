use fenestra_ui_testkit::case::{InputPolicy, PropertyId, PropertyValue, PropertyValueType, Rgba8};
use fenestra_ui_testkit::error::HarnessErrorKind;
use fenestra_ui_testkit::headless::oracle::materialize::{StylePropertiesV1, materialize_style_v1};
use fenestra_ui_testkit::model::{
    ComponentId, DesiredStateV1, PropertySlotV1, TemplateModelV1, TemplateNodeId,
};
use fenestra_ui_testkit::semantic::NodePathV1;

fn properties() -> StylePropertiesV1 {
    StylePropertiesV1 {
        width: PropertyId::new(0),
        height: PropertyId::new(1),
        color: PropertyId::new(2),
        visible: PropertyId::new(3),
        input: PropertyId::new(4),
    }
}

fn slot(id: u32, value: PropertyValue) -> PropertySlotV1 {
    PropertySlotV1 {
        id: PropertyId::new(id),
        value_type: match value {
            PropertyValue::ScalarI32(_) => PropertyValueType::ScalarI32,
            PropertyValue::Bool(_) => PropertyValueType::Bool,
            PropertyValue::Rgba8(_) => PropertyValueType::Rgba8,
            PropertyValue::InputPolicy(_) => PropertyValueType::InputPolicy,
        },
        effective: Some(value),
    }
}

fn templates() -> Vec<TemplateModelV1> {
    vec![TemplateModelV1 {
        id: TemplateNodeId(5),
        component: ComponentId(1),
        properties: vec![
            slot(0, PropertyValue::ScalarI32(10)),
            slot(1, PropertyValue::ScalarI32(20)),
            slot(2, PropertyValue::Rgba8(Rgba8(1, 2, 3, 4))),
            slot(3, PropertyValue::Bool(true)),
            slot(4, PropertyValue::InputPolicy(InputPolicy::Ignore)),
        ],
        children: Vec::new(),
    }]
}

fn desired(overrides: Vec<((NodePathV1, PropertyId), PropertyValue)>) -> DesiredStateV1 {
    DesiredStateV1 { construction_domain: 0, property_overrides: overrides, region_keys: Vec::new() }
}

#[test]
fn overrides_precede_style_assignments_which_precede_effective_values() {
    let desired = desired(vec![((NodePathV1::root(), PropertyId::new(0)), PropertyValue::ScalarI32(7))]);
    let assignments = vec![
        ((TemplateNodeId(5), PropertyId::new(0)), PropertyValue::ScalarI32(99)),
        ((TemplateNodeId(5), PropertyId::new(1)), PropertyValue::ScalarI32(30)),
        ((TemplateNodeId(6), PropertyId::new(3)), PropertyValue::Bool(false)),
    ];
    let style = materialize_style_v1(
        &desired,
        &assignments,
        &templates(),
        properties(),
        &NodePathV1::root(),
        TemplateNodeId(5),
    )
    .unwrap();
    assert_eq!(style.width, 7);
    assert_eq!(style.height, 30);
    assert_eq!(style.color, Rgba8(1, 2, 3, 4));
    assert!(style.visible);
    assert_eq!(style.input, InputPolicy::Ignore);
}

#[test]
fn a_value_of_another_type_is_a_state_mismatch() {
    let desired = desired(vec![((NodePathV1::root(), PropertyId::new(3)), PropertyValue::ScalarI32(1))]);
    let error = materialize_style_v1(
        &desired,
        &Vec::new(),
        &templates(),
        properties(),
        &NodePathV1::root(),
        TemplateNodeId(5),
    )
    .unwrap_err();
    assert_eq!(error.kind(), HarnessErrorKind::StateMismatch);
}

#[test]
fn an_unknown_template_has_no_values() {
    let error = materialize_style_v1(
        &desired(Vec::new()),
        &Vec::new(),
        &templates(),
        properties(),
        &NodePathV1::root(),
        TemplateNodeId(9),
    )
    .unwrap_err();
    assert_eq!(error.kind(), HarnessErrorKind::StateMismatch);
}
