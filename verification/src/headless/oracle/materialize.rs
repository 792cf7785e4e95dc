//! Materializing one node's computed style from the desired state, the style
//! sheet's assignments and the templates' effective values.

use vstd::prelude::*;

use crate::case::{InputPolicy, PropertyId, PropertyValue, Rgba8};
use crate::error::{HarnessError, HarnessErrorKind};
use crate::headless::oracle::NormalizedHeadlessComputedStyleV1;
use crate::identity::{lemma_lookup_prefix, lemma_lookup_take_step, lookup};
use crate::model::rebuild::{find_override, find_template};
use crate::model::{
    DesiredStateV1, PropertySlotV1, TemplateModelV1, TemplateNodeId, first_index,
    override_entries, template_ids,
};
use crate::semantic::{NodePathV1, PathSegmentV1};

verus! {

/// One assignment of the style sheet: a template's property and the value
/// that replaces its effective value.
pub type StyleAssignmentV1 = ((TemplateNodeId, PropertyId), PropertyValue);

/// The properties a computed style reads.
#[derive(Clone, Copy, Debug, PartialEq, Eq, Structural)]
pub struct StylePropertiesV1 {
    pub width: PropertyId,
    pub height: PropertyId,
    pub color: PropertyId,
    pub visible: PropertyId,
    pub input: PropertyId,
}

/// The slots of a template as property and effective value.
pub open spec fn slot_entries(slots: Seq<PropertySlotV1>) -> Seq<(PropertyId, Option<PropertyValue>)> {
    slots.map_values(|slot: PropertySlotV1| (slot.id, slot.effective))
}

/// The effective value a template declares for a property, if it declares
/// one: the first template with the identifier, and its first slot for the
/// property.
pub open spec fn effective_value(
    templates: Seq<TemplateModelV1>,
    template: TemplateNodeId,
    property: PropertyId,
) -> Option<PropertyValue> {
    match first_index(template_ids(templates), template) {
        Some(index) => match lookup(slot_entries(templates[index].properties@), property) {
            Some(effective) => effective,
            None => None,
        },
        None => None,
    }
}

/// The value a node has for a property: the desired override for its path,
/// else the style sheet's assignment for its template, else the template's
/// effective value.
pub open spec fn node_value(
    overrides: Seq<((Seq<PathSegmentV1>, PropertyId), PropertyValue)>,
    assignments: Seq<StyleAssignmentV1>,
    templates: Seq<TemplateModelV1>,
    path: Seq<PathSegmentV1>,
    template: TemplateNodeId,
    property: PropertyId,
) -> Option<PropertyValue> {
    match lookup(overrides, (path, property)) {
        Some(value) => Some(value),
        None => match lookup(assignments, (template, property)) {
            Some(value) => Some(value),
            None => effective_value(templates, template, property),
        },
    }
}

/// A desired override for the node's path and property wins over the style
/// sheet, and a style-sheet assignment for its template wins over the
/// template's own effective value.
pub proof fn lemma_node_value_precedence(
    overrides: Seq<((Seq<PathSegmentV1>, PropertyId), PropertyValue)>,
    assignments: Seq<StyleAssignmentV1>,
    templates: Seq<TemplateModelV1>,
    path: Seq<PathSegmentV1>,
    template: TemplateNodeId,
    property: PropertyId,
)
    ensures
        lookup(overrides, (path, property)) matches Some(value) ==> node_value(
            overrides,
            assignments,
            templates,
            path,
            template,
            property,
        ) == Some(value),
        lookup(overrides, (path, property)) is None ==> (lookup(assignments, (template, property))
            matches Some(value) ==> node_value(
            overrides,
            assignments,
            templates,
            path,
            template,
            property,
        ) == Some(value)),
        lookup(overrides, (path, property)) is None && lookup(assignments, (template, property))
            is None ==> node_value(overrides, assignments, templates, path, template, property)
            == effective_value(templates, template, property),
{
}

/// A node's computed style: width, height, color, visibility and input
/// policy, each of its own type, or `None` where one is missing or of another
/// type.
pub open spec fn materialized(
    overrides: Seq<((Seq<PathSegmentV1>, PropertyId), PropertyValue)>,
    assignments: Seq<StyleAssignmentV1>,
    templates: Seq<TemplateModelV1>,
    properties: StylePropertiesV1,
    path: Seq<PathSegmentV1>,
    template: TemplateNodeId,
) -> Option<(i32, i32, Rgba8, bool, InputPolicy)> {
    let value = |property: PropertyId|
        node_value(overrides, assignments, templates, path, template, property);
    match (
        value(properties.width),
        value(properties.height),
        value(properties.color),
        value(properties.visible),
        value(properties.input),
    ) {
        (
            Some(PropertyValue::ScalarI32(width)),
            Some(PropertyValue::ScalarI32(height)),
            Some(PropertyValue::Rgba8(color)),
            Some(PropertyValue::Bool(visible)),
            Some(PropertyValue::InputPolicy(input)),
        ) => Some((width, height, color, visible, input)),
        _ => None,
    }
}

fn find_assignment(
    assignments: &Vec<StyleAssignmentV1>,
    template: TemplateNodeId,
    property: PropertyId,
) -> (value: Option<PropertyValue>)
    ensures
        value == lookup(assignments@, (template, property)),
{
    let ghost entries = assignments@;
    let mut index: usize = 0;
    while index < assignments.len()
        invariant
            index <= assignments.len(),
            entries == assignments@,
            lookup(entries.take(index as int), (template, property)).is_none(),
        decreases assignments.len() - index,
    {
        proof {
            lemma_lookup_take_step(entries, index as int, (template, property));
        }
        let ((found_template, found_property), value) = assignments[index];
        if found_template.0 == template.0 && found_property.0 == property.0 {
            proof {
                lemma_lookup_prefix(entries, index as int + 1, (template, property));
            }
            return Some(value);
        }
        index = index + 1;
    }
    assert(entries.take(index as int) =~= entries);
    None
}

fn find_effective(slots: &Vec<PropertySlotV1>, property: PropertyId) -> (value: Option<
    PropertyValue,
>)
    ensures
        value == match lookup(slot_entries(slots@), property) {
            Some(effective) => effective,
            None => None,
        },
{
    let ghost entries = slot_entries(slots@);
    let mut index: usize = 0;
    while index < slots.len()
        invariant
            index <= slots.len(),
            entries == slot_entries(slots@),
            lookup(entries.take(index as int), property).is_none(),
        decreases slots.len() - index,
    {
        proof {
            lemma_lookup_take_step(entries, index as int, property);
        }
        if slots[index].id.0 == property.0 {
            proof {
                lemma_lookup_prefix(entries, index as int + 1, property);
            }
            return slots[index].effective;
        }
        index = index + 1;
    }
    assert(entries.take(index as int) =~= entries);
    None
}

/// The value a node has for a property.
fn value_of(
    desired: &DesiredStateV1,
    assignments: &Vec<StyleAssignmentV1>,
    templates: &Vec<TemplateModelV1>,
    path: &NodePathV1,
    template: TemplateNodeId,
    property: PropertyId,
) -> (value: Option<PropertyValue>)
    ensures
        value == node_value(
            override_entries(desired.property_overrides@),
            assignments@,
            templates@,
            path@,
            template,
            property,
        ),
{
    match find_override(&desired.property_overrides, path, property) {
        Some(value) => return Some(value),
        None => {},
    }
    match find_assignment(assignments, template, property) {
        Some(value) => return Some(value),
        None => {},
    }
    match find_template(templates, template) {
        Some(index) => find_effective(&templates[index].properties, property),
        None => None,
    }
}

/// Materializes one node's computed style. Each property takes the desired
/// override for the node's path, else the style sheet's assignment for its
/// template, else the template's effective value; a property that has none,
/// or a value of another type, is a state mismatch.
pub fn materialize_style_v1(
    desired: &DesiredStateV1,
    assignments: &Vec<StyleAssignmentV1>,
    templates: &Vec<TemplateModelV1>,
    properties: StylePropertiesV1,
    path: &NodePathV1,
    template: TemplateNodeId,
) -> (result: Result<NormalizedHeadlessComputedStyleV1, HarnessError>)
    ensures
        match materialized(
            override_entries(desired.property_overrides@),
            assignments@,
            templates@,
            properties,
            path@,
            template,
        ) {
            Some((width, height, color, visible, input)) => result matches Ok(style)
                && style.path@ == path@ && style.width == width && style.height == height
                && style.color == color && style.visible == visible && style.input == input,
            None => result matches Err(error) && error.is_unlocated(
                HarnessErrorKind::StateMismatch,
            ),
        },
{
    let width = value_of(desired, assignments, templates, path, template, properties.width);
    let height = value_of(desired, assignments, templates, path, template, properties.height);
    let color = value_of(desired, assignments, templates, path, template, properties.color);
    let visible = value_of(desired, assignments, templates, path, template, properties.visible);
    let input = value_of(desired, assignments, templates, path, template, properties.input);
    match (width, height, color, visible, input) {
        (
            Some(PropertyValue::ScalarI32(width)),
            Some(PropertyValue::ScalarI32(height)),
            Some(PropertyValue::Rgba8(color)),
            Some(PropertyValue::Bool(visible)),
            Some(PropertyValue::InputPolicy(input)),
        ) => Ok(
            NormalizedHeadlessComputedStyleV1 {
                path: path.clone(),
                width,
                height,
                color,
                visible,
                input,
            },
        ),
        _ => Err(HarnessError::new(HarnessErrorKind::StateMismatch)),
    }
}

} // verus!
