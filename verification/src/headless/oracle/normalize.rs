use vstd::prelude::*;

use crate::case::{InputPolicy, PropertyValue, Rgba8};
use crate::error::{HarnessError, HarnessErrorKind, HarnessLimitKind};
use crate::headless::geometry::{
    HeadlessRect, HeadlessSemanticAction, HeadlessSemanticRole, HeadlessSurface,
};
use crate::headless::oracle::{
    NormalizedHeadlessComputedStyleV1, NormalizedHeadlessGeometryV1, NormalizedHeadlessHitRegionV1,
    NormalizedHeadlessProjectionV1, NormalizedHeadlessSceneRectangleV1,
    NormalizedHeadlessSemanticV1,
};
use crate::identity::{IdentityIndexV1, IdentityIndexView, NodeId, reverse_lookup};
use crate::semantic::PathSegmentV1;

verus! {

/// One computed-style record as the runtime reports it: a node handle and
/// the values of the five styled properties, where present.
#[derive(Clone, Copy, Debug)]
pub struct RuntimeComputedStyleV1 {
    pub node: NodeId,
    pub width: Option<PropertyValue>,
    pub height: Option<PropertyValue>,
    pub color: Option<PropertyValue>,
    pub visible: Option<PropertyValue>,
    pub input: Option<PropertyValue>,
}

/// One geometry record as the runtime reports it.
#[derive(Clone, Copy, Debug)]
pub struct RuntimeGeometryV1 {
    pub node: NodeId,
    pub bounds: HeadlessRect,
    pub clip: HeadlessRect,
}

/// One semantic record as the runtime reports it.
#[derive(Clone, Copy, Debug)]
pub struct RuntimeSemanticV1 {
    pub node: NodeId,
    pub role: HeadlessSemanticRole,
    pub label: u32,
    pub action: HeadlessSemanticAction,
}

/// One hit region as the runtime reports it.
#[derive(Clone, Copy, Debug)]
pub struct RuntimeHitRegionV1 {
    pub node: NodeId,
    pub clip: HeadlessRect,
}

/// One scene rectangle as the runtime reports it.
#[derive(Clone, Copy, Debug)]
pub struct RuntimeSceneRectangleV1 {
    pub node: NodeId,
    pub rectangle: HeadlessRect,
    pub color: Rgba8,
}

/// A committed runtime projection, record families in runtime order.
#[derive(Debug)]
pub struct RuntimeHeadlessProjectionV1 {
    pub generation: u64,
    pub surface: HeadlessSurface,
    pub computed_styles: Vec<RuntimeComputedStyleV1>,
    pub geometries: Vec<RuntimeGeometryV1>,
    pub semantics: Vec<RuntimeSemanticV1>,
    pub hit_regions: Vec<RuntimeHitRegionV1>,
    pub scene_rectangles: Vec<RuntimeSceneRectangleV1>,
}

/// Inclusive record ceilings of the fixed projection specification.
#[derive(Clone, Copy, Debug, PartialEq, Eq, Structural)]
pub struct HeadlessProjectionCapacityV1 {
    pub computed_styles: usize,
    pub geometry: usize,
    pub semantics: usize,
    pub hit_regions: usize,
    pub scene_rectangles: usize,
}

/// Runtime generation carried separately from normalized projection identity.
#[derive(Debug)]
pub struct ObservedHeadlessProjectionV1 {
    pub generation: u64,
    pub projection: NormalizedHeadlessProjectionV1,
}

impl ObservedHeadlessProjectionV1 {
    /// Returns the committed runtime generation.
    pub fn generation(&self) -> (generation: u64)
        ensures
            generation == self.generation,
    {
        self.generation
    }

    /// Returns the identity-free projection.
    pub fn projection(&self) -> (projection: &NormalizedHeadlessProjectionV1)
        ensures
            projection == &self.projection,
    {
        &self.projection
    }
}

/// The semantic path indexed for a node handle.
pub open spec fn path_of(index: IdentityIndexView, node: NodeId) -> Option<Seq<PathSegmentV1>> {
    reverse_lookup(index.nodes, node)
}

/// A scalar property value.
pub open spec fn scalar_of(value: Option<PropertyValue>) -> Option<i32> {
    match value {
        Some(PropertyValue::ScalarI32(scalar)) => Some(scalar),
        _ => None,
    }
}

/// A boolean property value.
pub open spec fn boolean_of(value: Option<PropertyValue>) -> Option<bool> {
    match value {
        Some(PropertyValue::Bool(flag)) => Some(flag),
        _ => None,
    }
}

/// A color property value.
pub open spec fn color_of(value: Option<PropertyValue>) -> Option<Rgba8> {
    match value {
        Some(PropertyValue::Rgba8(color)) => Some(color),
        _ => None,
    }
}

/// An input-policy property value.
pub open spec fn input_of(value: Option<PropertyValue>) -> Option<InputPolicy> {
    match value {
        Some(PropertyValue::InputPolicy(policy)) => Some(policy),
        _ => None,
    }
}

/// A runtime record that normalizes into an identity-free record.
pub trait RuntimeRecordV1: Sized {
    type Normalized;

    /// Whether the record's node is indexed and its values are well typed.
    spec fn resolves(&self, index: IdentityIndexView) -> bool;

    /// Whether `normalized` is this record with its node replaced by its path.
    spec fn normalizes_to(&self, index: IdentityIndexView, normalized: &Self::Normalized) -> bool;

    /// Normalizes the record, or reports that it does not resolve.
    fn normalize(&self, identities: &IdentityIndexV1) -> (normalized: Option<Self::Normalized>)
        ensures
            match normalized {
                Some(record) => self.resolves(identities@) && self.normalizes_to(
                    identities@,
                    &record,
                ),
                None => !self.resolves(identities@),
            },
    ;
}

impl RuntimeRecordV1 for RuntimeComputedStyleV1 {
    type Normalized = NormalizedHeadlessComputedStyleV1;

    open spec fn resolves(&self, index: IdentityIndexView) -> bool {
        &&& path_of(index, self.node) is Some
        &&& scalar_of(self.width) is Some
        &&& scalar_of(self.height) is Some
        &&& color_of(self.color) is Some
        &&& boolean_of(self.visible) is Some
        &&& input_of(self.input) is Some
    }

    open spec fn normalizes_to(
        &self,
        index: IdentityIndexView,
        normalized: &NormalizedHeadlessComputedStyleV1,
    ) -> bool {
        &&& Some(normalized.path@) == path_of(index, self.node)
        &&& Some(normalized.width) == scalar_of(self.width)
        &&& Some(normalized.height) == scalar_of(self.height)
        &&& Some(normalized.color) == color_of(self.color)
        &&& Some(normalized.visible) == boolean_of(self.visible)
        &&& Some(normalized.input) == input_of(self.input)
    }

    fn normalize(&self, identities: &IdentityIndexV1) -> (normalized: Option<
        NormalizedHeadlessComputedStyleV1,
    >) {
        let path = match identities.node_path(self.node) {
            Some(path) => path.clone(),
            None => return None,
        };
        let width = match self.width {
            Some(PropertyValue::ScalarI32(value)) => value,
            _ => return None,
        };
        let height = match self.height {
            Some(PropertyValue::ScalarI32(value)) => value,
            _ => return None,
        };
        let color = match self.color {
            Some(PropertyValue::Rgba8(value)) => value,
            _ => return None,
        };
        let visible = match self.visible {
            Some(PropertyValue::Bool(value)) => value,
            _ => return None,
        };
        let input = match self.input {
            Some(PropertyValue::InputPolicy(value)) => value,
            _ => return None,
        };
        Some(NormalizedHeadlessComputedStyleV1 { path, width, height, color, visible, input })
    }
}

impl RuntimeRecordV1 for RuntimeGeometryV1 {
    type Normalized = NormalizedHeadlessGeometryV1;

    open spec fn resolves(&self, index: IdentityIndexView) -> bool {
        path_of(index, self.node) is Some
    }

    open spec fn normalizes_to(
        &self,
        index: IdentityIndexView,
        normalized: &NormalizedHeadlessGeometryV1,
    ) -> bool {
        &&& Some(normalized.path@) == path_of(index, self.node)
        &&& normalized.bounds == self.bounds
        &&& normalized.clip == self.clip
    }

    fn normalize(&self, identities: &IdentityIndexV1) -> (normalized: Option<
        NormalizedHeadlessGeometryV1,
    >) {
        match identities.node_path(self.node) {
            Some(path) => Some(
                NormalizedHeadlessGeometryV1 {
                    path: path.clone(),
                    bounds: self.bounds,
                    clip: self.clip,
                },
            ),
            None => None,
        }
    }
}

impl RuntimeRecordV1 for RuntimeSemanticV1 {
    type Normalized = NormalizedHeadlessSemanticV1;

    open spec fn resolves(&self, index: IdentityIndexView) -> bool {
        path_of(index, self.node) is Some
    }

    open spec fn normalizes_to(
        &self,
        index: IdentityIndexView,
        normalized: &NormalizedHeadlessSemanticV1,
    ) -> bool {
        &&& Some(normalized.path@) == path_of(index, self.node)
        &&& normalized.role == self.role
        &&& normalized.label == self.label
        &&& normalized.action == self.action
    }

    fn normalize(&self, identities: &IdentityIndexV1) -> (normalized: Option<
        NormalizedHeadlessSemanticV1,
    >) {
        match identities.node_path(self.node) {
            Some(path) => Some(
                NormalizedHeadlessSemanticV1 {
                    path: path.clone(),
                    role: self.role,
                    label: self.label,
                    action: self.action,
                },
            ),
            None => None,
        }
    }
}

impl RuntimeRecordV1 for RuntimeHitRegionV1 {
    type Normalized = NormalizedHeadlessHitRegionV1;

    open spec fn resolves(&self, index: IdentityIndexView) -> bool {
        path_of(index, self.node) is Some
    }

    open spec fn normalizes_to(
        &self,
        index: IdentityIndexView,
        normalized: &NormalizedHeadlessHitRegionV1,
    ) -> bool {
        &&& Some(normalized.path@) == path_of(index, self.node)
        &&& normalized.clip == self.clip
    }

    fn normalize(&self, identities: &IdentityIndexV1) -> (normalized: Option<
        NormalizedHeadlessHitRegionV1,
    >) {
        match identities.node_path(self.node) {
            Some(path) => Some(NormalizedHeadlessHitRegionV1 { path: path.clone(), clip: self.clip }),
            None => None,
        }
    }
}

impl RuntimeRecordV1 for RuntimeSceneRectangleV1 {
    type Normalized = NormalizedHeadlessSceneRectangleV1;

    open spec fn resolves(&self, index: IdentityIndexView) -> bool {
        path_of(index, self.node) is Some
    }

    open spec fn normalizes_to(
        &self,
        index: IdentityIndexView,
        normalized: &NormalizedHeadlessSceneRectangleV1,
    ) -> bool {
        &&& Some(normalized.path@) == path_of(index, self.node)
        &&& normalized.rectangle == self.rectangle
        &&& normalized.color == self.color
    }

    fn normalize(&self, identities: &IdentityIndexV1) -> (normalized: Option<
        NormalizedHeadlessSceneRectangleV1,
    >) {
        match identities.node_path(self.node) {
            Some(path) => Some(
                NormalizedHeadlessSceneRectangleV1 {
                    path: path.clone(),
                    rectangle: self.rectangle,
                    color: self.color,
                },
            ),
            None => None,
        }
    }
}

/// Whether every record of a family resolves.
pub open spec fn all_resolve<T: RuntimeRecordV1>(index: IdentityIndexView, records: Seq<T>) -> bool {
    forall|i: int| 0 <= i < records.len() ==> #[trigger] records[i].resolves(index)
}

/// Whether a normalized family is the runtime family, record by record.
pub open spec fn all_normalize_to<T: RuntimeRecordV1>(
    index: IdentityIndexView,
    records: Seq<T>,
    normalized: Seq<T::Normalized>,
) -> bool {
    &&& normalized.len() == records.len()
    &&& forall|i: int|
        0 <= i < records.len() ==> #[trigger] records[i].normalizes_to(index, &normalized[i])
}

/// The failure, if any, of normalizing a runtime projection: family counts
/// above the inclusive ceilings of the style and geometry families are node
/// limits; every other inconsistency is a state mismatch.
pub open spec fn normalization_failure(
    index: IdentityIndexView,
    raw: &RuntimeHeadlessProjectionV1,
    capacity: HeadlessProjectionCapacityV1,
    node_count: usize,
) -> Option<HarnessErrorKind> {
    if raw.computed_styles@.len() > capacity.computed_styles || raw.geometries@.len()
        > capacity.geometry {
        Some(HarnessErrorKind::LimitExceeded(HarnessLimitKind::NormalizedNodes))
    } else if raw.computed_styles@.len() != node_count || raw.geometries@.len() != node_count
        || raw.semantics@.len() > capacity.semantics || raw.hit_regions@.len()
        > capacity.hit_regions || raw.scene_rectangles@.len() > capacity.scene_rectangles
        || !all_resolve(index, raw.computed_styles@) || !all_resolve(index, raw.geometries@)
        || !all_resolve(index, raw.semantics@) || !all_resolve(index, raw.hit_regions@)
        || !all_resolve(index, raw.scene_rectangles@) {
        Some(HarnessErrorKind::StateMismatch)
    } else {
        None
    }
}

/// Normalizes one committed runtime projection without changing record order.
///
/// `identities` indexes the snapshot's nodes by semantic path and
/// `node_count` is the number of nodes of its logical observation; every
/// style and geometry family must hold exactly one record per node.
pub fn normalize_headless_projection_v1(
    identities: &IdentityIndexV1,
    raw: &RuntimeHeadlessProjectionV1,
    capacity: HeadlessProjectionCapacityV1,
    node_count: usize,
) -> (result: Result<ObservedHeadlessProjectionV1, HarnessError>)
    ensures
        match result {
            Err(error) => normalization_failure(identities@, raw, capacity, node_count) == Some(
                error.spec_kind(),
            ) && error.is_unlocated(error.spec_kind()),
            Ok(observed) => {
                &&& normalization_failure(identities@, raw, capacity, node_count) is None
                &&& observed.generation == raw.generation
                &&& observed.projection.surface == raw.surface
                &&& all_normalize_to(
                    identities@,
                    raw.computed_styles@,
                    observed.projection.computed_styles@,
                )
                &&& all_normalize_to(identities@, raw.geometries@, observed.projection.geometries@)
                &&& all_normalize_to(identities@, raw.semantics@, observed.projection.semantics@)
                &&& all_normalize_to(
                    identities@,
                    raw.hit_regions@,
                    observed.projection.hit_regions@,
                )
                &&& all_normalize_to(
                    identities@,
                    raw.scene_rectangles@,
                    observed.projection.scene_rectangles@,
                )
            },
        },
{
    if raw.computed_styles.len() > capacity.computed_styles || raw.geometries.len()
        > capacity.geometry {
        return Err(HarnessError::limit(HarnessLimitKind::NormalizedNodes));
    }
    if raw.computed_styles.len() != node_count || raw.geometries.len() != node_count {
        return Err(state_error());
    }
    let computed_styles = match normalize_family(identities, &raw.computed_styles) {
        Some(records) => records,
        None => return Err(state_error()),
    };
    let geometries = match normalize_family(identities, &raw.geometries) {
        Some(records) => records,
        None => return Err(state_error()),
    };
    if raw.semantics.len() > capacity.semantics {
        return Err(state_error());
    }
    let semantics = match normalize_family(identities, &raw.semantics) {
        Some(records) => records,
        None => return Err(state_error()),
    };
    if raw.hit_regions.len() > capacity.hit_regions {
        return Err(state_error());
    }
    let hit_regions = match normalize_family(identities, &raw.hit_regions) {
        Some(records) => records,
        None => return Err(state_error()),
    };
    if raw.scene_rectangles.len() > capacity.scene_rectangles {
        return Err(state_error());
    }
    let scene_rectangles = match normalize_family(identities, &raw.scene_rectangles) {
        Some(records) => records,
        None => return Err(state_error()),
    };
    Ok(
        ObservedHeadlessProjectionV1 {
            generation: raw.generation,
            projection: NormalizedHeadlessProjectionV1 {
                surface: raw.surface,
                computed_styles,
                geometries,
                semantics,
                hit_regions,
                scene_rectangles,
            },
        },
    )
}

fn state_error() -> (error: HarnessError)
    ensures
        error.is_unlocated(HarnessErrorKind::StateMismatch),
{
    HarnessError::new(HarnessErrorKind::StateMismatch)
}

/// Normalizes one family in order, or reports that some record does not resolve.
fn normalize_family<T: RuntimeRecordV1>(identities: &IdentityIndexV1, records: &Vec<T>) -> (result:
    Option<Vec<T::Normalized>>)
    ensures
        match result {
            Some(normalized) => all_resolve(identities@, records@) && all_normalize_to(
                identities@,
                records@,
                normalized@,
            ),
            None => !all_resolve(identities@, records@),
        },
{
    let mut normalized: Vec<T::Normalized> = Vec::new();
    let mut index: usize = 0;
    while index < records.len()
        invariant
            index <= records@.len(),
            normalized@.len() == index,
            forall|i: int| 0 <= i < index ==> #[trigger] records@[i].resolves(identities@),
            forall|i: int|
                0 <= i < index ==> #[trigger] records@[i].normalizes_to(
                    identities@,
                    &normalized@[i],
                ),
        decreases records@.len() - index,
    {
        match records[index].normalize(identities) {
            Some(record) => normalized.push(record),
            None => return None,
        }
        index = index + 1;
    }
    Some(normalized)
}

} // verus!
