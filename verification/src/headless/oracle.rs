use vstd::prelude::*;

use crate::case::{InputPolicy, Rgba8};
use crate::error::{HarnessError, HarnessErrorKind};
use crate::headless::geometry::{
    HeadlessRect, HeadlessSemanticAction, HeadlessSemanticRole, HeadlessSurface,
};
use crate::semantic::{NodePathV1, PathSegmentV1};

pub mod fault;
pub mod materialize;
pub mod normalize;
pub mod rebuild;

verus! {

/// One identity-free computed-style record.
#[derive(Clone, Debug)]
pub struct NormalizedHeadlessComputedStyleV1 {
    pub path: NodePathV1,
    pub width: i32,
    pub height: i32,
    pub color: Rgba8,
    pub visible: bool,
    pub input: InputPolicy,
}

/// One identity-free absolute geometry record.
#[derive(Clone, Debug)]
pub struct NormalizedHeadlessGeometryV1 {
    pub path: NodePathV1,
    pub bounds: HeadlessRect,
    pub clip: HeadlessRect,
}

/// One identity-free semantic record.
#[derive(Clone, Debug)]
pub struct NormalizedHeadlessSemanticV1 {
    pub path: NodePathV1,
    pub role: HeadlessSemanticRole,
    pub label: u32,
    pub action: HeadlessSemanticAction,
}

/// One identity-free ordered hit region.
#[derive(Clone, Debug)]
pub struct NormalizedHeadlessHitRegionV1 {
    pub path: NodePathV1,
    pub clip: HeadlessRect,
}

/// One identity-free authored-order scene rectangle.
#[derive(Clone, Debug)]
pub struct NormalizedHeadlessSceneRectangleV1 {
    pub path: NodePathV1,
    pub rectangle: HeadlessRect,
    pub color: Rgba8,
}

impl NormalizedHeadlessComputedStyleV1 {
    /// Returns the node's semantic path.
    pub fn path(&self) -> (path: &NodePathV1)
        ensures
            path@ == self.path@,
    {
        &self.path
    }

    /// Returns the computed width.
    pub fn width(&self) -> (width: i32)
        ensures
            width == self.width,
    {
        self.width
    }

    /// Returns the computed height.
    pub fn height(&self) -> (height: i32)
        ensures
            height == self.height,
    {
        self.height
    }

    /// Returns the computed color.
    pub fn color(&self) -> (color: Rgba8)
        ensures
            color == self.color,
    {
        self.color
    }

    /// Returns the computed visibility.
    pub fn visible(&self) -> (visible: bool)
        ensures
            visible == self.visible,
    {
        self.visible
    }

    /// Returns the computed input policy.
    pub fn input(&self) -> (input: InputPolicy)
        ensures
            input == self.input,
    {
        self.input
    }
}

impl NormalizedHeadlessGeometryV1 {
    /// Returns the node's semantic path.
    pub fn path(&self) -> (path: &NodePathV1)
        ensures
            path@ == self.path@,
    {
        &self.path
    }

    /// Returns the node's bounds.
    pub fn bounds(&self) -> (bounds: HeadlessRect)
        ensures
            bounds == self.bounds,
    {
        self.bounds
    }

    /// Returns the node's clip.
    pub fn clip(&self) -> (clip: HeadlessRect)
        ensures
            clip == self.clip,
    {
        self.clip
    }
}

impl NormalizedHeadlessSemanticV1 {
    /// Returns the node's semantic path.
    pub fn path(&self) -> (path: &NodePathV1)
        ensures
            path@ == self.path@,
    {
        &self.path
    }

    /// Returns the semantic role.
    pub fn role(&self) -> (role: HeadlessSemanticRole)
        ensures
            role == self.role,
    {
        self.role
    }

    /// Returns the semantic label.
    pub fn label(&self) -> (label: u32)
        ensures
            label == self.label,
    {
        self.label
    }

    /// Returns the semantic action.
    pub fn action(&self) -> (action: HeadlessSemanticAction)
        ensures
            action == self.action,
    {
        self.action
    }
}

impl NormalizedHeadlessHitRegionV1 {
    /// Returns the node's semantic path.
    pub fn path(&self) -> (path: &NodePathV1)
        ensures
            path@ == self.path@,
    {
        &self.path
    }

    /// Returns the hit region's clip.
    pub fn clip(&self) -> (clip: HeadlessRect)
        ensures
            clip == self.clip,
    {
        self.clip
    }
}

impl NormalizedHeadlessSceneRectangleV1 {
    /// Returns the node's semantic path.
    pub fn path(&self) -> (path: &NodePathV1)
        ensures
            path@ == self.path@,
    {
        &self.path
    }

    /// Returns the scene rectangle.
    pub fn rectangle(&self) -> (rectangle: HeadlessRect)
        ensures
            rectangle == self.rectangle,
    {
        self.rectangle
    }

    /// Returns the rectangle's color.
    pub fn color(&self) -> (color: Rgba8)
        ensures
            color == self.color,
    {
        self.color
    }
}

/// Complete generation-free normalized headless projection.
#[derive(Clone, Debug)]
pub struct NormalizedHeadlessProjectionV1 {
    pub surface: HeadlessSurface,
    pub computed_styles: Vec<NormalizedHeadlessComputedStyleV1>,
    pub geometries: Vec<NormalizedHeadlessGeometryV1>,
    pub semantics: Vec<NormalizedHeadlessSemanticV1>,
    pub hit_regions: Vec<NormalizedHeadlessHitRegionV1>,
    pub scene_rectangles: Vec<NormalizedHeadlessSceneRectangleV1>,
}

impl NormalizedHeadlessProjectionV1 {
    /// Returns the logical surface.
    pub fn surface(&self) -> (surface: HeadlessSurface)
        ensures
            surface == self.surface,
    {
        self.surface
    }

    /// Returns the computed-style records in authored order.
    pub fn computed_styles(&self) -> (records: &[NormalizedHeadlessComputedStyleV1])
        ensures
            records@ == self.computed_styles@,
    {
        self.computed_styles.as_slice()
    }

    /// Returns the geometry records in authored order.
    pub fn geometries(&self) -> (records: &[NormalizedHeadlessGeometryV1])
        ensures
            records@ == self.geometries@,
    {
        self.geometries.as_slice()
    }

    /// Returns the semantic records in authored order.
    pub fn semantics(&self) -> (records: &[NormalizedHeadlessSemanticV1])
        ensures
            records@ == self.semantics@,
    {
        self.semantics.as_slice()
    }

    /// Returns the hit regions in hit-test order.
    pub fn hit_regions(&self) -> (records: &[NormalizedHeadlessHitRegionV1])
        ensures
            records@ == self.hit_regions@,
    {
        self.hit_regions.as_slice()
    }

    /// Returns the scene rectangles in authored order.
    pub fn scene_rectangles(&self) -> (records: &[NormalizedHeadlessSceneRectangleV1])
        ensures
            records@ == self.scene_rectangles@,
    {
        self.scene_rectangles.as_slice()
    }
}

/// Projection family selected by the first mismatch.
#[derive(Clone, Copy, Debug, PartialEq, Eq, Structural)]
pub enum HeadlessMismatchKindV1 {
    /// Computed-style records.
    ComputedStyle,
    /// Geometry records.
    Geometry,
    /// Semantic records.
    Semantics,
    /// Hit regions.
    HitRegions,
    /// Scene rectangles.
    SceneRectangles,
}

/// First unequal field within one normalized projection record.
#[derive(Clone, Copy, Debug, PartialEq, Eq, Structural)]
pub enum HeadlessMismatchFieldV1 {
    /// Semantic path or ordered membership.
    Path,
    /// Computed width.
    Width,
    /// Computed height.
    Height,
    /// Computed or scene color.
    Color,
    /// Local visibility.
    Visible,
    /// Local input policy.
    Input,
    /// Unclipped geometry bounds.
    Bounds,
    /// Effective geometry or hit clip.
    Clip,
    /// Semantic role.
    Role,
    /// Semantic label.
    Label,
    /// Semantic action.
    Action,
    /// Scene rectangle.
    Rectangle,
}

/// Privacy-safe semantic location of a projection mismatch.
#[derive(Clone, Debug)]
pub enum HeadlessMismatchLocationV1 {
    /// A record path from the expected or observed side.
    Path(NodePathV1),
    /// Neither side supplies a path at the differing index.
    End,
}

impl View for HeadlessMismatchLocationV1 {
    type V = Option<Seq<PathSegmentV1>>;

    open spec fn view(&self) -> Option<Seq<PathSegmentV1>> {
        match self {
            HeadlessMismatchLocationV1::Path(path) => Some(path@),
            HeadlessMismatchLocationV1::End => None,
        }
    }
}

/// Mathematical form of one projection mismatch.
pub struct HeadlessMismatchView {
    pub kind: HeadlessMismatchKindV1,
    pub index: int,
    pub field: HeadlessMismatchFieldV1,
    pub location: Option<Seq<PathSegmentV1>>,
}

/// First deterministic difference between two normalized projections.
#[derive(Clone, Debug)]
pub struct HeadlessMismatchV1 {
    kind: HeadlessMismatchKindV1,
    index: usize,
    field: HeadlessMismatchFieldV1,
    location: HeadlessMismatchLocationV1,
}

impl View for HeadlessMismatchV1 {
    type V = HeadlessMismatchView;

    closed spec fn view(&self) -> HeadlessMismatchView {
        HeadlessMismatchView {
            kind: self.kind,
            index: self.index as int,
            field: self.field,
            location: self.location@,
        }
    }
}

impl HeadlessMismatchV1 {
    /// Returns the mismatching projection family.
    pub fn kind(&self) -> (kind: HeadlessMismatchKindV1)
        ensures
            kind == self@.kind,
    {
        self.kind
    }

    /// Returns the first differing ordered record index.
    pub fn index(&self) -> (index: usize)
        ensures
            index == self@.index,
    {
        self.index
    }

    /// Returns the first unequal field at that index.
    pub fn field(&self) -> (field: HeadlessMismatchFieldV1)
        ensures
            field == self@.field,
    {
        self.field
    }

    /// Returns the privacy-safe semantic location.
    pub fn location(&self) -> (location: &HeadlessMismatchLocationV1)
        ensures
            location@ == self@.location,
    {
        &self.location
    }
}

/// Registered test-only defect adapters for projection comparison.
#[derive(Clone, Copy, Debug, PartialEq, Eq, Structural)]
pub enum HeadlessProjectionFaultV1 {
    /// Perturbs multiple computed-style fields.
    ComputedStyle,
    /// Perturbs geometry order.
    GeometryOrder,
    /// Perturbs semantic membership.
    SemanticMembership,
    /// Perturbs hit-region order.
    HitOrder,
    /// Perturbs multiple scene fields.
    SceneOutput,
}

/// A record of one projection family: addressed by a semantic path, with a
/// payload whose fields are compared in a fixed order.
pub trait ProjectionRecordV1: Sized {
    /// The record's semantic address.
    spec fn record_path(&self) -> Seq<PathSegmentV1>;

    /// The first payload field, in the family's order, on which two records differ.
    spec fn payload_field(&self, other: &Self) -> Option<HeadlessMismatchFieldV1>;

    /// Two records differ on the same first payload field whichever is
    /// taken first.
    proof fn lemma_payload_symmetric(&self, other: &Self)
        ensures
            self.payload_field(other) == other.payload_field(self),
    ;

    /// Returns the record's semantic address.
    fn address(&self) -> (path: &NodePathV1)
        ensures
            path@ == self.record_path(),
    ;

    /// Returns the first payload field on which two records differ.
    fn first_payload_difference(&self, other: &Self) -> (field: Option<HeadlessMismatchFieldV1>)
        ensures
            field == self.payload_field(other),
    ;

    /// Returns a copy with the same address and payload.
    fn duplicate(&self) -> (copy: Self)
        ensures
            copy.record_path() == self.record_path(),
            self.payload_field(&copy) is None,
    ;
}

/// Two records with the same address and payload.
pub open spec fn same_record<T: ProjectionRecordV1>(clean: &T, copy: &T) -> bool {
    &&& copy.record_path() == clean.record_path()
    &&& clean.payload_field(copy) is None
}

/// Two record families that agree record by record.
pub open spec fn same_records<T: ProjectionRecordV1>(clean: Seq<T>, copy: Seq<T>) -> bool {
    &&& copy.len() == clean.len()
    &&& forall|i: int| 0 <= i < clean.len() ==> same_record(&#[trigger] clean[i], &copy[i])
}

impl ProjectionRecordV1 for NormalizedHeadlessComputedStyleV1 {
    proof fn lemma_payload_symmetric(&self, other: &Self) {
        let first: Option<HeadlessMismatchFieldV1> = self.payload_field(other);
        let second: Option<HeadlessMismatchFieldV1> = other.payload_field(self);
        assert(first == second);
    }

    open spec fn record_path(&self) -> Seq<PathSegmentV1> {
        self.path@
    }

    open spec fn payload_field(&self, other: &Self) -> Option<HeadlessMismatchFieldV1> {
        if self.width != other.width {
            Some(HeadlessMismatchFieldV1::Width)
        } else if self.height != other.height {
            Some(HeadlessMismatchFieldV1::Height)
        } else if self.color != other.color {
            Some(HeadlessMismatchFieldV1::Color)
        } else if self.visible != other.visible {
            Some(HeadlessMismatchFieldV1::Visible)
        } else if self.input != other.input {
            Some(HeadlessMismatchFieldV1::Input)
        } else {
            None
        }
    }

    fn address(&self) -> (path: &NodePathV1) {
        &self.path
    }

    fn first_payload_difference(&self, other: &Self) -> (field: Option<HeadlessMismatchFieldV1>) {
        if self.width != other.width {
            Some(HeadlessMismatchFieldV1::Width)
        } else if self.height != other.height {
            Some(HeadlessMismatchFieldV1::Height)
        } else if self.color != other.color {
            Some(HeadlessMismatchFieldV1::Color)
        } else if self.visible != other.visible {
            Some(HeadlessMismatchFieldV1::Visible)
        } else if self.input != other.input {
            Some(HeadlessMismatchFieldV1::Input)
        } else {
            None
        }
    }

    fn duplicate(&self) -> (copy: Self) {
        NormalizedHeadlessComputedStyleV1 {
            path: self.path.clone(),
            width: self.width,
            height: self.height,
            color: self.color,
            visible: self.visible,
            input: self.input,
        }
    }
}

impl ProjectionRecordV1 for NormalizedHeadlessGeometryV1 {
    proof fn lemma_payload_symmetric(&self, other: &Self) {
        let first: Option<HeadlessMismatchFieldV1> = self.payload_field(other);
        let second: Option<HeadlessMismatchFieldV1> = other.payload_field(self);
        assert(first == second);
    }

    open spec fn record_path(&self) -> Seq<PathSegmentV1> {
        self.path@
    }

    open spec fn payload_field(&self, other: &Self) -> Option<HeadlessMismatchFieldV1> {
        if self.bounds != other.bounds {
            Some(HeadlessMismatchFieldV1::Bounds)
        } else if self.clip != other.clip {
            Some(HeadlessMismatchFieldV1::Clip)
        } else {
            None
        }
    }

    fn address(&self) -> (path: &NodePathV1) {
        &self.path
    }

    fn first_payload_difference(&self, other: &Self) -> (field: Option<HeadlessMismatchFieldV1>) {
        if self.bounds != other.bounds {
            Some(HeadlessMismatchFieldV1::Bounds)
        } else if self.clip != other.clip {
            Some(HeadlessMismatchFieldV1::Clip)
        } else {
            None
        }
    }

    fn duplicate(&self) -> (copy: Self) {
        NormalizedHeadlessGeometryV1 { path: self.path.clone(), bounds: self.bounds, clip: self.clip }
    }
}

impl ProjectionRecordV1 for NormalizedHeadlessSemanticV1 {
    proof fn lemma_payload_symmetric(&self, other: &Self) {
        let first: Option<HeadlessMismatchFieldV1> = self.payload_field(other);
        let second: Option<HeadlessMismatchFieldV1> = other.payload_field(self);
        assert(first == second);
    }

    open spec fn record_path(&self) -> Seq<PathSegmentV1> {
        self.path@
    }

    open spec fn payload_field(&self, other: &Self) -> Option<HeadlessMismatchFieldV1> {
        if self.role != other.role {
            Some(HeadlessMismatchFieldV1::Role)
        } else if self.label != other.label {
            Some(HeadlessMismatchFieldV1::Label)
        } else if self.action != other.action {
            Some(HeadlessMismatchFieldV1::Action)
        } else {
            None
        }
    }

    fn address(&self) -> (path: &NodePathV1) {
        &self.path
    }

    fn first_payload_difference(&self, other: &Self) -> (field: Option<HeadlessMismatchFieldV1>) {
        if self.role != other.role {
            Some(HeadlessMismatchFieldV1::Role)
        } else if self.label != other.label {
            Some(HeadlessMismatchFieldV1::Label)
        } else if self.action != other.action {
            Some(HeadlessMismatchFieldV1::Action)
        } else {
            None
        }
    }

    fn duplicate(&self) -> (copy: Self) {
        NormalizedHeadlessSemanticV1 {
            path: self.path.clone(),
            role: self.role,
            label: self.label,
            action: self.action,
        }
    }
}

impl ProjectionRecordV1 for NormalizedHeadlessHitRegionV1 {
    proof fn lemma_payload_symmetric(&self, other: &Self) {
        let first: Option<HeadlessMismatchFieldV1> = self.payload_field(other);
        let second: Option<HeadlessMismatchFieldV1> = other.payload_field(self);
        assert(first == second);
    }

    open spec fn record_path(&self) -> Seq<PathSegmentV1> {
        self.path@
    }

    open spec fn payload_field(&self, other: &Self) -> Option<HeadlessMismatchFieldV1> {
        if self.clip != other.clip {
            Some(HeadlessMismatchFieldV1::Clip)
        } else {
            None
        }
    }

    fn address(&self) -> (path: &NodePathV1) {
        &self.path
    }

    fn first_payload_difference(&self, other: &Self) -> (field: Option<HeadlessMismatchFieldV1>) {
        if self.clip != other.clip {
            Some(HeadlessMismatchFieldV1::Clip)
        } else {
            None
        }
    }

    fn duplicate(&self) -> (copy: Self) {
        NormalizedHeadlessHitRegionV1 { path: self.path.clone(), clip: self.clip }
    }
}

impl ProjectionRecordV1 for NormalizedHeadlessSceneRectangleV1 {
    proof fn lemma_payload_symmetric(&self, other: &Self) {
        let first: Option<HeadlessMismatchFieldV1> = self.payload_field(other);
        let second: Option<HeadlessMismatchFieldV1> = other.payload_field(self);
        assert(first == second);
    }

    open spec fn record_path(&self) -> Seq<PathSegmentV1> {
        self.path@
    }

    open spec fn payload_field(&self, other: &Self) -> Option<HeadlessMismatchFieldV1> {
        if self.rectangle != other.rectangle {
            Some(HeadlessMismatchFieldV1::Rectangle)
        } else if self.color != other.color {
            Some(HeadlessMismatchFieldV1::Color)
        } else {
            None
        }
    }

    fn address(&self) -> (path: &NodePathV1) {
        &self.path
    }

    fn first_payload_difference(&self, other: &Self) -> (field: Option<HeadlessMismatchFieldV1>) {
        if self.rectangle != other.rectangle {
            Some(HeadlessMismatchFieldV1::Rectangle)
        } else if self.color != other.color {
            Some(HeadlessMismatchFieldV1::Color)
        } else {
            None
        }
    }

    fn duplicate(&self) -> (copy: Self) {
        NormalizedHeadlessSceneRectangleV1 {
            path: self.path.clone(),
            rectangle: self.rectangle,
            color: self.color,
        }
    }
}

/// The longer of two record sequences' lengths.
pub open spec fn longer_len<T>(expected: Seq<T>, observed: Seq<T>) -> int {
    if expected.len() >= observed.len() {
        expected.len() as int
    } else {
        observed.len() as int
    }
}

/// The field on which two ordered record families differ at one index: the
/// path first, a record present on only one side as a path difference, then
/// the payload.
pub open spec fn record_difference<T: ProjectionRecordV1>(
    expected: Seq<T>,
    observed: Seq<T>,
    index: int,
) -> Option<HeadlessMismatchFieldV1> {
    if index < expected.len() && index < observed.len() {
        if expected[index].record_path() != observed[index].record_path() {
            Some(HeadlessMismatchFieldV1::Path)
        } else {
            expected[index].payload_field(&observed[index])
        }
    } else if index < expected.len() || index < observed.len() {
        Some(HeadlessMismatchFieldV1::Path)
    } else {
        None
    }
}

/// The first index at or after `index` where two record families differ.
pub open spec fn first_difference_from<T: ProjectionRecordV1>(
    expected: Seq<T>,
    observed: Seq<T>,
    index: int,
) -> Option<int>
    decreases longer_len(expected, observed) - index,
{
    if 0 <= index < longer_len(expected, observed) {
        if record_difference(expected, observed, index) is Some {
            Some(index)
        } else {
            first_difference_from(expected, observed, index + 1)
        }
    } else {
        None
    }
}

/// The path reported for a difference at one index: the expected side's
/// record when there is one, else the observed side's.
pub open spec fn location_at<T: ProjectionRecordV1>(
    expected: Seq<T>,
    observed: Seq<T>,
    index: int,
) -> Option<Seq<PathSegmentV1>> {
    if 0 <= index < expected.len() {
        Some(expected[index].record_path())
    } else if 0 <= index < observed.len() {
        Some(observed[index].record_path())
    } else {
        None
    }
}

/// The first mismatch within one projection family.
pub open spec fn family_mismatch<T: ProjectionRecordV1>(
    kind: HeadlessMismatchKindV1,
    expected: Seq<T>,
    observed: Seq<T>,
) -> Option<HeadlessMismatchView> {
    match first_difference_from(expected, observed, 0) {
        Some(index) => Some(
            HeadlessMismatchView {
                kind,
                index,
                field: record_difference(expected, observed, index).unwrap(),
                location: location_at(expected, observed, index),
            },
        ),
        None => None,
    }
}

/// The first mismatch between two projections, families taken in the order
/// computed styles, geometry, semantics, hit regions, scene rectangles.
pub open spec fn projection_mismatch(
    expected: &NormalizedHeadlessProjectionV1,
    observed: &NormalizedHeadlessProjectionV1,
) -> Option<HeadlessMismatchView> {
    let computed = family_mismatch(
        HeadlessMismatchKindV1::ComputedStyle,
        expected.computed_styles@,
        observed.computed_styles@,
    );
    let geometry = family_mismatch(
        HeadlessMismatchKindV1::Geometry,
        expected.geometries@,
        observed.geometries@,
    );
    let semantics = family_mismatch(
        HeadlessMismatchKindV1::Semantics,
        expected.semantics@,
        observed.semantics@,
    );
    let hits = family_mismatch(
        HeadlessMismatchKindV1::HitRegions,
        expected.hit_regions@,
        observed.hit_regions@,
    );
    let scene = family_mismatch(
        HeadlessMismatchKindV1::SceneRectangles,
        expected.scene_rectangles@,
        observed.scene_rectangles@,
    );
    if computed is Some {
        computed
    } else if geometry is Some {
        geometry
    } else if semantics is Some {
        semantics
    } else if hits is Some {
        hits
    } else {
        scene
    }
}

/// A record difference at one index does not depend on which family is
/// taken first, but for its location.
pub proof fn lemma_record_difference_symmetric<T: ProjectionRecordV1>(
    expected: Seq<T>,
    observed: Seq<T>,
    index: int,
)
    ensures
        record_difference(expected, observed, index) == record_difference(observed, expected, index),
{
    if index < expected.len() && index < observed.len() {
        expected[index].lemma_payload_symmetric(&observed[index]);
    }
}

/// The first differing index of two families does not depend on which is
/// taken first.
pub proof fn lemma_first_difference_symmetric<T: ProjectionRecordV1>(
    expected: Seq<T>,
    observed: Seq<T>,
    index: int,
)
    ensures
        first_difference_from(expected, observed, index) == first_difference_from(
            observed,
            expected,
            index,
        ),
    decreases longer_len(expected, observed) - index,
{
    if 0 <= index < longer_len(expected, observed) {
        lemma_record_difference_symmetric(expected, observed, index);
        lemma_first_difference_symmetric(expected, observed, index + 1);
    }
}

/// Comparing two projections either way finds a difference in the same
/// family, at the same index and on the same field; only the reported path
/// may differ.
pub proof fn lemma_projection_mismatch_symmetric(
    first: &NormalizedHeadlessProjectionV1,
    second: &NormalizedHeadlessProjectionV1,
)
    ensures
        projection_mismatch(first, second) is Some == projection_mismatch(second, first) is Some,
        projection_mismatch(first, second) matches Some(found) ==> {
            let reversed = projection_mismatch(second, first)->Some_0;
            &&& reversed.kind == found.kind
            &&& reversed.index == found.index
            &&& reversed.field == found.field
        },
{
    lemma_first_difference_symmetric(first.computed_styles@, second.computed_styles@, 0);
    lemma_first_difference_symmetric(first.geometries@, second.geometries@, 0);
    lemma_first_difference_symmetric(first.semantics@, second.semantics@, 0);
    lemma_first_difference_symmetric(first.hit_regions@, second.hit_regions@, 0);
    lemma_first_difference_symmetric(first.scene_rectangles@, second.scene_rectangles@, 0);
    if let Some(index) = first_difference_from(first.computed_styles@, second.computed_styles@, 0) {
        lemma_record_difference_symmetric(first.computed_styles@, second.computed_styles@, index);
    }
    if let Some(index) = first_difference_from(first.geometries@, second.geometries@, 0) {
        lemma_record_difference_symmetric(first.geometries@, second.geometries@, index);
    }
    if let Some(index) = first_difference_from(first.semantics@, second.semantics@, 0) {
        lemma_record_difference_symmetric(first.semantics@, second.semantics@, index);
    }
    if let Some(index) = first_difference_from(first.hit_regions@, second.hit_regions@, 0) {
        lemma_record_difference_symmetric(first.hit_regions@, second.hit_regions@, index);
    }
    if let Some(index) = first_difference_from(first.scene_rectangles@, second.scene_rectangles@, 0) {
        lemma_record_difference_symmetric(first.scene_rectangles@, second.scene_rectangles@, index);
    }
}

/// Two computed styles differ on no payload field exactly when their width,
/// height, color, visibility and input policy all agree.
pub proof fn lemma_computed_payload_agreement(
    first: &NormalizedHeadlessComputedStyleV1,
    second: &NormalizedHeadlessComputedStyleV1,
)
    ensures
        first.payload_field(second) is None <==> (first.width == second.width && first.height
            == second.height && first.color == second.color && first.visible == second.visible
            && first.input == second.input),
{
    let field: Option<HeadlessMismatchFieldV1> = first.payload_field(second);
    assert(field is None <==> (first.width == second.width && first.height == second.height
        && first.color == second.color && first.visible == second.visible && first.input
        == second.input));
}

/// Two geometry records differ on no payload field exactly when their
/// bounds and clips agree.
pub proof fn lemma_geometry_payload_agreement(
    first: &NormalizedHeadlessGeometryV1,
    second: &NormalizedHeadlessGeometryV1,
)
    ensures
        first.payload_field(second) is None <==> (first.bounds == second.bounds && first.clip
            == second.clip),
{
    let field: Option<HeadlessMismatchFieldV1> = first.payload_field(second);
    assert(field is None <==> (first.bounds == second.bounds && first.clip == second.clip));
}

/// Two semantic records differ on no payload field exactly when their role,
/// label and action all agree.
pub proof fn lemma_semantic_payload_agreement(
    first: &NormalizedHeadlessSemanticV1,
    second: &NormalizedHeadlessSemanticV1,
)
    ensures
        first.payload_field(second) is None <==> (first.role == second.role && first.label
            == second.label && first.action == second.action),
{
    let field: Option<HeadlessMismatchFieldV1> = first.payload_field(second);
    assert(field is None <==> (first.role == second.role && first.label == second.label
        && first.action == second.action));
}

/// Two hit regions differ on no payload field exactly when their clips
/// agree.
pub proof fn lemma_hit_payload_agreement(
    first: &NormalizedHeadlessHitRegionV1,
    second: &NormalizedHeadlessHitRegionV1,
)
    ensures
        first.payload_field(second) is None <==> first.clip == second.clip,
{
    let field: Option<HeadlessMismatchFieldV1> = first.payload_field(second);
    assert(field is None <==> first.clip == second.clip);
}

/// Two scene rectangles differ on no payload field exactly when their
/// rectangles and colors agree.
pub proof fn lemma_scene_payload_agreement(
    first: &NormalizedHeadlessSceneRectangleV1,
    second: &NormalizedHeadlessSceneRectangleV1,
)
    ensures
        first.payload_field(second) is None <==> (first.rectangle == second.rectangle
            && first.color == second.color),
{
    let field: Option<HeadlessMismatchFieldV1> = first.payload_field(second);
    assert(field is None <==> (first.rectangle == second.rectangle && first.color
        == second.color));
}

/// Two families agree record by record: the same length, and at each index
/// the same path and no payload difference.
pub open spec fn families_agree<T: ProjectionRecordV1>(expected: Seq<T>, observed: Seq<T>) -> bool {
    &&& expected.len() == observed.len()
    &&& forall|i: int|
        0 <= i < expected.len() ==> #[trigger] expected[i].record_path() == observed[i].record_path()
            && expected[i].payload_field(&observed[i]) is None
}

proof fn lemma_no_difference_from<T: ProjectionRecordV1>(
    expected: Seq<T>,
    observed: Seq<T>,
    index: int,
)
    requires
        0 <= index,
    ensures
        first_difference_from(expected, observed, index) is None <==> forall|i: int|
            index <= i < longer_len(expected, observed) ==> #[trigger] record_difference(
                expected,
                observed,
                i,
            ) is None,
    decreases longer_len(expected, observed) - index,
{
    if index < longer_len(expected, observed) {
        lemma_no_difference_from(expected, observed, index + 1);
    }
}

/// A family has no mismatch exactly when the two families agree record by
/// record.
pub proof fn lemma_family_mismatch_none<T: ProjectionRecordV1>(
    kind: HeadlessMismatchKindV1,
    expected: Seq<T>,
    observed: Seq<T>,
)
    ensures
        family_mismatch(kind, expected, observed) is None <==> families_agree(expected, observed),
{
    lemma_no_difference_from(expected, observed, 0);
    if family_mismatch(kind, expected, observed) is None {
        if expected.len() != observed.len() {
            let i = if expected.len() < observed.len() {
                expected.len() as int
            } else {
                observed.len() as int
            };
            assert(record_difference(expected, observed, i) is Some);
        }
        assert forall|i: int| 0 <= i < expected.len() implies #[trigger] expected[i].record_path()
            == observed[i].record_path() && expected[i].payload_field(&observed[i]) is None by {
            assert(record_difference(expected, observed, i) is None);
        }
    } else if families_agree(expected, observed) {
        assert forall|i: int| 0 <= i < longer_len(expected, observed) implies #[trigger] record_difference(
            expected,
            observed,
            i,
        ) is None by {
            assert(expected[i].record_path() == observed[i].record_path());
        }
    }
}

/// Two projections have no mismatch exactly when every family agrees
/// record by record.
pub proof fn lemma_projection_mismatch_none(
    expected: &NormalizedHeadlessProjectionV1,
    observed: &NormalizedHeadlessProjectionV1,
)
    ensures
        projection_mismatch(expected, observed) is None <==> {
            &&& families_agree(expected.computed_styles@, observed.computed_styles@)
            &&& families_agree(expected.geometries@, observed.geometries@)
            &&& families_agree(expected.semantics@, observed.semantics@)
            &&& families_agree(expected.hit_regions@, observed.hit_regions@)
            &&& families_agree(expected.scene_rectangles@, observed.scene_rectangles@)
        },
{
    lemma_family_mismatch_none(
        HeadlessMismatchKindV1::ComputedStyle,
        expected.computed_styles@,
        observed.computed_styles@,
    );
    lemma_family_mismatch_none(
        HeadlessMismatchKindV1::Geometry,
        expected.geometries@,
        observed.geometries@,
    );
    lemma_family_mismatch_none(
        HeadlessMismatchKindV1::Semantics,
        expected.semantics@,
        observed.semantics@,
    );
    lemma_family_mismatch_none(
        HeadlessMismatchKindV1::HitRegions,
        expected.hit_regions@,
        observed.hit_regions@,
    );
    lemma_family_mismatch_none(
        HeadlessMismatchKindV1::SceneRectangles,
        expected.scene_rectangles@,
        observed.scene_rectangles@,
    );
}

/// Two computed styles hold the same path, width, height, color, visibility
/// and input policy.
pub open spec fn same_computed_style(left: NormalizedHeadlessComputedStyleV1, right: NormalizedHeadlessComputedStyleV1) -> bool {
    &&& left.path@ == right.path@
    &&& left.width == right.width
    &&& left.height == right.height
    &&& left.color == right.color
    &&& left.visible == right.visible
    &&& left.input == right.input
}

/// Two families hold the same records, index by index.
pub open spec fn same_computed_styles(expected: Seq<NormalizedHeadlessComputedStyleV1>, observed: Seq<NormalizedHeadlessComputedStyleV1>) -> bool {
    &&& expected.len() == observed.len()
    &&& forall|i: int| 0 <= i < expected.len() ==> same_computed_style(#[trigger] expected[i], observed[i])
}

/// Two families agree record by record exactly when they hold the same
/// records, field for field.
pub proof fn lemma_computed_styles_agree(
    expected: Seq<NormalizedHeadlessComputedStyleV1>,
    observed: Seq<NormalizedHeadlessComputedStyleV1>,
)
    ensures
        families_agree(expected, observed) <==> same_computed_styles(expected, observed),
{
    if families_agree(expected, observed) {
        assert forall|i: int| 0 <= i < expected.len() implies same_computed_style(
            #[trigger] expected[i],
            observed[i],
        ) by {
            assert(expected[i].record_path() == observed[i].record_path());
            lemma_computed_payload_agreement(&expected[i], &observed[i]);
        }
    }
    if same_computed_styles(expected, observed) {
        assert forall|i: int| 0 <= i < expected.len() implies #[trigger] expected[i].record_path()
            == observed[i].record_path() && expected[i].payload_field(&observed[i]) is None by {
            lemma_computed_payload_agreement(&expected[i], &observed[i]);
        }
    }
}

/// Two geometry records hold the same path, bounds and clip.
pub open spec fn same_geometry(left: NormalizedHeadlessGeometryV1, right: NormalizedHeadlessGeometryV1) -> bool {
    &&& left.path@ == right.path@
    &&& left.bounds == right.bounds
    &&& left.clip == right.clip
}

/// Two families hold the same records, index by index.
pub open spec fn same_geometries(expected: Seq<NormalizedHeadlessGeometryV1>, observed: Seq<NormalizedHeadlessGeometryV1>) -> bool {
    &&& expected.len() == observed.len()
    &&& forall|i: int| 0 <= i < expected.len() ==> same_geometry(#[trigger] expected[i], observed[i])
}

/// Two families agree record by record exactly when they hold the same
/// records, field for field.
pub proof fn lemma_geometries_agree(
    expected: Seq<NormalizedHeadlessGeometryV1>,
    observed: Seq<NormalizedHeadlessGeometryV1>,
)
    ensures
        families_agree(expected, observed) <==> same_geometries(expected, observed),
{
    if families_agree(expected, observed) {
        assert forall|i: int| 0 <= i < expected.len() implies same_geometry(
            #[trigger] expected[i],
            observed[i],
        ) by {
            assert(expected[i].record_path() == observed[i].record_path());
            lemma_geometry_payload_agreement(&expected[i], &observed[i]);
        }
    }
    if same_geometries(expected, observed) {
        assert forall|i: int| 0 <= i < expected.len() implies #[trigger] expected[i].record_path()
            == observed[i].record_path() && expected[i].payload_field(&observed[i]) is None by {
            lemma_geometry_payload_agreement(&expected[i], &observed[i]);
        }
    }
}

/// Two semantic records hold the same path, role, label and action.
pub open spec fn same_semantic(left: NormalizedHeadlessSemanticV1, right: NormalizedHeadlessSemanticV1) -> bool {
    &&& left.path@ == right.path@
    &&& left.role == right.role
    &&& left.label == right.label
    &&& left.action == right.action
}

/// Two families hold the same records, index by index.
pub open spec fn same_semantics(expected: Seq<NormalizedHeadlessSemanticV1>, observed: Seq<NormalizedHeadlessSemanticV1>) -> bool {
    &&& expected.len() == observed.len()
    &&& forall|i: int| 0 <= i < expected.len() ==> same_semantic(#[trigger] expected[i], observed[i])
}

/// Two families agree record by record exactly when they hold the same
/// records, field for field.
pub proof fn lemma_semantics_agree(
    expected: Seq<NormalizedHeadlessSemanticV1>,
    observed: Seq<NormalizedHeadlessSemanticV1>,
)
    ensures
        families_agree(expected, observed) <==> same_semantics(expected, observed),
{
    if families_agree(expected, observed) {
        assert forall|i: int| 0 <= i < expected.len() implies same_semantic(
            #[trigger] expected[i],
            observed[i],
        ) by {
            assert(expected[i].record_path() == observed[i].record_path());
            lemma_semantic_payload_agreement(&expected[i], &observed[i]);
        }
    }
    if same_semantics(expected, observed) {
        assert forall|i: int| 0 <= i < expected.len() implies #[trigger] expected[i].record_path()
            == observed[i].record_path() && expected[i].payload_field(&observed[i]) is None by {
            lemma_semantic_payload_agreement(&expected[i], &observed[i]);
        }
    }
}

/// Two hit regions hold the same path and clip.
pub open spec fn same_hit_region(left: NormalizedHeadlessHitRegionV1, right: NormalizedHeadlessHitRegionV1) -> bool {
    &&& left.path@ == right.path@
    &&& left.clip == right.clip
}

/// Two families hold the same records, index by index.
pub open spec fn same_hit_regions(expected: Seq<NormalizedHeadlessHitRegionV1>, observed: Seq<NormalizedHeadlessHitRegionV1>) -> bool {
    &&& expected.len() == observed.len()
    &&& forall|i: int| 0 <= i < expected.len() ==> same_hit_region(#[trigger] expected[i], observed[i])
}

/// Two families agree record by record exactly when they hold the same
/// records, field for field.
pub proof fn lemma_hit_regions_agree(
    expected: Seq<NormalizedHeadlessHitRegionV1>,
    observed: Seq<NormalizedHeadlessHitRegionV1>,
)
    ensures
        families_agree(expected, observed) <==> same_hit_regions(expected, observed),
{
    if families_agree(expected, observed) {
        assert forall|i: int| 0 <= i < expected.len() implies same_hit_region(
            #[trigger] expected[i],
            observed[i],
        ) by {
            assert(expected[i].record_path() == observed[i].record_path());
            lemma_hit_payload_agreement(&expected[i], &observed[i]);
        }
    }
    if same_hit_regions(expected, observed) {
        assert forall|i: int| 0 <= i < expected.len() implies #[trigger] expected[i].record_path()
            == observed[i].record_path() && expected[i].payload_field(&observed[i]) is None by {
            lemma_hit_payload_agreement(&expected[i], &observed[i]);
        }
    }
}

/// Two scene rectangles hold the same path, rectangle and color.
pub open spec fn same_scene_rectangle(left: NormalizedHeadlessSceneRectangleV1, right: NormalizedHeadlessSceneRectangleV1) -> bool {
    &&& left.path@ == right.path@
    &&& left.rectangle == right.rectangle
    &&& left.color == right.color
}

/// Two families hold the same records, index by index.
pub open spec fn same_scene_rectangles(expected: Seq<NormalizedHeadlessSceneRectangleV1>, observed: Seq<NormalizedHeadlessSceneRectangleV1>) -> bool {
    &&& expected.len() == observed.len()
    &&& forall|i: int| 0 <= i < expected.len() ==> same_scene_rectangle(#[trigger] expected[i], observed[i])
}

/// Two families agree record by record exactly when they hold the same
/// records, field for field.
pub proof fn lemma_scene_rectangles_agree(
    expected: Seq<NormalizedHeadlessSceneRectangleV1>,
    observed: Seq<NormalizedHeadlessSceneRectangleV1>,
)
    ensures
        families_agree(expected, observed) <==> same_scene_rectangles(expected, observed),
{
    if families_agree(expected, observed) {
        assert forall|i: int| 0 <= i < expected.len() implies same_scene_rectangle(
            #[trigger] expected[i],
            observed[i],
        ) by {
            assert(expected[i].record_path() == observed[i].record_path());
            lemma_scene_payload_agreement(&expected[i], &observed[i]);
        }
    }
    if same_scene_rectangles(expected, observed) {
        assert forall|i: int| 0 <= i < expected.len() implies #[trigger] expected[i].record_path()
            == observed[i].record_path() && expected[i].payload_field(&observed[i]) is None by {
            lemma_scene_payload_agreement(&expected[i], &observed[i]);
        }
    }
}

/// Two projections hold the same records in every family.
pub open spec fn same_projection_records(
    expected: &NormalizedHeadlessProjectionV1,
    observed: &NormalizedHeadlessProjectionV1,
) -> bool {
    &&& same_computed_styles(expected.computed_styles@, observed.computed_styles@)
    &&& same_geometries(expected.geometries@, observed.geometries@)
    &&& same_semantics(expected.semantics@, observed.semantics@)
    &&& same_hit_regions(expected.hit_regions@, observed.hit_regions@)
    &&& same_scene_rectangles(expected.scene_rectangles@, observed.scene_rectangles@)
}

/// Two projections of one surface compare without a mismatch exactly when
/// every family holds the same records, field for field: a record that
/// differs in any path or payload field (a semantic action among them) is
/// reported.
pub proof fn lemma_projection_matches_exactly(
    expected: &NormalizedHeadlessProjectionV1,
    observed: &NormalizedHeadlessProjectionV1,
)
    ensures
        projection_mismatch(expected, observed) is None <==> same_projection_records(
            expected,
            observed,
        ),
{
    lemma_projection_mismatch_none(expected, observed);
    lemma_computed_styles_agree(expected.computed_styles@, observed.computed_styles@);
    lemma_geometries_agree(expected.geometries@, observed.geometries@);
    lemma_semantics_agree(expected.semantics@, observed.semantics@);
    lemma_hit_regions_agree(expected.hit_regions@, observed.hit_regions@);
    lemma_scene_rectangles_agree(expected.scene_rectangles@, observed.scene_rectangles@);
}

/// The view of an optional mismatch.
pub open spec fn mismatch_view(found: Option<HeadlessMismatchV1>) -> Option<HeadlessMismatchView> {
    match found {
        Some(mismatch) => Some(mismatch@),
        None => None,
    }
}

/// Returns the first deterministic mismatch after validating the surface.
///
/// Projections of different surfaces are not comparable: that is a state
/// mismatch of the harness. Otherwise the result is the first differing
/// record of the first differing family, or `None` when they agree.
pub fn compare_headless_projection_v1(
    expected: &NormalizedHeadlessProjectionV1,
    observed: &NormalizedHeadlessProjectionV1,
) -> (result: Result<Option<HeadlessMismatchV1>, HarnessError>)
    ensures
        match result {
            Err(error) => expected.surface != observed.surface && error.is_unlocated(
                HarnessErrorKind::StateMismatch,
            ),
            Ok(found) => expected.surface == observed.surface && mismatch_view(found)
                == projection_mismatch(expected, observed),
        },
        (result matches Ok(None)) <==> (expected.surface == observed.surface
            && same_projection_records(expected, observed)),
{
    proof {
        lemma_projection_matches_exactly(expected, observed);
    }
    if expected.surface != observed.surface {
        return Err(HarnessError::new(HarnessErrorKind::StateMismatch));
    }
    let computed = compare_records(
        HeadlessMismatchKindV1::ComputedStyle,
        &expected.computed_styles,
        &observed.computed_styles,
    );
    if computed.is_some() {
        return Ok(computed);
    }
    let geometry = compare_records(
        HeadlessMismatchKindV1::Geometry,
        &expected.geometries,
        &observed.geometries,
    );
    if geometry.is_some() {
        return Ok(geometry);
    }
    let semantics = compare_records(
        HeadlessMismatchKindV1::Semantics,
        &expected.semantics,
        &observed.semantics,
    );
    if semantics.is_some() {
        return Ok(semantics);
    }
    let hits = compare_records(
        HeadlessMismatchKindV1::HitRegions,
        &expected.hit_regions,
        &observed.hit_regions,
    );
    if hits.is_some() {
        return Ok(hits);
    }
    Ok(
        compare_records(
            HeadlessMismatchKindV1::SceneRectangles,
            &expected.scene_rectangles,
            &observed.scene_rectangles,
        ),
    )
}

/// Returns the first mismatch within one ordered record family.
pub fn compare_records<T: ProjectionRecordV1>(
    kind: HeadlessMismatchKindV1,
    expected: &Vec<T>,
    observed: &Vec<T>,
) -> (found: Option<HeadlessMismatchV1>)
    ensures
        mismatch_view(found) == family_mismatch(kind, expected@, observed@),
{
    let count = if expected.len() >= observed.len() {
        expected.len()
    } else {
        observed.len()
    };
    let mut index: usize = 0;
    while index < count
        invariant
            index <= count,
            count == longer_len(expected@, observed@),
            first_difference_from(expected@, observed@, 0) == first_difference_from(
                expected@,
                observed@,
                index as int,
            ),
        decreases count - index,
    {
        let field = if index < expected.len() && index < observed.len() {
            let left = &expected[index];
            let right = &observed[index];
            if !left.address().same(right.address()) {
                Some(HeadlessMismatchFieldV1::Path)
            } else {
                left.first_payload_difference(right)
            }
        } else {
            Some(HeadlessMismatchFieldV1::Path)
        };
        match field {
            Some(field) => {
                let location = if index < expected.len() {
                    HeadlessMismatchLocationV1::Path(expected[index].address().clone())
                } else {
                    HeadlessMismatchLocationV1::Path(observed[index].address().clone())
                };
                let found = HeadlessMismatchV1 { kind, index, field, location };
                return Some(found);
            },
            None => {},
        }
        index = index + 1;
    }
    None
}

} // verus!
