use vstd::prelude::*;

use crate::case::{PropertyId, PropertyValue};
use crate::model::{ComponentId, TemplateNodeId};
use crate::semantic::{FragmentPathV1, NodePathV1, PathSegmentV1};

verus! {

/// Closed reasons the runtime gives for rejecting a candidate transaction.
#[derive(Clone, Copy, Debug, PartialEq, Eq, Structural)]
pub enum CandidateRejectionV1 {
    /// Too many staged operations.
    CapacityOperations,
    /// Too many structural changes.
    CapacityStructural,
    /// Too many live nodes.
    CapacityLiveNodes,
    /// Too many live fragments.
    CapacityLiveFragments,
    /// Too many live property slots.
    CapacityLiveProperties,
    /// Too many retained generations.
    CapacityRetainedGenerations,
    /// The candidate was staged against a stale base.
    StaleBase,
    /// A node handle is not live.
    MissingNode,
    /// A fragment handle is not live.
    MissingFragment,
    /// A keyed member is absent.
    MissingKey,
    /// A keyed member already exists.
    DuplicateKey,
    /// The property is not in the component schema.
    UnknownProperty,
    /// The value has the wrong type.
    PropertyTypeMismatch,
    /// A final index is out of bounds.
    IndexOutOfBounds,
    /// The generation counter is exhausted.
    GenerationExhausted,
    /// An internal runtime invariant failed.
    InvariantViolation,
}

/// Closed failure families of a replay fingerprint.
#[derive(Clone, Copy, Debug, PartialEq, Eq, Structural)]
pub enum FailureFingerprintKindV1 {
    /// The runtime rejected a candidate.
    CandidateRejected,
    /// Observed logical state differs from the clean rebuild.
    StateMismatch,
    /// Physical identities violated the lifecycle contract.
    IdentityMismatch,
}

/// The field a state mismatch was found in.
#[derive(Clone, Copy, Debug, PartialEq, Eq, Structural)]
pub enum FingerprintFieldV1 {
    /// Node template.
    Template,
    /// Node component.
    Component,
    /// One property value.
    Property,
    /// Parent link.
    Parent,
    /// Fragment binding presence.
    FragmentBinding,
    /// Keyed member order.
    KeyedOrder,
    /// Flattened child order.
    ChildOrder,
    /// Reported node count.
    NodeCount,
    /// Reported fragment count.
    FragmentCount,
    /// Reported property slot count.
    PropertyCount,
    /// Identity lifecycle.
    IdentityLifecycle,
}

/// Privacy-safe summary of one side of a mismatch.
#[derive(Clone, Debug, PartialEq, Eq)]
pub enum FingerprintSummaryV1 {
    /// Nothing was found.
    Absent,
    /// The handle was kept across the transition.
    LifecyclePreserved,
    /// The handle was retired.
    LifecycleRetired,
    /// A fresh handle was issued.
    LifecycleFresh,
    /// Live handles are pairwise distinct.
    LifecycleDistinct,
    /// Two live paths share one handle.
    LifecycleAliased,
    /// A count.
    Count(u32),
    /// A fragment binding exists.
    BindingPresent,
    /// A fragment binding is missing.
    BindingAbsent,
    /// A template.
    Template(TemplateNodeId),
    /// A component.
    Component(ComponentId),
    /// A property and its value.
    Property(PropertyId, PropertyValue),
    /// One node by semantic path.
    Node(NodePathV1),
    /// Nodes by semantic path, in order.
    Nodes(Vec<NodePathV1>),
    /// Keys in order.
    Keys(Vec<u64>),
}

/// Mathematical form of a summary.
pub enum SummaryView {
    Absent,
    LifecyclePreserved,
    LifecycleRetired,
    LifecycleFresh,
    LifecycleDistinct,
    LifecycleAliased,
    Count(u32),
    BindingPresent,
    BindingAbsent,
    Template(TemplateNodeId),
    Component(ComponentId),
    Property(PropertyId, PropertyValue),
    Node(Seq<PathSegmentV1>),
    Nodes(Seq<Seq<PathSegmentV1>>),
    Keys(Seq<u64>),
}

/// The views of node paths.
pub open spec fn paths_view(paths: Seq<NodePathV1>) -> Seq<Seq<PathSegmentV1>> {
    paths.map_values(|path: NodePathV1| path@)
}

impl View for FingerprintSummaryV1 {
    type V = SummaryView;

    open spec fn view(&self) -> SummaryView {
        match self {
            FingerprintSummaryV1::Absent => SummaryView::Absent,
            FingerprintSummaryV1::LifecyclePreserved => SummaryView::LifecyclePreserved,
            FingerprintSummaryV1::LifecycleRetired => SummaryView::LifecycleRetired,
            FingerprintSummaryV1::LifecycleFresh => SummaryView::LifecycleFresh,
            FingerprintSummaryV1::LifecycleDistinct => SummaryView::LifecycleDistinct,
            FingerprintSummaryV1::LifecycleAliased => SummaryView::LifecycleAliased,
            FingerprintSummaryV1::Count(count) => SummaryView::Count(*count),
            FingerprintSummaryV1::BindingPresent => SummaryView::BindingPresent,
            FingerprintSummaryV1::BindingAbsent => SummaryView::BindingAbsent,
            FingerprintSummaryV1::Template(template) => SummaryView::Template(*template),
            FingerprintSummaryV1::Component(component) => SummaryView::Component(*component),
            FingerprintSummaryV1::Property(property, value) => SummaryView::Property(
                *property,
                *value,
            ),
            FingerprintSummaryV1::Node(path) => SummaryView::Node(path@),
            FingerprintSummaryV1::Nodes(paths) => SummaryView::Nodes(paths_view(paths@)),
            FingerprintSummaryV1::Keys(keys) => SummaryView::Keys(keys@),
        }
    }
}

/// Mathematical form of a fingerprint location.
pub enum FingerprintLocationView {
    Global,
    Node(Seq<PathSegmentV1>),
    Fragment((Seq<PathSegmentV1>, u16)),
}

/// Semantic location of one mismatch.
#[derive(Debug, PartialEq, Eq)]
pub enum FingerprintLocationV1 {
    /// The whole state.
    Global,
    /// One node.
    Node(NodePathV1),
    /// One fragment.
    Fragment(FragmentPathV1),
}

impl View for FingerprintLocationV1 {
    type V = FingerprintLocationView;

    open spec fn view(&self) -> FingerprintLocationView {
        match self {
            FingerprintLocationV1::Global => FingerprintLocationView::Global,
            FingerprintLocationV1::Node(path) => FingerprintLocationView::Node(path@),
            FingerprintLocationV1::Fragment(path) => FingerprintLocationView::Fragment(path@),
        }
    }
}

/// Mathematical form of a fingerprint.
pub struct FingerprintView {
    pub kind: FailureFingerprintKindV1,
    pub location: FingerprintLocationView,
    pub field: FingerprintFieldV1,
    pub expected: SummaryView,
    pub observed: SummaryView,
    pub rejection: Option<CandidateRejectionV1>,
}

/// Privacy-safe, comparable description of the first replay failure.
#[derive(Debug, PartialEq, Eq)]
pub struct FailureFingerprintV1 {
    kind: FailureFingerprintKindV1,
    location: FingerprintLocationV1,
    field: FingerprintFieldV1,
    expected: FingerprintSummaryV1,
    observed: FingerprintSummaryV1,
    rejection: Option<CandidateRejectionV1>,
}

impl View for FailureFingerprintV1 {
    type V = FingerprintView;

    closed spec fn view(&self) -> FingerprintView {
        FingerprintView {
            kind: self.kind,
            location: self.location@,
            field: self.field,
            expected: self.expected@,
            observed: self.observed@,
            rejection: self.rejection,
        }
    }
}

impl FailureFingerprintV1 {
    /// A candidate rejection with its closed reason.
    pub fn candidate_rejected(rejection: CandidateRejectionV1) -> (fingerprint: Self)
        ensures
            fingerprint@ == (FingerprintView {
                kind: FailureFingerprintKindV1::CandidateRejected,
                location: FingerprintLocationView::Global,
                field: FingerprintFieldV1::IdentityLifecycle,
                expected: SummaryView::Absent,
                observed: SummaryView::Absent,
                rejection: Some(rejection),
            }),
    {
        FailureFingerprintV1 {
            kind: FailureFingerprintKindV1::CandidateRejected,
            location: FingerprintLocationV1::Global,
            field: FingerprintFieldV1::IdentityLifecycle,
            expected: FingerprintSummaryV1::Absent,
            observed: FingerprintSummaryV1::Absent,
            rejection: Some(rejection),
        }
    }

    /// An identity lifecycle mismatch at one location.
    pub fn identity_mismatch(
        location: FingerprintLocationV1,
        expected: FingerprintSummaryV1,
        observed: FingerprintSummaryV1,
    ) -> (fingerprint: Self)
        ensures
            fingerprint@ == (FingerprintView {
                kind: FailureFingerprintKindV1::IdentityMismatch,
                location: location@,
                field: FingerprintFieldV1::IdentityLifecycle,
                expected: expected@,
                observed: observed@,
                rejection: None,
            }),
    {
        FailureFingerprintV1 {
            kind: FailureFingerprintKindV1::IdentityMismatch,
            location,
            field: FingerprintFieldV1::IdentityLifecycle,
            expected,
            observed,
            rejection: None,
        }
    }

    /// A logical state mismatch in one field.
    pub fn state_mismatch(
        location: FingerprintLocationV1,
        field: FingerprintFieldV1,
        expected: FingerprintSummaryV1,
        observed: FingerprintSummaryV1,
    ) -> (fingerprint: Self)
        ensures
            fingerprint@ == (FingerprintView {
                kind: FailureFingerprintKindV1::StateMismatch,
                location: location@,
                field,
                expected: expected@,
                observed: observed@,
                rejection: None,
            }),
    {
        FailureFingerprintV1 {
            kind: FailureFingerprintKindV1::StateMismatch,
            location,
            field,
            expected,
            observed,
            rejection: None,
        }
    }

    /// Returns the failure family.
    pub fn kind(&self) -> (kind: FailureFingerprintKindV1)
        ensures
            kind == self@.kind,
    {
        self.kind
    }

    /// Returns the mismatching field.
    pub fn field(&self) -> (field: FingerprintFieldV1)
        ensures
            field == self@.field,
    {
        self.field
    }

    /// Returns the expected summary.
    pub fn expected(&self) -> (summary: &FingerprintSummaryV1)
        ensures
            summary@ == self@.expected,
    {
        &self.expected
    }

    /// Returns the observed summary.
    pub fn observed(&self) -> (summary: &FingerprintSummaryV1)
        ensures
            summary@ == self@.observed,
    {
        &self.observed
    }

    /// Returns the candidate rejection reason, if any.
    pub fn rejection(&self) -> (rejection: Option<CandidateRejectionV1>)
        ensures
            rejection == self@.rejection,
    {
        self.rejection
    }

    /// Returns the semantic location.
    pub fn location(&self) -> (location: &FingerprintLocationV1)
        ensures
            location@ == self@.location,
    {
        &self.location
    }
}

} // verus!
