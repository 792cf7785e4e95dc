use vstd::prelude::*;

use crate::case::{SemanticOperationV1, SemanticOperationView};
use crate::headless::platform::HeadlessPointerTargetV1;
use crate::headless::trace::{HeadlessFailureCauseV1, HeadlessInputKindV1};
use crate::semantic::{FragmentPathV1, NodePathV1, PathSegmentV1};

verus! {

/// Closed synthetic outcome of the registered headless run.
#[derive(Clone, Copy, Debug, PartialEq, Eq, Structural)]
pub enum HeadlessResultV1 {
    /// The synthetic script and oracle completed without a mismatch.
    Pass,
    /// The synthetic result requires a documented adaptation.
    Adapt,
    /// The synthetic result requires the feasibility path to stop.
    Stop,
}

/// Privacy-safe failure from the fixed headless runner.
#[derive(Clone, Copy, Debug, PartialEq, Eq, Structural)]
pub struct HeadlessRunErrorV1 {
    kind: HeadlessFailureCauseV1,
}

impl HeadlessRunErrorV1 {
    /// The failure source.
    pub closed spec fn spec_kind(self) -> HeadlessFailureCauseV1 {
        self.kind
    }

    /// Creates a failure from its source.
    pub fn new(kind: HeadlessFailureCauseV1) -> (error: Self)
        ensures
            error.spec_kind() == kind,
    {
        HeadlessRunErrorV1 { kind }
    }

    /// Returns the closed failure source.
    pub fn kind(&self) -> (kind: HeadlessFailureCauseV1)
        ensures
            kind == self.spec_kind(),
    {
        self.kind
    }
}

/// The spine fixture's root.
pub fn root_path() -> (path: NodePathV1)
    ensures
        path@ == Seq::<PathSegmentV1>::empty(),
{
    NodePathV1::root()
}

/// The spine fixture's container: the root's first static child.
pub fn container_path() -> (path: NodePathV1)
    ensures
        path@ == seq![PathSegmentV1::Static { authored_slot: 0 }],
{
    root_path().static_child(0)
}

/// The address of the spine fixture's static control.
pub open spec fn control_path_view() -> Seq<PathSegmentV1> {
    seq![PathSegmentV1::Static { authored_slot: 0 }, PathSegmentV1::Static { authored_slot: 0 }]
}

/// The spine fixture's static control: the container's first static child.
pub fn control_path() -> (path: NodePathV1)
    ensures
        path@ == control_path_view(),
{
    let path = container_path().static_child(0);
    assert(path@ =~= control_path_view());
    path
}

/// The spine fixture's keyed item with a key.
pub fn item_path(key: u64) -> (path: NodePathV1)
    ensures
        path@ == seq![
            PathSegmentV1::Static { authored_slot: 0 },
            PathSegmentV1::Member { region_slot: 1, key },
        ],
{
    let path = container_path().member(1, key);
    assert(path@ =~= seq![
        PathSegmentV1::Static { authored_slot: 0 },
        PathSegmentV1::Member { region_slot: 1, key },
    ]);
    path
}

/// The spine fixture's keyed items region.
pub fn items_path() -> (path: FragmentPathV1)
    ensures
        path@ == (seq![PathSegmentV1::Static { authored_slot: 0 }], 1u16),
{
    FragmentPathV1::new(container_path(), 1)
}

/// What a scripted operation records in the headless trace: its input kind,
/// and the pointer target it stands for: the static control for a property
/// of the control, the key for a keyed operation, none otherwise.
pub open spec fn operation_trace_of(operation: SemanticOperationView) -> (
    HeadlessInputKindV1,
    HeadlessPointerTargetV1,
) {
    match operation {
        SemanticOperationView::SetProperty { node, .. } => if node == control_path_view() {
            (HeadlessInputKindV1::Direct, HeadlessPointerTargetV1::StaticControl)
        } else {
            (HeadlessInputKindV1::Direct, HeadlessPointerTargetV1::Absent)
        },
        SemanticOperationView::InsertKeyed { key, .. } => (
            HeadlessInputKindV1::Insert,
            HeadlessPointerTargetV1::Key(key),
        ),
        SemanticOperationView::MoveKeyed { key, .. } => (
            HeadlessInputKindV1::Move,
            HeadlessPointerTargetV1::Key(key),
        ),
        SemanticOperationView::UpdateKeyed { key, .. } => (
            HeadlessInputKindV1::Update,
            HeadlessPointerTargetV1::Key(key),
        ),
        SemanticOperationView::RemoveKeyed { key, .. } => (
            HeadlessInputKindV1::Remove,
            HeadlessPointerTargetV1::Key(key),
        ),
    }
}

/// Returns what a scripted operation records in the headless trace.
pub fn operation_trace(operation: &SemanticOperationV1) -> (trace: (
    HeadlessInputKindV1,
    HeadlessPointerTargetV1,
))
    ensures
        trace == operation_trace_of(operation@),
{
    match operation {
        SemanticOperationV1::SetProperty { node, .. } => if node.same(&control_path()) {
            (HeadlessInputKindV1::Direct, HeadlessPointerTargetV1::StaticControl)
        } else {
            (HeadlessInputKindV1::Direct, HeadlessPointerTargetV1::Absent)
        },
        SemanticOperationV1::InsertKeyed { key, .. } => (
            HeadlessInputKindV1::Insert,
            HeadlessPointerTargetV1::Key(*key),
        ),
        SemanticOperationV1::MoveKeyed { key, .. } => (
            HeadlessInputKindV1::Move,
            HeadlessPointerTargetV1::Key(*key),
        ),
        SemanticOperationV1::UpdateKeyed { key, .. } => (
            HeadlessInputKindV1::Update,
            HeadlessPointerTargetV1::Key(*key),
        ),
        SemanticOperationV1::RemoveKeyed { key, .. } => (
            HeadlessInputKindV1::Remove,
            HeadlessPointerTargetV1::Key(*key),
        ),
    }
}

} // verus!
