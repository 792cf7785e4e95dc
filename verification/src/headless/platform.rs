use vstd::prelude::*;

use crate::identity::{IdentityIndexV1, NodeId};
use crate::headless::oracle::normalize::path_of;
use crate::scheduler::{FakeCallbackReportV1, SchedulerErrorKind};
use crate::semantic::{NodePathV1, PathSegmentV1};

verus! {

/// Closed target vocabulary for deterministic headless pointer input.
#[derive(Clone, Copy, Debug, PartialEq, Eq, Structural)]
pub enum HeadlessPointerTargetV1 {
    /// The committed hit-test projection contains no target at the point.
    Absent,
    /// The fixed static control received the pointer.
    StaticControl,
    /// One keyed member received the pointer.
    Key(u64),
}

/// Callback result paired with its closed pointer target, if any.
#[derive(Clone, Copy, Debug, PartialEq, Eq, Structural)]
pub struct HeadlessCallbackReportV1 {
    callback: FakeCallbackReportV1,
    target: HeadlessPointerTargetV1,
}

impl HeadlessCallbackReportV1 {
    /// The callback's own report.
    pub closed spec fn spec_callback(self) -> FakeCallbackReportV1 {
        self.callback
    }

    /// The pointer target.
    pub closed spec fn spec_target(self) -> HeadlessPointerTargetV1 {
        self.target
    }

    /// Pairs a callback report with its target.
    pub fn new(callback: FakeCallbackReportV1, target: HeadlessPointerTargetV1) -> (report: Self)
        ensures
            report.spec_callback() == callback,
            report.spec_target() == target,
    {
        HeadlessCallbackReportV1 { callback, target }
    }

    /// Returns the generation captured by the outer callback scope.
    pub fn captured_generation(self) -> (generation: u64)
        ensures
            generation == self.spec_callback().captured_generation,
    {
        self.callback.captured_generation
    }

    /// Returns the deepest one-based callback depth reached.
    pub fn deepest_depth(self) -> (depth: usize)
        ensures
            depth == self.spec_callback().deepest_depth,
    {
        self.callback.deepest_depth
    }

    /// Reports whether every callback scope shared the entry allocation.
    pub fn shares_entry_snapshot(self) -> (shares: bool)
        ensures
            shares == self.spec_callback().shares_entry_snapshot,
    {
        self.callback.shares_entry_snapshot
    }

    /// Returns the pointer target, or `Absent` for resize and pointer misses.
    pub fn target(self) -> (target: HeadlessPointerTargetV1)
        ensures
            target == self.spec_target(),
    {
        self.target
    }
}

/// Closed failures produced by deterministic headless platform input.
#[derive(Clone, Copy, Debug, PartialEq, Eq, Structural)]
pub enum HeadlessPlatformErrorKindV1 {
    /// The scheduler rejected the corresponding callback interaction.
    Scheduler(SchedulerErrorKind),
    /// The committed runtime has no headless projection.
    HeadlessUnavailable,
    /// A runtime hit cannot be represented by the fixed target vocabulary.
    IdentityMismatch,
}

/// Privacy-safe headless platform failure.
#[derive(Clone, Copy, Debug, PartialEq, Eq, Structural)]
pub struct HeadlessPlatformErrorV1 {
    pub kind: HeadlessPlatformErrorKindV1,
    pub operation_index: Option<usize>,
}

impl HeadlessPlatformErrorV1 {
    /// Creates a failure, with the staged operation it concerns, if any.
    pub fn new(kind: HeadlessPlatformErrorKindV1, operation_index: Option<usize>) -> (error: Self)
        ensures
            error == (HeadlessPlatformErrorV1 { kind, operation_index }),
    {
        HeadlessPlatformErrorV1 { kind, operation_index }
    }

    /// Returns the closed failure category.
    pub fn kind(self) -> (kind: HeadlessPlatformErrorKindV1)
        ensures
            kind == self.kind,
    {
        self.kind
    }

    /// Returns the staged operation associated with a scheduler rejection.
    pub fn operation_index(self) -> (index: Option<usize>)
        ensures
            index == self.operation_index,
    {
        self.operation_index
    }
}

/// Opaque pointer capability captured from one committed generation.
#[derive(Clone, Copy, Debug, PartialEq, Eq, Structural)]
pub struct HeadlessPointerCaptureV1 {
    pub generation: u64,
    pub target: HeadlessPointerTargetV1,
    pub node: Option<NodeId>,
}

impl HeadlessPointerCaptureV1 {
    /// Returns the generation used for the hit-test query.
    pub fn generation(&self) -> (generation: u64)
        ensures
            generation == self.generation,
    {
        self.generation
    }

    /// Returns the stable closed target without its runtime identity.
    pub fn target(&self) -> (target: HeadlessPointerTargetV1)
        ensures
            target == self.target,
    {
        self.target
    }
}

/// The fixed target a semantic path names: the control below the root's
/// first static child, or a member of its keyed region.
pub open spec fn target_of_path(segments: Seq<PathSegmentV1>) -> Option<HeadlessPointerTargetV1> {
    if segments.len() == 2 && segments[0] == (PathSegmentV1::Static { authored_slot: 0 }) {
        match segments[1] {
            PathSegmentV1::Static { authored_slot } => if authored_slot == 0 {
                Some(HeadlessPointerTargetV1::StaticControl)
            } else {
                None
            },
            PathSegmentV1::Member { region_slot, key } => if region_slot == 1 {
                Some(HeadlessPointerTargetV1::Key(key))
            } else {
                None
            },
        }
    } else {
        None
    }
}

/// The fixed target vocabulary names exactly two kinds of node: the path
/// of the root's first static child's first static child is the static
/// control, and a member of that child's keyed region is its key; every
/// other path names no target.
pub proof fn lemma_target_paths(path: Seq<PathSegmentV1>, key: u64)
    ensures
        target_of_path(
            seq![
                PathSegmentV1::Static { authored_slot: 0 },
                PathSegmentV1::Static { authored_slot: 0 },
            ],
        ) == Some(HeadlessPointerTargetV1::StaticControl),
        target_of_path(
            seq![
                PathSegmentV1::Static { authored_slot: 0 },
                PathSegmentV1::Member { region_slot: 1, key },
            ],
        ) == Some(HeadlessPointerTargetV1::Key(key)),
        target_of_path(path) == Some(HeadlessPointerTargetV1::StaticControl) ==> path
            == seq![
            PathSegmentV1::Static { authored_slot: 0 },
            PathSegmentV1::Static { authored_slot: 0 },
        ],
        target_of_path(path) == Some(HeadlessPointerTargetV1::Key(key)) ==> path
            == seq![
            PathSegmentV1::Static { authored_slot: 0 },
            PathSegmentV1::Member { region_slot: 1, key },
        ],
{
    if target_of_path(path) == Some(HeadlessPointerTargetV1::StaticControl) {
        assert(path =~= seq![
            PathSegmentV1::Static { authored_slot: 0 },
            PathSegmentV1::Static { authored_slot: 0 },
        ]);
    }
    if target_of_path(path) == Some(HeadlessPointerTargetV1::Key(key)) {
        assert(path =~= seq![
            PathSegmentV1::Static { authored_slot: 0 },
            PathSegmentV1::Member { region_slot: 1, key },
        ]);
    }
}

/// Classifies a hit node's path in the fixed target vocabulary.
pub fn pointer_target(path: &NodePathV1) -> (result: Result<
    HeadlessPointerTargetV1,
    HeadlessPlatformErrorV1,
>)
    ensures
        match result {
            Ok(target) => target_of_path(path@) == Some(target),
            Err(error) => target_of_path(path@) is None && error == identity_error_value(),
        },
{
    let segments = path.segments();
    if segments.len() != 2 {
        return Err(identity_error());
    }
    if segments[0] != (PathSegmentV1::Static { authored_slot: 0 }) {
        return Err(identity_error());
    }
    match segments[1] {
        PathSegmentV1::Static { authored_slot } => if authored_slot == 0 {
            Ok(HeadlessPointerTargetV1::StaticControl)
        } else {
            Err(identity_error())
        },
        PathSegmentV1::Member { region_slot, key } => if region_slot == 1 {
            Ok(HeadlessPointerTargetV1::Key(key))
        } else {
            Err(identity_error())
        },
    }
}

/// The unlocated identity failure.
pub open spec fn identity_error_value() -> HeadlessPlatformErrorV1 {
    HeadlessPlatformErrorV1 {
        kind: HeadlessPlatformErrorKindV1::IdentityMismatch,
        operation_index: None,
    }
}

fn identity_error() -> (error: HeadlessPlatformErrorV1)
    ensures
        error == identity_error_value(),
{
    HeadlessPlatformErrorV1::new(HeadlessPlatformErrorKindV1::IdentityMismatch, None)
}

/// The capture a committed hit test yields, or why it yields none: the
/// snapshot must carry a projection of its own generation, and a hit node must
/// be indexed at a path of the fixed target vocabulary.
pub open spec fn expected_capture(
    generation: u64,
    projection_generation: Option<u64>,
    hit: Option<NodeId>,
    identities: Option<crate::identity::IdentityIndexView>,
) -> Result<HeadlessPointerCaptureV1, HeadlessPlatformErrorKindV1> {
    match projection_generation {
        None => Err(HeadlessPlatformErrorKindV1::HeadlessUnavailable),
        Some(projected) => if projected != generation {
            Err(HeadlessPlatformErrorKindV1::IdentityMismatch)
        } else {
            match hit {
                None => Ok(
                    HeadlessPointerCaptureV1 {
                        generation,
                        target: HeadlessPointerTargetV1::Absent,
                        node: None,
                    },
                ),
                Some(node) => match identities {
                    None => Err(HeadlessPlatformErrorKindV1::IdentityMismatch),
                    Some(index) => match path_of(index, node) {
                        None => Err(HeadlessPlatformErrorKindV1::IdentityMismatch),
                        Some(path) => match target_of_path(path) {
                            None => Err(HeadlessPlatformErrorKindV1::IdentityMismatch),
                            Some(target) => Ok(
                                HeadlessPointerCaptureV1 { generation, target, node: Some(node) },
                            ),
                        },
                    },
                },
            }
        },
    }
}

/// The view of optional identities.
pub open spec fn identities_view(identities: &Option<IdentityIndexV1>) -> Option<
    crate::identity::IdentityIndexView,
> {
    match identities {
        Some(index) => Some(index@),
        None => None,
    }
}

/// Captures one committed hit-test result without retaining its snapshot.
///
/// `projection_generation` is the generation of the snapshot's headless
/// projection, if it has one; `hit` is the node the projection hit-tests at
/// the point; `identities` is the snapshot's identity index, when it could be
/// observed.
pub fn capture_pointer(
    generation: u64,
    projection_generation: Option<u64>,
    hit: Option<NodeId>,
    identities: &Option<IdentityIndexV1>,
) -> (result: Result<HeadlessPointerCaptureV1, HeadlessPlatformErrorV1>)
    ensures
        match result {
            Ok(capture) => expected_capture(
                generation,
                projection_generation,
                hit,
                identities_view(identities),
            ) == Ok::<HeadlessPointerCaptureV1, HeadlessPlatformErrorKindV1>(capture),
            Err(error) => error.operation_index is None && expected_capture(
                generation,
                projection_generation,
                hit,
                identities_view(identities),
            ) == Err::<HeadlessPointerCaptureV1, HeadlessPlatformErrorKindV1>(error.kind),
        },
{
    let projected = match projection_generation {
        Some(projected) => projected,
        None => return Err(
            HeadlessPlatformErrorV1::new(HeadlessPlatformErrorKindV1::HeadlessUnavailable, None),
        ),
    };
    if projected != generation {
        return Err(identity_error());
    }
    let node = match hit {
        Some(node) => node,
        None => return Ok(
            HeadlessPointerCaptureV1 {
                generation,
                target: HeadlessPointerTargetV1::Absent,
                node: None,
            },
        ),
    };
    let index = match identities {
        Some(index) => index,
        None => return Err(identity_error()),
    };
    let path = match index.node_path(node) {
        Some(path) => path,
        None => return Err(identity_error()),
    };
    let target = match pointer_target(path) {
        Ok(target) => target,
        Err(error) => return Err(error),
    };
    Ok(HeadlessPointerCaptureV1 { generation, target, node: Some(node) })
}

/// Refuses callback input while frame-ready delivery is pending.
pub fn ensure_callback_order(has_pending_frame_ready: bool) -> (result: Result<
    (),
    HeadlessPlatformErrorV1,
>)
    ensures
        match result {
            Ok(()) => !has_pending_frame_ready,
            Err(error) => has_pending_frame_ready && error == (HeadlessPlatformErrorV1 {
                kind: HeadlessPlatformErrorKindV1::Scheduler(SchedulerErrorKind::InputOutOfOrder),
                operation_index: None,
            }),
        },
{
    if has_pending_frame_ready {
        Err(
            HeadlessPlatformErrorV1::new(
                HeadlessPlatformErrorKindV1::Scheduler(SchedulerErrorKind::InputOutOfOrder),
                None,
            ),
        )
    } else {
        Ok(())
    }
}

} // verus!
