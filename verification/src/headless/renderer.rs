use vstd::prelude::*;

use crate::scheduler::{SyntheticResourceIdV1, SyntheticResourceUseV1};

verus! {

/// Bytes accounted for the synthetic resource of one headless frame.
pub const HEADLESS_RESOURCE_BYTES: usize = 64;

/// Closed failures produced while deriving a headless frame resource.
#[derive(Clone, Copy, Debug, PartialEq, Eq, Structural)]
pub enum HeadlessRendererErrorKindV1 {
    /// The frame snapshot has no headless projection.
    HeadlessUnavailable,
    /// The frame and its headless projection name different generations.
    IdentityMismatch,
}

/// Privacy-safe failure from headless renderer resource derivation.
#[derive(Clone, Copy, Debug, PartialEq, Eq, Structural)]
pub struct HeadlessRendererErrorV1 {
    kind: HeadlessRendererErrorKindV1,
}

impl HeadlessRendererErrorV1 {
    /// The failure category.
    pub closed spec fn spec_kind(self) -> HeadlessRendererErrorKindV1 {
        self.kind
    }

    fn new(kind: HeadlessRendererErrorKindV1) -> (error: Self)
        ensures
            error.spec_kind() == kind,
    {
        HeadlessRendererErrorV1 { kind }
    }

    /// Returns the closed headless renderer failure category.
    pub fn kind(self) -> (kind: HeadlessRendererErrorKindV1)
        ensures
            kind == self.spec_kind(),
    {
        self.kind
    }
}

/// Derives the fixed synthetic resource owned by one headless frame generation.
///
/// `projection_generation` is the generation of the frame snapshot's headless
/// projection, if it has one. The resource is named by the frame's generation.
pub fn headless_frame_resource_v1(
    frame_generation: u64,
    projection_generation: Option<u64>,
) -> (result: Result<SyntheticResourceUseV1, HeadlessRendererErrorV1>)
    ensures
        match result {
            Ok(resource) => projection_generation == Some(frame_generation) && resource == (
            SyntheticResourceUseV1 {
                id: SyntheticResourceIdV1(frame_generation),
                bytes: HEADLESS_RESOURCE_BYTES,
            }),
            Err(error) => match projection_generation {
                None => error.spec_kind() == HeadlessRendererErrorKindV1::HeadlessUnavailable,
                Some(projected) => projected != frame_generation && error.spec_kind()
                    == HeadlessRendererErrorKindV1::IdentityMismatch,
            },
        },
{
    let projected = match projection_generation {
        Some(projected) => projected,
        None => return Err(
            HeadlessRendererErrorV1::new(HeadlessRendererErrorKindV1::HeadlessUnavailable),
        ),
    };
    if projected != frame_generation {
        return Err(HeadlessRendererErrorV1::new(HeadlessRendererErrorKindV1::IdentityMismatch));
    }
    Ok(
        SyntheticResourceUseV1::new(
            SyntheticResourceIdV1(frame_generation),
            HEADLESS_RESOURCE_BYTES,
        ),
    )
}

} // verus!
