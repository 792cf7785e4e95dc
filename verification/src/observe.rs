use vstd::prelude::*;

use crate::error::{HarnessError, HarnessErrorKind, HarnessLimitKind};
use crate::fixture::HarnessLimitsV1;
use crate::semantic::NodePathV1;

pub mod view;
pub mod partial;
pub mod preflight;
pub mod bind;
pub mod diagnose;

verus! {

/// Which observation limits a snapshot crossed, dimension by dimension.
#[derive(Clone, Copy, Debug, PartialEq, Eq, Structural)]
pub struct ObservationLimitCrossingsV1 {
    pub live_memberships: bool,
    pub path_depth: bool,
    pub normalized_nodes: bool,
    pub normalized_fragments: bool,
    pub normalized_properties: bool,
}

/// Whether a limit kind is one that observation records.
pub open spec fn is_observation_limit(kind: HarnessLimitKind) -> bool {
    ||| kind == HarnessLimitKind::LiveMemberships
    ||| kind == HarnessLimitKind::PathDepth
    ||| kind == HarnessLimitKind::NormalizedNodes
    ||| kind == HarnessLimitKind::NormalizedFragments
    ||| kind == HarnessLimitKind::NormalizedProperties
}

/// The crossings with one more limit recorded; other kinds change nothing.
pub open spec fn with_crossing(
    crossings: ObservationLimitCrossingsV1,
    kind: HarnessLimitKind,
) -> ObservationLimitCrossingsV1 {
    match kind {
        HarnessLimitKind::LiveMemberships => ObservationLimitCrossingsV1 {
            live_memberships: true,
            ..crossings
        },
        HarnessLimitKind::PathDepth => ObservationLimitCrossingsV1 { path_depth: true, ..crossings },
        HarnessLimitKind::NormalizedNodes => ObservationLimitCrossingsV1 {
            normalized_nodes: true,
            ..crossings
        },
        HarnessLimitKind::NormalizedFragments => ObservationLimitCrossingsV1 {
            normalized_fragments: true,
            ..crossings
        },
        HarnessLimitKind::NormalizedProperties => ObservationLimitCrossingsV1 {
            normalized_properties: true,
            ..crossings
        },
        _ => crossings,
    }
}

/// The limit reported for a set of crossings, in the closed harness order:
/// live memberships, path depth, nodes, fragments, properties.
pub open spec fn first_limit(crossings: ObservationLimitCrossingsV1) -> Option<HarnessLimitKind> {
    if crossings.live_memberships {
        Some(HarnessLimitKind::LiveMemberships)
    } else if crossings.path_depth {
        Some(HarnessLimitKind::PathDepth)
    } else if crossings.normalized_nodes {
        Some(HarnessLimitKind::NormalizedNodes)
    } else if crossings.normalized_fragments {
        Some(HarnessLimitKind::NormalizedFragments)
    } else if crossings.normalized_properties {
        Some(HarnessLimitKind::NormalizedProperties)
    } else {
        None
    }
}

impl ObservationLimitCrossingsV1 {
    /// Creates crossings from the five dimensions.
    pub fn new(
        live_memberships: bool,
        path_depth: bool,
        normalized_nodes: bool,
        normalized_fragments: bool,
        normalized_properties: bool,
    ) -> (crossings: Self)
        ensures
            crossings == (ObservationLimitCrossingsV1 {
                live_memberships,
                path_depth,
                normalized_nodes,
                normalized_fragments,
                normalized_properties,
            }),
    {
        ObservationLimitCrossingsV1 {
            live_memberships,
            path_depth,
            normalized_nodes,
            normalized_fragments,
            normalized_properties,
        }
    }

    /// Records that one limit was crossed.
    pub fn record(&mut self, kind: HarnessLimitKind)
        ensures
            *final(self) == with_crossing(*old(self), kind),
    {
        match kind {
            HarnessLimitKind::LiveMemberships => self.live_memberships = true,
            HarnessLimitKind::PathDepth => self.path_depth = true,
            HarnessLimitKind::NormalizedNodes => self.normalized_nodes = true,
            HarnessLimitKind::NormalizedFragments => self.normalized_fragments = true,
            HarnessLimitKind::NormalizedProperties => self.normalized_properties = true,
            _ => {},
        }
    }
}

/// Returns the limit to report for a set of crossings, in the closed harness order.
pub fn first_observation_limit_v1(crossings: ObservationLimitCrossingsV1) -> (kind: Option<
    HarnessLimitKind,
>)
    ensures
        kind == first_limit(crossings),
{
    if crossings.live_memberships {
        Some(HarnessLimitKind::LiveMemberships)
    } else if crossings.path_depth {
        Some(HarnessLimitKind::PathDepth)
    } else if crossings.normalized_nodes {
        Some(HarnessLimitKind::NormalizedNodes)
    } else if crossings.normalized_fragments {
        Some(HarnessLimitKind::NormalizedFragments)
    } else if crossings.normalized_properties {
        Some(HarnessLimitKind::NormalizedProperties)
    } else {
        None
    }
}

/// Recording crossings never hides one already recorded, and the reported
/// limit is always a crossed observation dimension: once any limit has been
/// recorded, some limit is reported, and it is never later in the closed
/// order than the one just recorded.
pub proof fn lemma_recorded_limit_is_reported(
    crossings: ObservationLimitCrossingsV1,
    kind: HarnessLimitKind,
)
    requires
        is_observation_limit(kind),
    ensures
        first_limit(with_crossing(crossings, kind)) is Some,
        first_limit(crossings) is Some ==> first_limit(with_crossing(crossings, kind)) is Some,
        first_limit(with_crossing(crossings, kind)) == Some(kind) || first_limit(crossings)
            == first_limit(with_crossing(crossings, kind)),
{
}

/// Refuses a path deeper than the harness allows.
pub fn ensure_path_depth(path: &NodePathV1, limits: HarnessLimitsV1) -> (result: Result<
    (),
    HarnessError,
>)
    ensures
        match result {
            Ok(()) => path@.len() <= limits.path_depth,
            Err(error) => path@.len() > limits.path_depth && error.is_unlocated(
                HarnessErrorKind::LimitExceeded(HarnessLimitKind::PathDepth),
            ),
        },
{
    if path.depth() > limits.path_depth {
        Err(HarnessError::limit(HarnessLimitKind::PathDepth))
    } else {
        Ok(())
    }
}

/// Refuses one more item when it would cross an inclusive limit.
pub fn ensure_next_count(current: usize, limit: usize, kind: HarnessLimitKind) -> (result: Result<
    (),
    HarnessError,
>)
    ensures
        match result {
            Ok(()) => current + 1 <= limit,
            Err(error) => if current + 1 > usize::MAX {
                error.is_unlocated(HarnessErrorKind::ArithmeticExhausted)
            } else {
                current + 1 > limit && error.is_unlocated(HarnessErrorKind::LimitExceeded(kind))
            },
        },
{
    match checked_increment(current, limit, kind) {
        Ok(_) => Ok(()),
        Err(error) => Err(error),
    }
}

/// Counts one more item against an inclusive limit.
pub fn checked_increment(current: usize, limit: usize, kind: HarnessLimitKind) -> (result: Result<
    usize,
    HarnessError,
>)
    ensures
        match result {
            Ok(next) => next == current + 1 && next <= limit,
            Err(error) => if current + 1 > usize::MAX {
                error.is_unlocated(HarnessErrorKind::ArithmeticExhausted)
            } else {
                current + 1 > limit && error.is_unlocated(HarnessErrorKind::LimitExceeded(kind))
            },
        },
{
    let next = match current.checked_add(1) {
        Some(next) => next,
        None => return Err(HarnessError::new(HarnessErrorKind::ArithmeticExhausted)),
    };
    if next > limit {
        Err(HarnessError::limit(kind))
    } else {
        Ok(next)
    }
}

} // verus!
