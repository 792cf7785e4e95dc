use vstd::prelude::*;

use crate::error::{HarnessError, HarnessErrorKind};

verus! {

/// Set of invalidation classes a publication carries, one bit per class.
#[derive(Clone, Copy, Debug, PartialEq, Eq, Structural)]
pub struct InvalidationSet {
    /// The class bits.
    pub bits: u8,
}

impl InvalidationSet {
    /// The empty set.
    pub fn none() -> (set: Self)
        ensures
            set.bits == 0,
    {
        InvalidationSet { bits: 0 }
    }

    /// A set from raw class bits.
    pub fn from_bits(bits: u8) -> (set: Self)
        ensures
            set.bits == bits,
    {
        InvalidationSet { bits }
    }

    /// Reports whether no class is set.
    pub fn is_empty(self) -> (empty: bool)
        ensures
            empty == (self.bits == 0),
    {
        self.bits == 0
    }
}

/// Observable shape of one candidate commit: receipt, states and generations.
#[derive(Clone, Copy, Debug, PartialEq, Eq, Structural)]
pub struct CommitShapeV1 {
    /// The receipt reports no mutation.
    pub receipt_empty: bool,
    /// The committed state before and after is one shared allocation.
    pub same_state: bool,
    /// Generation before the commit.
    pub before_generation: u64,
    /// Generation after the commit.
    pub after_generation: u64,
    /// Generation named by the receipt.
    pub receipt_generation: u64,
    /// Mutations the receipt reports.
    pub mutation_count: usize,
    /// Invalidation the receipt reports.
    pub invalidation: InvalidationSet,
}

/// Observable shape of one rejected candidate: state identity and generations.
#[derive(Clone, Copy, Debug, PartialEq, Eq, Structural)]
pub struct RejectionShapeV1 {
    /// The committed state before and after is one shared allocation.
    pub same_state: bool,
    /// Generation before the rejected candidate.
    pub before_generation: u64,
    /// Generation after the rejected candidate.
    pub after_generation: u64,
}

impl RejectionShapeV1 {
    /// Creates one rejection shape.
    pub fn new(same_state: bool, before_generation: u64, after_generation: u64) -> (shape: Self)
        ensures
            shape == (RejectionShapeV1 { same_state, before_generation, after_generation }),
    {
        RejectionShapeV1 { same_state, before_generation, after_generation }
    }
}

impl CommitShapeV1 {
    /// Creates one commit shape.
    pub fn new(
        receipt_empty: bool,
        same_state: bool,
        before_generation: u64,
        after_generation: u64,
        receipt_generation: u64,
        mutation_count: usize,
        invalidation: InvalidationSet,
    ) -> (shape: Self)
        ensures
            shape == (CommitShapeV1 {
                receipt_empty,
                same_state,
                before_generation,
                after_generation,
                receipt_generation,
                mutation_count,
                invalidation,
            }),
    {
        CommitShapeV1 {
            receipt_empty,
            same_state,
            before_generation,
            after_generation,
            receipt_generation,
            mutation_count,
            invalidation,
        }
    }

    /// Returns the generation before the commit.
    pub fn before_generation(self) -> (generation: u64)
        ensures
            generation == self.before_generation,
    {
        self.before_generation
    }

    /// Returns the generation after the commit.
    pub fn after_generation(self) -> (generation: u64)
        ensures
            generation == self.after_generation,
    {
        self.after_generation
    }

    /// Returns the reported mutation count.
    pub fn mutation_count(self) -> (count: usize)
        ensures
            count == self.mutation_count,
    {
        self.mutation_count
    }

    /// Returns the reported invalidation.
    pub fn invalidation(self) -> (invalidation: InvalidationSet)
        ensures
            invalidation == self.invalidation,
    {
        self.invalidation
    }
}

/// A true no-op: nothing changed and the receipt says so.
pub open spec fn coherent_noop(shape: CommitShapeV1) -> bool {
    &&& shape.same_state
    &&& shape.after_generation == shape.before_generation
    &&& shape.receipt_generation == shape.after_generation
    &&& shape.mutation_count == 0
    &&& shape.invalidation.bits == 0
}

/// A publication: exactly one new generation with mutations and invalidation.
pub open spec fn coherent_publication(shape: CommitShapeV1) -> bool {
    &&& !shape.same_state
    &&& shape.after_generation == shape.before_generation + 1
    &&& shape.receipt_generation == shape.after_generation
    &&& shape.mutation_count != 0
    &&& shape.invalidation.bits != 0
}

/// A rejection leaves the exact committed state in place.
pub open spec fn coherent_rejection(shape: RejectionShapeV1) -> bool {
    shape.same_state && shape.before_generation == shape.after_generation
}

/// Checks that a commit is either a coherent no-op or a coherent publication;
/// returns whether it published.
pub fn verify_commit_shape(shape: CommitShapeV1) -> (result: Result<bool, HarnessError>)
    ensures
        shape.receipt_empty ==> (result matches Ok(published) ==> !published),
        !shape.receipt_empty ==> (result matches Ok(published) ==> published),
        result.is_ok() == (if shape.receipt_empty {
            coherent_noop(shape)
        } else {
            coherent_publication(shape)
        }),
        result matches Err(error) ==> error.is_unlocated(HarnessErrorKind::TraceMismatch),
{
    if shape.receipt_empty {
        if !shape.same_state || shape.after_generation != shape.before_generation
            || shape.receipt_generation != shape.after_generation || shape.mutation_count != 0
            || !shape.invalidation.is_empty() {
            return Err(trace_error());
        }
        return Ok(false);
    }
    let next_generation = match shape.before_generation.checked_add(1) {
        Some(next) => next,
        None => return Err(trace_error()),
    };
    if shape.same_state || shape.after_generation != next_generation
        || shape.receipt_generation != shape.after_generation || shape.mutation_count == 0
        || shape.invalidation.is_empty() {
        return Err(trace_error());
    }
    Ok(true)
}

/// Verifies the commit shape and only then runs the post-commit observation.
pub fn observe_after_verified_commit_v1<T, F: FnOnce() -> Result<T, HarnessError>>(
    shape: CommitShapeV1,
    observe: F,
) -> (result: Result<T, HarnessError>)
    requires
        call_requires(observe, ()),
    ensures
        !(if shape.receipt_empty {
            coherent_noop(shape)
        } else {
            coherent_publication(shape)
        }) ==> (result matches Err(error) && error.is_unlocated(HarnessErrorKind::TraceMismatch)),
        (if shape.receipt_empty {
            coherent_noop(shape)
        } else {
            coherent_publication(shape)
        }) ==> call_ensures(observe, (), result),
{
    match verify_commit_shape(shape) {
        Ok(_) => observe(),
        Err(error) => Err(error),
    }
}

/// Checks that a rejected candidate left the exact committed state in place.
pub fn verify_rejection_shape(shape: RejectionShapeV1) -> (result: Result<(), HarnessError>)
    ensures
        result.is_ok() == coherent_rejection(shape),
        result matches Err(error) ==> error.is_unlocated(HarnessErrorKind::TraceMismatch),
{
    if !shape.same_state || shape.before_generation != shape.after_generation {
        return Err(trace_error());
    }
    Ok(())
}

fn trace_error() -> (error: HarnessError)
    ensures
        error.is_unlocated(HarnessErrorKind::TraceMismatch),
{
    HarnessError::new(HarnessErrorKind::TraceMismatch)
}

} // verus!
