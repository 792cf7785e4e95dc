use vstd::prelude::*;

verus! {

/// Identifier of one fake-clock domain, shared by every trace of a run.
#[derive(Clone, Copy, Debug, PartialEq, Eq, Structural)]
pub struct FakeClockDomainV1(pub u64);

impl FakeClockDomainV1 {
    /// Wraps a raw domain identifier.
    pub fn new(value: u64) -> (domain: Self)
        ensures
            domain.0 == value,
    {
        FakeClockDomainV1(value)
    }
}

/// A deterministic logical clock: its domain and its current scheduler tick.
#[derive(Clone, Copy, Debug, PartialEq, Eq, Structural)]
pub struct FakeClockV1 {
    pub domain: FakeClockDomainV1,
    pub now: u64,
}

impl FakeClockV1 {
    /// Creates a clock at the given tick.
    pub fn new(domain: FakeClockDomainV1, now: u64) -> (clock: Self)
        ensures
            clock == (FakeClockV1 { domain, now }),
    {
        FakeClockV1 { domain, now }
    }

    /// Returns the clock's domain.
    pub fn domain(self) -> (domain: FakeClockDomainV1)
        ensures
            domain == self.domain,
    {
        self.domain
    }

    /// Returns the current tick.
    pub fn now(self) -> (now: u64)
        ensures
            now == self.now,
    {
        self.now
    }
}

/// A rejection reported by the runtime scheduler.
#[derive(Clone, Copy, Debug, PartialEq, Eq, Structural)]
pub enum SchedulerErrorKind {
    /// Input arrived while frame-ready delivery was still pending.
    InputOutOfOrder,
    /// Any other scheduler rejection, by the scheduler's own code.
    Rejected(u32),
}

/// What one fake callback scope reports of itself.
#[derive(Clone, Copy, Debug, PartialEq, Eq, Structural)]
pub struct FakeCallbackReportV1 {
    pub captured_generation: u64,
    pub deepest_depth: usize,
    pub shares_entry_snapshot: bool,
}

/// Identifier of one synthetic renderer resource.
#[derive(Clone, Copy, Debug, PartialEq, Eq, Structural)]
pub struct SyntheticResourceIdV1(pub u64);

/// One synthetic renderer resource and the bytes it accounts for.
#[derive(Clone, Copy, Debug, PartialEq, Eq, Structural)]
pub struct SyntheticResourceUseV1 {
    pub id: SyntheticResourceIdV1,
    pub bytes: usize,
}

impl SyntheticResourceUseV1 {
    /// Creates one resource use.
    pub fn new(id: SyntheticResourceIdV1, bytes: usize) -> (resource: Self)
        ensures
            resource == (SyntheticResourceUseV1 { id, bytes }),
    {
        SyntheticResourceUseV1 { id, bytes }
    }
}

} // verus!
