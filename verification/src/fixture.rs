use vstd::prelude::*;

verus! {

/// Inclusive ceilings the harness enforces on cases and observed states.
#[derive(Clone, Copy, Debug, PartialEq, Eq, Structural)]
pub struct HarnessLimitsV1 {
    /// Transactions in one case.
    pub transactions: usize,
    /// Operations in one transaction.
    pub operations_per_transaction: usize,
    /// Operations in one case.
    pub operations: usize,
    /// Live keyed memberships in one state.
    pub live_memberships: usize,
    /// Segments in one semantic path.
    pub path_depth: usize,
    /// Normalized nodes in one state.
    pub normalized_nodes: usize,
    /// Normalized fragments in one state.
    pub normalized_fragments: usize,
    /// Normalized property slots in one state.
    pub normalized_properties: usize,
    /// Applicable generated actions.
    pub applicable_actions: usize,
    /// Canonical trace bytes.
    pub trace_bytes: usize,
}

impl HarnessLimitsV1 {
    /// Returns the transaction ceiling.
    pub fn transactions(self) -> (limit: usize)
        ensures
            limit == self.transactions,
    {
        self.transactions
    }

    /// Returns the per-transaction operation ceiling.
    pub fn operations_per_transaction(self) -> (limit: usize)
        ensures
            limit == self.operations_per_transaction,
    {
        self.operations_per_transaction
    }

    /// Returns the per-case operation ceiling.
    pub fn operations(self) -> (limit: usize)
        ensures
            limit == self.operations,
    {
        self.operations
    }

    /// Returns the live membership ceiling.
    pub fn live_memberships(self) -> (limit: usize)
        ensures
            limit == self.live_memberships,
    {
        self.live_memberships
    }

    /// Returns the path depth ceiling.
    pub fn path_depth(self) -> (limit: usize)
        ensures
            limit == self.path_depth,
    {
        self.path_depth
    }

    /// Returns the normalized node ceiling.
    pub fn normalized_nodes(self) -> (limit: usize)
        ensures
            limit == self.normalized_nodes,
    {
        self.normalized_nodes
    }

    /// Returns the normalized fragment ceiling.
    pub fn normalized_fragments(self) -> (limit: usize)
        ensures
            limit == self.normalized_fragments,
    {
        self.normalized_fragments
    }

    /// Returns the normalized property ceiling.
    pub fn normalized_properties(self) -> (limit: usize)
        ensures
            limit == self.normalized_properties,
    {
        self.normalized_properties
    }

    /// Returns the canonical trace byte ceiling.
    pub fn trace_bytes(self) -> (limit: usize)
        ensures
            limit == self.trace_bytes,
    {
        self.trace_bytes
    }
}

} // verus!
