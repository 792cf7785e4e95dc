//! Physical identity bookkeeping: the authored-order index of observed
//! handles, alias detection, and the lifecycle ledger that checks which
//! handles survive, retire and are issued fresh across transitions.

use vstd::prelude::*;

use crate::error::{HarnessError, HarnessErrorKind};
use crate::fingerprint::{
    FailureFingerprintKindV1, FailureFingerprintV1, FingerprintFieldV1, FingerprintLocationV1,
    FingerprintLocationView, FingerprintSummaryV1, FingerprintView, SummaryView,
};
use crate::semantic::{FragmentPathV1, NodePathV1, PathSegmentV1};

verus! {

/// Runtime handle of one live node, as its raw value.
#[derive(Clone, Copy, Debug, PartialEq, Eq, Structural)]
pub struct NodeId(pub u64);

/// Runtime handle of one live fragment, as its raw value.
#[derive(Clone, Copy, Debug, PartialEq, Eq, Structural)]
pub struct FragmentId(pub u64);

/// Mathematical form of a node entry: semantic path and handle.
pub type NodeEntry = (Seq<PathSegmentV1>, NodeId);

/// Mathematical form of a fragment entry: semantic path and handle.
pub type FragmentEntry = ((Seq<PathSegmentV1>, u16), FragmentId);

/// The value bound to the first entry with key `key`, if any.
pub open spec fn lookup<K, V>(entries: Seq<(K, V)>, key: K) -> Option<V>
    decreases entries.len(),
{
    if entries.len() == 0 {
        None
    } else if entries[0].0 == key {
        Some(entries[0].1)
    } else {
        lookup(entries.drop_first(), key)
    }
}

/// The key of the first entry bound to `value`, if any.
pub open spec fn reverse_lookup<K, V>(entries: Seq<(K, V)>, value: V) -> Option<K>
    decreases entries.len(),
{
    if entries.len() == 0 {
        None
    } else if entries[0].1 == value {
        Some(entries[0].0)
    } else {
        reverse_lookup(entries.drop_first(), value)
    }
}

/// Index of the first element that repeats an earlier element, if any.
pub open spec fn first_repeat<T>(items: Seq<T>) -> Option<int>
    decreases items.len(),
{
    if items.len() == 0 {
        None
    } else {
        match first_repeat(items.drop_last()) {
            Some(index) => Some(index),
            None => if items.drop_last().contains(items.last()) {
                Some(items.len() - 1)
            } else {
                None
            },
        }
    }
}

proof fn lemma_lookup_push<K, V>(entries: Seq<(K, V)>, entry: (K, V), key: K)
    ensures
        lookup(entries.push(entry), key) == match lookup(entries, key) {
            Some(value) => Some(value),
            None => if entry.0 == key {
                Some(entry.1)
            } else {
                None
            },
        },
    decreases entries.len(),
{
    assert(entries.push(entry)[0] == if entries.len() > 0 { entries[0] } else { entry });
    if entries.len() > 0 {
        assert(entries.push(entry).drop_first() =~= entries.drop_first().push(entry));
        lemma_lookup_push(entries.drop_first(), entry, key);
    } else {
        assert(entries.push(entry).drop_first() =~= entries);
    }
}

proof fn lemma_reverse_lookup_push<K, V>(entries: Seq<(K, V)>, entry: (K, V), value: V)
    ensures
        reverse_lookup(entries.push(entry), value) == match reverse_lookup(entries, value) {
            Some(key) => Some(key),
            None => if entry.1 == value {
                Some(entry.0)
            } else {
                None
            },
        },
    decreases entries.len(),
{
    assert(entries.push(entry)[0] == if entries.len() > 0 { entries[0] } else { entry });
    if entries.len() > 0 {
        assert(entries.push(entry).drop_first() =~= entries.drop_first().push(entry));
        lemma_reverse_lookup_push(entries.drop_first(), entry, value);
    } else {
        assert(entries.push(entry).drop_first() =~= entries);
    }
}

pub(crate) proof fn lemma_lookup_take_step<K, V>(entries: Seq<(K, V)>, index: int, key: K)
    requires
        0 <= index < entries.len(),
    ensures
        lookup(entries.take(index + 1), key) == match lookup(entries.take(index), key) {
            Some(value) => Some(value),
            None => if entries[index].0 == key {
                Some(entries[index].1)
            } else {
                None
            },
        },
{
    assert(entries.take(index + 1) =~= entries.take(index).push(entries[index]));
    lemma_lookup_push(entries.take(index), entries[index], key);
}

proof fn lemma_reverse_lookup_take_step<K, V>(entries: Seq<(K, V)>, index: int, value: V)
    requires
        0 <= index < entries.len(),
    ensures
        reverse_lookup(entries.take(index + 1), value) == match reverse_lookup(
            entries.take(index),
            value,
        ) {
            Some(key) => Some(key),
            None => if entries[index].1 == value {
                Some(entries[index].0)
            } else {
                None
            },
        },
{
    assert(entries.take(index + 1) =~= entries.take(index).push(entries[index]));
    lemma_reverse_lookup_push(entries.take(index), entries[index], value);
}

/// Mathematical form of an identity index.
pub struct IdentityIndexView {
    pub nodes: Seq<NodeEntry>,
    pub fragments: Seq<FragmentEntry>,
}

/// Observed handles of one snapshot, keyed by semantic path, in authored order.
#[derive(Debug)]
pub struct IdentityIndexV1 {
    nodes: Vec<(NodePathV1, NodeId)>,
    fragments: Vec<(FragmentPathV1, FragmentId)>,
}

/// The mathematical entries of node pairs.
pub open spec fn node_entries(entries: Seq<(NodePathV1, NodeId)>) -> Seq<NodeEntry> {
    entries.map_values(|entry: (NodePathV1, NodeId)| (entry.0@, entry.1))
}

/// The mathematical entries of fragment pairs.
pub open spec fn fragment_entries(entries: Seq<(FragmentPathV1, FragmentId)>) -> Seq<FragmentEntry> {
    entries.map_values(|entry: (FragmentPathV1, FragmentId)| (entry.0@, entry.1))
}

impl View for IdentityIndexV1 {
    type V = IdentityIndexView;

    closed spec fn view(&self) -> IdentityIndexView {
        IdentityIndexView {
            nodes: node_entries(self.nodes@),
            fragments: fragment_entries(self.fragments@),
        }
    }
}

impl IdentityIndexV1 {
    /// Creates an empty index.
    pub fn new() -> (index: Self)
        ensures
            index@.nodes.len() == 0,
            index@.fragments.len() == 0,
    {
        let index = IdentityIndexV1 { nodes: Vec::new(), fragments: Vec::new() };
        assert(index@.nodes =~= Seq::<NodeEntry>::empty());
        assert(index@.fragments =~= Seq::<FragmentEntry>::empty());
        index
    }

    /// Records a node handle unless its path is already indexed.
    pub fn record_node(&mut self, path: NodePathV1, node: NodeId) -> (recorded: bool)
        ensures
            recorded == lookup(old(self)@.nodes, path@).is_none(),
            recorded ==> final(self)@.nodes == old(self)@.nodes.push((path@, node)),
            !recorded ==> final(self)@.nodes == old(self)@.nodes,
            final(self)@.fragments == old(self)@.fragments,
    {
        if self.node(&path).is_some() {
            return false;
        }
        let ghost path_view = path@;
        self.nodes.push((path, node));
        assert(node_entries(self.nodes@) =~= node_entries(old(self).nodes@).push((path_view, node)));
        true
    }

    /// Records a fragment handle unless its path is already indexed.
    pub fn record_fragment(&mut self, path: FragmentPathV1, fragment: FragmentId) -> (recorded: bool)
        ensures
            recorded == lookup(old(self)@.fragments, path@).is_none(),
            recorded ==> final(self)@.fragments == old(self)@.fragments.push((path@, fragment)),
            !recorded ==> final(self)@.fragments == old(self)@.fragments,
            final(self)@.nodes == old(self)@.nodes,
    {
        if self.fragment(&path).is_some() {
            return false;
        }
        let ghost path_view = path@;
        self.fragments.push((path, fragment));
        assert(fragment_entries(self.fragments@) =~= fragment_entries(old(self).fragments@).push(
            (path_view, fragment),
        ));
        true
    }

    /// Returns the handle indexed for a node path.
    pub fn node(&self, path: &NodePathV1) -> (node: Option<NodeId>)
        ensures
            node == lookup(self@.nodes, path@),
    {
        let mut index: usize = 0;
        while index < self.nodes.len()
            invariant
                index <= self.nodes.len(),
                lookup(self@.nodes.take(index as int), path@).is_none(),
            decreases self.nodes.len() - index,
        {
            proof {
                lemma_lookup_take_step(self@.nodes, index as int, path@);
            }
            if self.nodes[index].0.same(path) {
                proof {
                    lemma_lookup_prefix(self@.nodes, index as int + 1, path@);
                }
                return Some(self.nodes[index].1);
            }
            index = index + 1;
        }
        assert(self@.nodes.take(index as int) =~= self@.nodes);
        None
    }

    /// Returns the first path indexed for a node handle.
    pub fn node_path(&self, node: NodeId) -> (path: Option<&NodePathV1>)
        ensures
            match path {
                Some(path) => reverse_lookup(self@.nodes, node) == Some(path@),
                None => reverse_lookup(self@.nodes, node).is_none(),
            },
    {
        let mut index: usize = 0;
        while index < self.nodes.len()
            invariant
                index <= self.nodes.len(),
                reverse_lookup(self@.nodes.take(index as int), node).is_none(),
            decreases self.nodes.len() - index,
        {
            proof {
                lemma_reverse_lookup_take_step(self@.nodes, index as int, node);
            }
            if self.nodes[index].1 == node {
                proof {
                    lemma_reverse_lookup_prefix(self@.nodes, index as int + 1, node);
                }
                return Some(&self.nodes[index].0);
            }
            index = index + 1;
        }
        assert(self@.nodes.take(index as int) =~= self@.nodes);
        None
    }

    /// Returns the handle indexed for a fragment path.
    pub fn fragment(&self, path: &FragmentPathV1) -> (fragment: Option<FragmentId>)
        ensures
            fragment == lookup(self@.fragments, path@),
    {
        let mut index: usize = 0;
        while index < self.fragments.len()
            invariant
                index <= self.fragments.len(),
                lookup(self@.fragments.take(index as int), path@).is_none(),
            decreases self.fragments.len() - index,
        {
            proof {
                lemma_lookup_take_step(self@.fragments, index as int, path@);
            }
            if self.fragments[index].0.same(path) {
                proof {
                    lemma_lookup_prefix(self@.fragments, index as int + 1, path@);
                }
                return Some(self.fragments[index].1);
            }
            index = index + 1;
        }
        assert(self@.fragments.take(index as int) =~= self@.fragments);
        None
    }

    /// Returns the node entries in authored order.
    pub fn nodes_in_authored_order(&self) -> (nodes: &[(NodePathV1, NodeId)])
        ensures
            node_entries(nodes@) == self@.nodes,
            nodes@.len() == self@.nodes.len(),
    {
        self.nodes.as_slice()
    }

    /// Returns the fragment entries in authored order.
    pub fn fragments_in_authored_order(&self) -> (fragments: &[(FragmentPathV1, FragmentId)])
        ensures
            fragment_entries(fragments@) == self@.fragments,
            fragments@.len() == self@.fragments.len(),
    {
        self.fragments.as_slice()
    }
}

pub(crate) proof fn lemma_lookup_prefix<K, V>(entries: Seq<(K, V)>, count: int, key: K)
    requires
        0 <= count <= entries.len(),
        lookup(entries.take(count), key).is_some(),
    ensures
        lookup(entries, key) == lookup(entries.take(count), key),
    decreases entries.len() - count,
{
    if count < entries.len() {
        lemma_lookup_take_step(entries, count, key);
        lemma_lookup_prefix(entries, count + 1, key);
    } else {
        assert(entries.take(count) =~= entries);
    }
}

proof fn lemma_reverse_lookup_prefix<K, V>(entries: Seq<(K, V)>, count: int, value: V)
    requires
        0 <= count <= entries.len(),
        reverse_lookup(entries.take(count), value).is_some(),
    ensures
        reverse_lookup(entries, value) == reverse_lookup(entries.take(count), value),
    decreases entries.len() - count,
{
    if count < entries.len() {
        lemma_reverse_lookup_take_step(entries, count, value);
        lemma_reverse_lookup_prefix(entries, count + 1, value);
    } else {
        assert(entries.take(count) =~= entries);
    }
}


/// The map a sequence of pairs denotes when later pairs override earlier ones.
pub open spec fn pairs_map<K, V>(entries: Seq<(K, V)>) -> Map<K, V>
    decreases entries.len(),
{
    if entries.len() == 0 {
        Map::empty()
    } else {
        pairs_map(entries.drop_last()).insert(entries.last().0, entries.last().1)
    }
}

/// The value a map binds to a key, if any.
pub open spec fn map_get<K, V>(map: Map<K, V>, key: K) -> Option<V> {
    if map.dom().contains(key) {
        Some(map[key])
    } else {
        None
    }
}

proof fn lemma_pairs_map_step<K, V>(entries: Seq<(K, V)>, index: int)
    requires
        0 <= index < entries.len(),
    ensures
        pairs_map(entries.take(index + 1)) == pairs_map(entries.take(index)).insert(
            entries[index].0,
            entries[index].1,
        ),
{
    assert(entries.take(index + 1).drop_last() =~= entries.take(index));
}

/// Aggregated physical-identity checks from one deterministic replay.
#[derive(Clone, Copy, Debug, PartialEq, Eq, Structural)]
pub struct IdentitySummaryV1 {
    preserved: u32,
    retired: u32,
    fresh: u32,
    alias_free_snapshots: u32,
}

impl IdentitySummaryV1 {
    /// The empty summary.
    pub closed spec fn zero() -> IdentitySummaryV1 {
        IdentitySummaryV1 { preserved: 0, retired: 0, fresh: 0, alias_free_snapshots: 0 }
    }

    /// Surviving identity checks.
    pub closed spec fn spec_preserved(self) -> u32 {
        self.preserved
    }

    /// Retirement checks.
    pub closed spec fn spec_retired(self) -> u32 {
        self.retired
    }

    /// Fresh-issue checks.
    pub closed spec fn spec_fresh(self) -> u32 {
        self.fresh
    }

    /// Alias-free snapshots.
    pub closed spec fn spec_alias_free_snapshots(self) -> u32 {
        self.alias_free_snapshots
    }

    /// The summary with no checks recorded.
    pub fn new() -> (summary: Self)
        ensures
            summary == Self::zero(),
    {
        IdentitySummaryV1 { preserved: 0, retired: 0, fresh: 0, alias_free_snapshots: 0 }
    }

    /// Returns surviving node and fragment identity checks.
    pub fn preserved(self) -> (count: u32)
        ensures
            count == self.spec_preserved(),
    {
        self.preserved
    }

    /// Returns node and fragment handles verified stale after retirement.
    pub fn retired(self) -> (count: u32)
        ensures
            count == self.spec_retired(),
    {
        self.retired
    }

    /// Returns semantic paths verified fresh after a prior retirement.
    pub fn fresh(self) -> (count: u32)
        ensures
            count == self.spec_fresh(),
    {
        self.fresh
    }

    /// Returns committed snapshots whose live handles were alias-free.
    pub fn alias_free_snapshots(self) -> (count: u32)
        ensures
            count == self.spec_alias_free_snapshots(),
    {
        self.alias_free_snapshots
    }
}

/// Incarnation tokens of the desired state, by node path: a path keeps its
/// token while its node survives and receives a new one when re-created.
#[derive(Debug)]
pub struct IncarnationTokensV1 {
    entries: Vec<(NodePathV1, u64)>,
}

impl View for IncarnationTokensV1 {
    type V = Seq<(Seq<PathSegmentV1>, u64)>;

    closed spec fn view(&self) -> Seq<(Seq<PathSegmentV1>, u64)> {
        self.entries@.map_values(|entry: (NodePathV1, u64)| (entry.0@, entry.1))
    }
}

impl IncarnationTokensV1 {
    /// Creates the token table from path and token pairs.
    pub fn new(entries: Vec<(NodePathV1, u64)>) -> (tokens: Self)
        ensures
            tokens@ == entries@.map_values(|entry: (NodePathV1, u64)| (entry.0@, entry.1)),
    {
        IncarnationTokensV1 { entries }
    }

    /// Returns the token of a path, if the desired state has the node.
    pub fn incarnation_token(&self, path: &NodePathV1) -> (token: Option<u64>)
        ensures
            token == lookup(self@, path@),
    {
        let mut index: usize = 0;
        while index < self.entries.len()
            invariant
                index <= self.entries.len(),
                lookup(self@.take(index as int), path@).is_none(),
            decreases self.entries.len() - index,
        {
            proof {
                lemma_lookup_take_step(self@, index as int, path@);
            }
            if self.entries[index].0.same(path) {
                proof {
                    lemma_lookup_prefix(self@, index as int + 1, path@);
                }
                return Some(self.entries[index].1);
            }
            index = index + 1;
        }
        assert(self@.take(index as int) =~= self@);
        None
    }
}

/// Handles that are live in the committed snapshot after a transition.
#[derive(Debug)]
pub struct LiveHandlesV1 {
    nodes: Vec<NodeId>,
    fragments: Vec<FragmentId>,
}

impl View for LiveHandlesV1 {
    type V = (Seq<NodeId>, Seq<FragmentId>);

    closed spec fn view(&self) -> (Seq<NodeId>, Seq<FragmentId>) {
        (self.nodes@, self.fragments@)
    }
}

impl LiveHandlesV1 {
    /// Creates the live-handle sets.
    pub fn new(nodes: Vec<NodeId>, fragments: Vec<FragmentId>) -> (live: Self)
        ensures
            live@ == (nodes@, fragments@),
    {
        LiveHandlesV1 { nodes, fragments }
    }

    /// Reports whether a node handle still resolves.
    pub fn node_is_live(&self, node: NodeId) -> (live: bool)
        ensures
            live == self@.0.contains(node),
    {
        let mut index: usize = 0;
        while index < self.nodes.len()
            invariant
                index <= self.nodes.len(),
                forall|i: int| 0 <= i < index ==> self.nodes@[i] != node,
            decreases self.nodes.len() - index,
        {
            if self.nodes[index] == node {
                return true;
            }
            index = index + 1;
        }
        false
    }

    /// Reports whether a fragment handle still resolves.
    pub fn fragment_is_live(&self, fragment: FragmentId) -> (live: bool)
        ensures
            live == self@.1.contains(fragment),
    {
        let mut index: usize = 0;
        while index < self.fragments.len()
            invariant
                index <= self.fragments.len(),
                forall|i: int| 0 <= i < index ==> self.fragments@[i] != fragment,
            decreases self.fragments.len() - index,
        {
            if self.fragments[index] == fragment {
                return true;
            }
            index = index + 1;
        }
        false
    }
}

/// The fingerprint of one identity lifecycle mismatch.
pub open spec fn lifecycle_fingerprint(
    location: FingerprintLocationView,
    expected: SummaryView,
    observed: SummaryView,
) -> FingerprintView {
    FingerprintView {
        kind: FailureFingerprintKindV1::IdentityMismatch,
        location,
        field: FingerprintFieldV1::IdentityLifecycle,
        expected,
        observed,
        rejection: None,
    }
}

/// The handles of node entries, in order.
pub open spec fn node_handles(entries: Seq<NodeEntry>) -> Seq<NodeId> {
    entries.map_values(|entry: NodeEntry| entry.1)
}

/// The handles of fragment entries, in order.
pub open spec fn fragment_handles(entries: Seq<FragmentEntry>) -> Seq<FragmentId> {
    entries.map_values(|entry: FragmentEntry| entry.1)
}

/// The alias fingerprint of an index: the first node, then the first fragment,
/// whose handle repeats a handle earlier in authored order.
pub open spec fn alias_fingerprint(index: IdentityIndexView) -> Option<FingerprintView> {
    match first_repeat(node_handles(index.nodes)) {
        Some(i) => Some(
            lifecycle_fingerprint(
                FingerprintLocationView::Node(index.nodes[i].0),
                SummaryView::LifecycleDistinct,
                SummaryView::LifecycleAliased,
            ),
        ),
        None => match first_repeat(fragment_handles(index.fragments)) {
            Some(i) => Some(
                lifecycle_fingerprint(
                    FingerprintLocationView::Fragment(index.fragments[i].0),
                    SummaryView::LifecycleDistinct,
                    SummaryView::LifecycleAliased,
                ),
            ),
            None => None,
        },
    }
}

proof fn lemma_first_repeat_prefix<T>(items: Seq<T>, count: int)
    requires
        0 <= count <= items.len(),
        first_repeat(items.take(count)).is_some(),
    ensures
        first_repeat(items) == first_repeat(items.take(count)),
    decreases items.len() - count,
{
    if count < items.len() {
        assert(items.take(count + 1).drop_last() =~= items.take(count));
        lemma_first_repeat_prefix(items, count + 1);
    } else {
        assert(items.take(count) =~= items);
    }
}

/// Finds the first node handle that repeats an earlier one.
fn first_node_repeat(nodes: &[(NodePathV1, NodeId)]) -> (repeat: Option<usize>)
    ensures
        match repeat {
            Some(i) => first_repeat(node_handles(node_entries(nodes@)))
                == Some(i as int) && i < nodes@.len(),
            None => first_repeat(node_handles(node_entries(nodes@)))
                is None,
        },
{
    let ghost handles = node_handles(node_entries(nodes@));
    let mut seen: std::collections::HashSet<u64> = std::collections::HashSet::new();
    let mut index: usize = 0;
    while index < nodes.len()
        invariant
            index <= nodes.len(),
            handles == node_handles(node_entries(nodes@)),
            handles.len() == nodes@.len(),
            forall|i: int| 0 <= i < nodes@.len() ==> #[trigger] handles[i] == nodes@[i].1,
            forall|raw: u64| seen@.contains(raw) <==> handles.take(index as int).contains(NodeId(raw)),
            first_repeat(handles.take(index as int)) is None,
        decreases nodes.len() - index,
    {
        broadcast use vstd::std_specs::hash::group_hash_axioms;
        let raw = nodes[index].1.0;
        assert(handles.take(index as int + 1).drop_last() =~= handles.take(index as int));
        if seen.contains(&raw) {
            proof {
                assert(handles[index as int] == NodeId(raw));
                assert(handles.take(index as int + 1).last() == handles[index as int]);
                assert(first_repeat(handles.take(index as int + 1)) == Some(index as int));
                lemma_first_repeat_prefix(handles, index as int + 1);
            }
            return Some(index);
        }
        seen.insert(raw);
        index = index + 1;
        assert forall|r: u64| seen@.contains(r) <==> handles.take(index as int).contains(NodeId(r)) by {
            assert(handles.take(index as int) =~= handles.take(index as int - 1).push(handles[index as int - 1]));
        }
    }
    assert(handles.take(index as int) =~= handles);
    None
}

/// Finds the first fragment handle that repeats an earlier one.
fn first_fragment_repeat(fragments: &[(FragmentPathV1, FragmentId)]) -> (repeat: Option<usize>)
    ensures
        match repeat {
            Some(i) => first_repeat(
                fragment_handles(fragment_entries(fragments@)),
            ) == Some(i as int) && i < fragments@.len(),
            None => first_repeat(
                fragment_handles(fragment_entries(fragments@)),
            ) is None,
        },
{
    let ghost handles = fragment_handles(fragment_entries(fragments@));
    let mut seen: std::collections::HashSet<u64> = std::collections::HashSet::new();
    let mut index: usize = 0;
    while index < fragments.len()
        invariant
            index <= fragments.len(),
            handles == fragment_handles(fragment_entries(fragments@)),
            handles.len() == fragments@.len(),
            forall|i: int| 0 <= i < fragments@.len() ==> #[trigger] handles[i] == fragments@[i].1,
            forall|raw: u64|
                seen@.contains(raw) <==> handles.take(index as int).contains(FragmentId(raw)),
            first_repeat(handles.take(index as int)) is None,
        decreases fragments.len() - index,
    {
        broadcast use vstd::std_specs::hash::group_hash_axioms;
        let raw = fragments[index].1.0;
        assert(handles.take(index as int + 1).drop_last() =~= handles.take(index as int));
        if seen.contains(&raw) {
            proof {
                assert(handles[index as int] == FragmentId(raw));
                assert(handles.take(index as int + 1).last() == handles[index as int]);
                assert(first_repeat(handles.take(index as int + 1)) == Some(index as int));
                lemma_first_repeat_prefix(handles, index as int + 1);
            }
            return Some(index);
        }
        seen.insert(raw);
        index = index + 1;
        assert forall|r: u64|
            seen@.contains(r) <==> handles.take(index as int).contains(FragmentId(r)) by {
            assert(handles.take(index as int) =~= handles.take(index as int - 1).push(
                handles[index as int - 1],
            ));
        }
    }
    assert(handles.take(index as int) =~= handles);
    None
}

/// Returns the alias fingerprint of an index, if any handle is shared by two paths.
pub fn first_alias_v1(identities: &IdentityIndexV1) -> (fingerprint: Option<FailureFingerprintV1>)
    ensures
        match fingerprint {
            Some(fingerprint) => alias_fingerprint(identities@) == Some(fingerprint@),
            None => alias_fingerprint(identities@).is_none(),
        },
{
    let nodes = identities.nodes_in_authored_order();
    if let Some(index) = first_node_repeat(nodes) {
        return Some(
            FailureFingerprintV1::identity_mismatch(
                FingerprintLocationV1::Node(nodes[index].0.clone()),
                FingerprintSummaryV1::LifecycleDistinct,
                FingerprintSummaryV1::LifecycleAliased,
            ),
        );
    }
    let fragments = identities.fragments_in_authored_order();
    if let Some(index) = first_fragment_repeat(fragments) {
        return Some(
            FailureFingerprintV1::identity_mismatch(
                FingerprintLocationV1::Fragment(fragments[index].0.clone()),
                FingerprintSummaryV1::LifecycleDistinct,
                FingerprintSummaryV1::LifecycleAliased,
            ),
        );
    }
    None
}


/// Mathematical state of the lifecycle ledger.
pub struct LedgerState {
    pub summary: IdentitySummaryV1,
    pub retired_nodes: Map<Seq<PathSegmentV1>, NodeId>,
    pub retired_fragments: Map<(Seq<PathSegmentV1>, u16), FragmentId>,
}

/// The state of a ledger that has checked nothing.
pub open spec fn empty_ledger_state() -> LedgerState {
    LedgerState {
        summary: IdentitySummaryV1::zero(),
        retired_nodes: Map::empty(),
        retired_fragments: Map::empty(),
    }
}

/// Where a ledger check stands: still consistent, stopped at a lifecycle
/// mismatch, or failed with a harness error.
pub enum LedgerOutcome {
    Continue(LedgerState),
    Mismatch(FingerprintView),
    Failed(HarnessErrorKind),
}

impl IdentitySummaryV1 {
    /// One more preserved check.
    pub closed spec fn bump_preserved(self) -> IdentitySummaryV1 {
        IdentitySummaryV1 { preserved: (self.preserved + 1) as u32, ..self }
    }

    /// One more retirement check.
    pub closed spec fn bump_retired(self) -> IdentitySummaryV1 {
        IdentitySummaryV1 { retired: (self.retired + 1) as u32, ..self }
    }

    /// One more fresh-issue check.
    pub closed spec fn bump_fresh(self) -> IdentitySummaryV1 {
        IdentitySummaryV1 { fresh: (self.fresh + 1) as u32, ..self }
    }

    /// One more alias-free snapshot.
    pub closed spec fn bump_alias_free(self) -> IdentitySummaryV1 {
        IdentitySummaryV1 { alias_free_snapshots: (self.alias_free_snapshots + 1) as u32, ..self }
    }
}

/// What the summary counts are: the empty summary counts nothing, each bump
/// adds one to its own count and leaves the others, and two summaries with
/// the same four counts are the same summary.
pub proof fn lemma_summary_counts()
    ensures
        IdentitySummaryV1::zero().spec_preserved() == 0,
        IdentitySummaryV1::zero().spec_retired() == 0,
        IdentitySummaryV1::zero().spec_fresh() == 0,
        IdentitySummaryV1::zero().spec_alias_free_snapshots() == 0,
        forall|summary: IdentitySummaryV1|
            {
                let next = #[trigger] summary.bump_preserved();
                &&& next.spec_preserved() == (summary.spec_preserved() + 1) as u32
                &&& next.spec_retired() == summary.spec_retired()
                &&& next.spec_fresh() == summary.spec_fresh()
                &&& next.spec_alias_free_snapshots() == summary.spec_alias_free_snapshots()
            },
        forall|summary: IdentitySummaryV1|
            {
                let next = #[trigger] summary.bump_retired();
                &&& next.spec_preserved() == summary.spec_preserved()
                &&& next.spec_retired() == (summary.spec_retired() + 1) as u32
                &&& next.spec_fresh() == summary.spec_fresh()
                &&& next.spec_alias_free_snapshots() == summary.spec_alias_free_snapshots()
            },
        forall|summary: IdentitySummaryV1|
            {
                let next = #[trigger] summary.bump_fresh();
                &&& next.spec_preserved() == summary.spec_preserved()
                &&& next.spec_retired() == summary.spec_retired()
                &&& next.spec_fresh() == (summary.spec_fresh() + 1) as u32
                &&& next.spec_alias_free_snapshots() == summary.spec_alias_free_snapshots()
            },
        forall|summary: IdentitySummaryV1|
            {
                let next = #[trigger] summary.bump_alias_free();
                &&& next.spec_preserved() == summary.spec_preserved()
                &&& next.spec_retired() == summary.spec_retired()
                &&& next.spec_fresh() == summary.spec_fresh()
                &&& next.spec_alias_free_snapshots() == (summary.spec_alias_free_snapshots()
                    + 1) as u32
            },
        forall|first: IdentitySummaryV1, second: IdentitySummaryV1|
            first.spec_preserved() == second.spec_preserved() && first.spec_retired()
                == second.spec_retired() && first.spec_fresh() == second.spec_fresh()
                && #[trigger] first.spec_alias_free_snapshots()
                == #[trigger] second.spec_alias_free_snapshots() ==> first == second,
{
}

/// A clean initial snapshot leaves a fresh ledger with exactly one
/// alias-free snapshot and no other checks.
pub proof fn lemma_clean_initial_snapshot(initial: IdentityIndexView)
    requires
        alias_fingerprint(initial) is None,
    ensures
        initial_outcome(empty_ledger_state(), initial) matches LedgerOutcome::Continue(
            state,
        ) && state.summary.spec_alias_free_snapshots() == 1 && state.summary.spec_preserved() == 0
            && state.summary.spec_retired() == 0 && state.summary.spec_fresh() == 0,
{
    lemma_summary_counts();
}

/// Folds a step over entries in order.
pub open spec fn fold_outcome<E>(
    init: LedgerOutcome,
    entries: Seq<E>,
    step: spec_fn(LedgerOutcome, E) -> LedgerOutcome,
) -> LedgerOutcome
    decreases entries.len(),
{
    if entries.len() == 0 {
        init
    } else {
        step(fold_outcome(init, entries.drop_last(), step), entries.last())
    }
}

/// Survey of one node that was live before a transition.
pub open spec fn node_survey_step(
    outcome: LedgerOutcome,
    entry: NodeEntry,
    after: Seq<NodeEntry>,
    before_tokens: Seq<(Seq<PathSegmentV1>, u64)>,
    after_tokens: Seq<(Seq<PathSegmentV1>, u64)>,
    live: Seq<NodeId>,
) -> LedgerOutcome {
    let location = FingerprintLocationView::Node(entry.0);
    match outcome {
        LedgerOutcome::Continue(state) => match lookup(before_tokens, entry.0) {
            None => LedgerOutcome::Failed(HarnessErrorKind::IdentityMismatch),
            Some(old_token) => match lookup(after, entry.0) {
                Some(new) => match lookup(after_tokens, entry.0) {
                    None => LedgerOutcome::Failed(HarnessErrorKind::IdentityMismatch),
                    Some(new_token) => if old_token == new_token {
                        if entry.1 != new {
                            LedgerOutcome::Mismatch(
                                lifecycle_fingerprint(
                                    location,
                                    SummaryView::LifecyclePreserved,
                                    SummaryView::LifecycleFresh,
                                ),
                            )
                        } else if state.summary.spec_preserved() == u32::MAX {
                            LedgerOutcome::Failed(HarnessErrorKind::ArithmeticExhausted)
                        } else {
                            LedgerOutcome::Continue(
                                LedgerState { summary: state.summary.bump_preserved(), ..state },
                            )
                        }
                    } else if entry.1 == new {
                        LedgerOutcome::Mismatch(
                            lifecycle_fingerprint(
                                location,
                                SummaryView::LifecycleFresh,
                                SummaryView::LifecyclePreserved,
                            ),
                        )
                    } else if live.contains(entry.1) {
                        LedgerOutcome::Mismatch(
                            lifecycle_fingerprint(
                                location,
                                SummaryView::LifecycleRetired,
                                SummaryView::LifecyclePreserved,
                            ),
                        )
                    } else if state.summary.spec_retired() == u32::MAX
                        || state.summary.spec_fresh() == u32::MAX {
                        LedgerOutcome::Failed(HarnessErrorKind::ArithmeticExhausted)
                    } else {
                        LedgerOutcome::Continue(
                            LedgerState {
                                summary: state.summary.bump_retired().bump_fresh(),
                                retired_nodes: state.retired_nodes.remove(entry.0),
                                ..state
                            },
                        )
                    },
                },
                None => if live.contains(entry.1) {
                    LedgerOutcome::Mismatch(
                        lifecycle_fingerprint(
                            location,
                            SummaryView::LifecycleRetired,
                            SummaryView::LifecyclePreserved,
                        ),
                    )
                } else if state.summary.spec_retired() == u32::MAX {
                    LedgerOutcome::Failed(HarnessErrorKind::ArithmeticExhausted)
                } else {
                    LedgerOutcome::Continue(
                        LedgerState {
                            summary: state.summary.bump_retired(),
                            retired_nodes: state.retired_nodes.insert(entry.0, entry.1),
                            ..state
                        },
                    )
                },
            },
        },
        other => other,
    }
}

/// Check of one node that is live after a transition but was not before: a
/// path retired earlier must come back with a fresh, stale-free handle.
pub open spec fn node_reissue_step(
    outcome: LedgerOutcome,
    entry: NodeEntry,
    before: Seq<NodeEntry>,
    live: Seq<NodeId>,
) -> LedgerOutcome {
    let location = FingerprintLocationView::Node(entry.0);
    match outcome {
        LedgerOutcome::Continue(state) => if lookup(before, entry.0).is_some() {
            LedgerOutcome::Continue(state)
        } else if state.retired_nodes.dom().contains(entry.0) {
            let old = state.retired_nodes[entry.0];
            if old == entry.1 {
                LedgerOutcome::Mismatch(
                    lifecycle_fingerprint(
                        location,
                        SummaryView::LifecycleFresh,
                        SummaryView::LifecyclePreserved,
                    ),
                )
            } else if live.contains(old) {
                LedgerOutcome::Mismatch(
                    lifecycle_fingerprint(
                        location,
                        SummaryView::LifecycleRetired,
                        SummaryView::LifecyclePreserved,
                    ),
                )
            } else if state.summary.spec_fresh() == u32::MAX {
                LedgerOutcome::Failed(HarnessErrorKind::ArithmeticExhausted)
            } else {
                LedgerOutcome::Continue(
                    LedgerState {
                        summary: state.summary.bump_fresh(),
                        retired_nodes: state.retired_nodes.remove(entry.0),
                        ..state
                    },
                )
            }
        } else {
            LedgerOutcome::Continue(state)
        },
        other => other,
    }
}

/// Survey of one fragment that was live before a transition; a fragment
/// inherits the incarnation token of its owning node.
pub open spec fn fragment_survey_step(
    outcome: LedgerOutcome,
    entry: FragmentEntry,
    after: Seq<FragmentEntry>,
    before_tokens: Seq<(Seq<PathSegmentV1>, u64)>,
    after_tokens: Seq<(Seq<PathSegmentV1>, u64)>,
    live: Seq<FragmentId>,
) -> LedgerOutcome {
    let location = FingerprintLocationView::Fragment(entry.0);
    match outcome {
        LedgerOutcome::Continue(state) => match lookup(before_tokens, entry.0.0) {
            None => LedgerOutcome::Failed(HarnessErrorKind::IdentityMismatch),
            Some(old_token) => match lookup(after, entry.0) {
                Some(new) => match lookup(after_tokens, entry.0.0) {
                    None => LedgerOutcome::Failed(HarnessErrorKind::IdentityMismatch),
                    Some(new_token) => if old_token == new_token {
                        if entry.1 != new {
                            LedgerOutcome::Mismatch(
                                lifecycle_fingerprint(
                                    location,
                                    SummaryView::LifecyclePreserved,
                                    SummaryView::LifecycleFresh,
                                ),
                            )
                        } else if state.summary.spec_preserved() == u32::MAX {
                            LedgerOutcome::Failed(HarnessErrorKind::ArithmeticExhausted)
                        } else {
                            LedgerOutcome::Continue(
                                LedgerState { summary: state.summary.bump_preserved(), ..state },
                            )
                        }
                    } else if entry.1 == new {
                        LedgerOutcome::Mismatch(
                            lifecycle_fingerprint(
                                location,
                                SummaryView::LifecycleFresh,
                                SummaryView::LifecyclePreserved,
                            ),
                        )
                    } else if live.contains(entry.1) {
                        LedgerOutcome::Mismatch(
                            lifecycle_fingerprint(
                                location,
                                SummaryView::LifecycleRetired,
                                SummaryView::LifecyclePreserved,
                            ),
                        )
                    } else if state.summary.spec_retired() == u32::MAX
                        || state.summary.spec_fresh() == u32::MAX {
                        LedgerOutcome::Failed(HarnessErrorKind::ArithmeticExhausted)
                    } else {
                        LedgerOutcome::Continue(
                            LedgerState {
                                summary: state.summary.bump_retired().bump_fresh(),
                                retired_fragments: state.retired_fragments.remove(entry.0),
                                ..state
                            },
                        )
                    },
                },
                None => if live.contains(entry.1) {
                    LedgerOutcome::Mismatch(
                        lifecycle_fingerprint(
                            location,
                            SummaryView::LifecycleRetired,
                            SummaryView::LifecyclePreserved,
                        ),
                    )
                } else if state.summary.spec_retired() == u32::MAX {
                    LedgerOutcome::Failed(HarnessErrorKind::ArithmeticExhausted)
                } else {
                    LedgerOutcome::Continue(
                        LedgerState {
                            summary: state.summary.bump_retired(),
                            retired_fragments: state.retired_fragments.insert(entry.0, entry.1),
                            ..state
                        },
                    )
                },
            },
        },
        other => other,
    }
}

/// Check of one fragment that is live after a transition but was not before.
pub open spec fn fragment_reissue_step(
    outcome: LedgerOutcome,
    entry: FragmentEntry,
    before: Seq<FragmentEntry>,
    live: Seq<FragmentId>,
) -> LedgerOutcome {
    let location = FingerprintLocationView::Fragment(entry.0);
    match outcome {
        LedgerOutcome::Continue(state) => if lookup(before, entry.0).is_some() {
            LedgerOutcome::Continue(state)
        } else if state.retired_fragments.dom().contains(entry.0) {
            let old = state.retired_fragments[entry.0];
            if old == entry.1 {
                LedgerOutcome::Mismatch(
                    lifecycle_fingerprint(
                        location,
                        SummaryView::LifecycleFresh,
                        SummaryView::LifecyclePreserved,
                    ),
                )
            } else if live.contains(old) {
                LedgerOutcome::Mismatch(
                    lifecycle_fingerprint(
                        location,
                        SummaryView::LifecycleRetired,
                        SummaryView::LifecyclePreserved,
                    ),
                )
            } else if state.summary.spec_fresh() == u32::MAX {
                LedgerOutcome::Failed(HarnessErrorKind::ArithmeticExhausted)
            } else {
                LedgerOutcome::Continue(
                    LedgerState {
                        summary: state.summary.bump_fresh(),
                        retired_fragments: state.retired_fragments.remove(entry.0),
                        ..state
                    },
                )
            }
        } else {
            LedgerOutcome::Continue(state)
        },
        other => other,
    }
}

/// The node survey as a step function.
pub open spec fn node_survey(
    after: Seq<NodeEntry>,
    before_tokens: Seq<(Seq<PathSegmentV1>, u64)>,
    after_tokens: Seq<(Seq<PathSegmentV1>, u64)>,
    live: Seq<NodeId>,
) -> spec_fn(LedgerOutcome, NodeEntry) -> LedgerOutcome {
    |outcome: LedgerOutcome, entry: NodeEntry|
        node_survey_step(outcome, entry, after, before_tokens, after_tokens, live)
}

/// The node reissue check as a step function.
pub open spec fn node_reissue(before: Seq<NodeEntry>, live: Seq<NodeId>) -> spec_fn(
    LedgerOutcome,
    NodeEntry,
) -> LedgerOutcome {
    |outcome: LedgerOutcome, entry: NodeEntry| node_reissue_step(outcome, entry, before, live)
}

/// The fragment survey as a step function.
pub open spec fn fragment_survey(
    after: Seq<FragmentEntry>,
    before_tokens: Seq<(Seq<PathSegmentV1>, u64)>,
    after_tokens: Seq<(Seq<PathSegmentV1>, u64)>,
    live: Seq<FragmentId>,
) -> spec_fn(LedgerOutcome, FragmentEntry) -> LedgerOutcome {
    |outcome: LedgerOutcome, entry: FragmentEntry|
        fragment_survey_step(outcome, entry, after, before_tokens, after_tokens, live)
}

/// The fragment reissue check as a step function.
pub open spec fn fragment_reissue(before: Seq<FragmentEntry>, live: Seq<FragmentId>) -> spec_fn(
    LedgerOutcome,
    FragmentEntry,
) -> LedgerOutcome {
    |outcome: LedgerOutcome, entry: FragmentEntry|
        fragment_reissue_step(outcome, entry, before, live)
}

/// All node checks of one transition, starting from a ledger state.
pub open spec fn node_checks(
    state: LedgerState,
    before: IdentityIndexView,
    before_tokens: Seq<(Seq<PathSegmentV1>, u64)>,
    after: IdentityIndexView,
    after_tokens: Seq<(Seq<PathSegmentV1>, u64)>,
    live: (Seq<NodeId>, Seq<FragmentId>),
) -> LedgerOutcome {
    fold_outcome(
        fold_outcome(
            LedgerOutcome::Continue(state),
            before.nodes,
            node_survey(after.nodes, before_tokens, after_tokens, live.0),
        ),
        after.nodes,
        node_reissue(before.nodes, live.0),
    )
}

/// All fragment checks of one transition, starting from a ledger outcome.
pub open spec fn fragment_checks(
    outcome: LedgerOutcome,
    before: IdentityIndexView,
    before_tokens: Seq<(Seq<PathSegmentV1>, u64)>,
    after: IdentityIndexView,
    after_tokens: Seq<(Seq<PathSegmentV1>, u64)>,
    live: (Seq<NodeId>, Seq<FragmentId>),
) -> LedgerOutcome {
    fold_outcome(
        fold_outcome(
            outcome,
            before.fragments,
            fragment_survey(after.fragments, before_tokens, after_tokens, live.1),
        ),
        after.fragments,
        fragment_reissue(before.fragments, live.1),
    )
}

/// Records one alias-free snapshot after all checks passed.
pub open spec fn record_alias_free(outcome: LedgerOutcome) -> LedgerOutcome {
    match outcome {
        LedgerOutcome::Continue(state) => if state.summary.spec_alias_free_snapshots() == u32::MAX {
            LedgerOutcome::Failed(HarnessErrorKind::ArithmeticExhausted)
        } else {
            LedgerOutcome::Continue(
                LedgerState { summary: state.summary.bump_alias_free(), ..state },
            )
        },
        other => other,
    }
}

/// The complete outcome of verifying one committed transition.
pub open spec fn transition_outcome(
    state: LedgerState,
    before: IdentityIndexView,
    before_tokens: Seq<(Seq<PathSegmentV1>, u64)>,
    after: IdentityIndexView,
    after_tokens: Seq<(Seq<PathSegmentV1>, u64)>,
    live: (Seq<NodeId>, Seq<FragmentId>),
) -> LedgerOutcome {
    match alias_fingerprint(after) {
        Some(fingerprint) => LedgerOutcome::Mismatch(fingerprint),
        None => record_alias_free(
            fragment_checks(
                node_checks(state, before, before_tokens, after, after_tokens, live),
                before,
                before_tokens,
                after,
                after_tokens,
                live,
            ),
        ),
    }
}

/// The complete outcome of verifying the initial snapshot.
pub open spec fn initial_outcome(state: LedgerState, initial: IdentityIndexView) -> LedgerOutcome {
    match alias_fingerprint(initial) {
        Some(fingerprint) => LedgerOutcome::Mismatch(fingerprint),
        None => record_alias_free(LedgerOutcome::Continue(state)),
    }
}

proof fn lemma_fold_absorbs<E>(
    init: LedgerOutcome,
    entries: Seq<E>,
    count: int,
    step: spec_fn(LedgerOutcome, E) -> LedgerOutcome,
)
    requires
        0 <= count <= entries.len(),
        !(fold_outcome(init, entries.take(count), step) is Continue),
        forall|outcome: LedgerOutcome, entry: E|
            !(outcome is Continue) ==> #[trigger] step(outcome, entry) == outcome,
    ensures
        fold_outcome(init, entries, step) == fold_outcome(init, entries.take(count), step),
    decreases entries.len() - count,
{
    if count < entries.len() {
        assert(entries.take(count + 1).drop_last() =~= entries.take(count));
        lemma_fold_absorbs(init, entries, count + 1, step);
    } else {
        assert(entries.take(count) =~= entries);
    }
}

proof fn lemma_fold_non_continue<E>(
    init: LedgerOutcome,
    entries: Seq<E>,
    step: spec_fn(LedgerOutcome, E) -> LedgerOutcome,
)
    requires
        !(init is Continue),
        forall|outcome: LedgerOutcome, entry: E|
            !(outcome is Continue) ==> #[trigger] step(outcome, entry) == outcome,
    ensures
        fold_outcome(init, entries, step) == init,
    decreases entries.len(),
{
    if entries.len() > 0 {
        lemma_fold_non_continue(init, entries.drop_last(), step);
    }
}

proof fn lemma_fold_step<E>(
    init: LedgerOutcome,
    entries: Seq<E>,
    index: int,
    step: spec_fn(LedgerOutcome, E) -> LedgerOutcome,
)
    requires
        0 <= index < entries.len(),
    ensures
        fold_outcome(init, entries.take(index + 1), step) == step(
            fold_outcome(init, entries.take(index), step),
            entries[index],
        ),
{
    assert(entries.take(index + 1).drop_last() =~= entries.take(index));
}

/// Removes every pair keyed by `path`, returning the value the pairs bound to it.
fn remove_node_pairs(entries: &mut Vec<(NodePathV1, NodeId)>, path: &NodePathV1) -> (removed: Option<NodeId>)
    ensures
        removed == map_get(pairs_map(node_entries(old(entries)@)), path@),
        pairs_map(node_entries(final(entries)@)) == pairs_map(node_entries(old(entries)@)).remove(path@),
{
    let ghost source = node_entries(entries@);
    let mut kept: Vec<(NodePathV1, NodeId)> = Vec::new();
    let mut removed: Option<NodeId> = None;
    let mut index: usize = 0;
    while index < entries.len()
        invariant
            index <= entries.len(),
            source == node_entries(entries@),
            source.len() == entries@.len(),
            pairs_map(node_entries(kept@)) == pairs_map(source.take(index as int)).remove(path@),
            removed == map_get(pairs_map(source.take(index as int)), path@),
        decreases entries.len() - index,
    {
        proof {
            lemma_pairs_map_step(source, index as int);
        }
        let ghost before_kept = node_entries(kept@);
        if entries[index].0.same(path) {
            removed = Some(entries[index].1);
        } else {
            let entry = (entries[index].0.clone(), entries[index].1);
            kept.push(entry);
            assert(node_entries(kept@) =~= before_kept.push(source[index as int]));
            assert(node_entries(kept@).drop_last() =~= before_kept);
        }
        index = index + 1;
        assert(pairs_map(node_entries(kept@)) =~= pairs_map(source.take(index as int)).remove(path@));
    }
    assert(source.take(index as int) =~= source);
    *entries = kept;
    removed
}

/// Removes every pair keyed by `path`, returning the value the pairs bound to it.
fn remove_fragment_pairs(
    entries: &mut Vec<(FragmentPathV1, FragmentId)>,
    path: &FragmentPathV1,
) -> (removed: Option<FragmentId>)
    ensures
        removed == map_get(pairs_map(fragment_entries(old(entries)@)), path@),
        pairs_map(fragment_entries(final(entries)@)) == pairs_map(fragment_entries(old(entries)@)).remove(
            path@,
        ),
{
    let ghost source = fragment_entries(entries@);
    let mut kept: Vec<(FragmentPathV1, FragmentId)> = Vec::new();
    let mut removed: Option<FragmentId> = None;
    let mut index: usize = 0;
    while index < entries.len()
        invariant
            index <= entries.len(),
            source == fragment_entries(entries@),
            source.len() == entries@.len(),
            pairs_map(fragment_entries(kept@)) == pairs_map(source.take(index as int)).remove(path@),
            removed == map_get(pairs_map(source.take(index as int)), path@),
        decreases entries.len() - index,
    {
        proof {
            lemma_pairs_map_step(source, index as int);
        }
        let ghost before_kept = fragment_entries(kept@);
        if entries[index].0.same(path) {
            removed = Some(entries[index].1);
        } else {
            let entry = (entries[index].0.clone(), entries[index].1);
            kept.push(entry);
            assert(fragment_entries(kept@) =~= before_kept.push(source[index as int]));
            assert(fragment_entries(kept@).drop_last() =~= before_kept);
        }
        index = index + 1;
        assert(pairs_map(fragment_entries(kept@)) =~= pairs_map(source.take(index as int)).remove(
            path@,
        ));
    }
    assert(source.take(index as int) =~= source);
    *entries = kept;
    removed
}


/// Holds when a check result reports the given outcome.
pub open spec fn reports(result: Result<Option<FailureFingerprintV1>, HarnessError>, outcome: LedgerOutcome) -> bool {
    match outcome {
        LedgerOutcome::Continue(_) => result matches Ok(None),
        LedgerOutcome::Mismatch(fingerprint) => result matches Ok(Some(found)) && found@ == fingerprint,
        LedgerOutcome::Failed(kind) => result matches Err(error) && error.is_unlocated(kind),
    }
}

/// Lifecycle ledger: retired handles by path and the running identity summary.
#[derive(Debug)]
pub struct IdentityLedgerV1 {
    retired_nodes: Vec<(NodePathV1, NodeId)>,
    retired_fragments: Vec<(FragmentPathV1, FragmentId)>,
    summary: IdentitySummaryV1,
}

impl View for IdentityLedgerV1 {
    type V = LedgerState;

    closed spec fn view(&self) -> LedgerState {
        LedgerState {
            summary: self.summary,
            retired_nodes: pairs_map(node_entries(self.retired_nodes@)),
            retired_fragments: pairs_map(fragment_entries(self.retired_fragments@)),
        }
    }
}

fn copy_node_pairs(entries: &Vec<(NodePathV1, NodeId)>) -> (copy: Vec<(NodePathV1, NodeId)>)
    ensures
        node_entries(copy@) == node_entries(entries@),
{
    let mut copy: Vec<(NodePathV1, NodeId)> = Vec::new();
    let mut index: usize = 0;
    while index < entries.len()
        invariant
            index <= entries.len(),
            copy@.len() == index,
            forall|i: int| 0 <= i < index ==> (#[trigger] copy@[i]).0@ == entries@[i].0@ && copy@[i].1 == entries@[i].1,
        decreases entries.len() - index,
    {
        let entry = (entries[index].0.clone(), entries[index].1);
        copy.push(entry);
        index = index + 1;
    }
    assert(node_entries(copy@) =~= node_entries(entries@));
    copy
}

fn copy_fragment_pairs(entries: &Vec<(FragmentPathV1, FragmentId)>) -> (copy: Vec<(FragmentPathV1, FragmentId)>)
    ensures
        fragment_entries(copy@) == fragment_entries(entries@),
{
    let mut copy: Vec<(FragmentPathV1, FragmentId)> = Vec::new();
    let mut index: usize = 0;
    while index < entries.len()
        invariant
            index <= entries.len(),
            copy@.len() == index,
            forall|i: int| 0 <= i < index ==> (#[trigger] copy@[i]).0@ == entries@[i].0@ && copy@[i].1 == entries@[i].1,
        decreases entries.len() - index,
    {
        let entry = (entries[index].0.clone(), entries[index].1);
        copy.push(entry);
        index = index + 1;
    }
    assert(fragment_entries(copy@) =~= fragment_entries(entries@));
    copy
}

fn checked_increment(value: u32) -> (result: Result<u32, HarnessError>)
    ensures
        value < u32::MAX ==> result == Ok::<u32, HarnessError>((value + 1) as u32),
        value == u32::MAX ==> (result matches Err(error) && error.is_unlocated(
            HarnessErrorKind::ArithmeticExhausted,
        )),
{
    match value.checked_add(1) {
        Some(next) => Ok(next),
        None => Err(HarnessError::new(HarnessErrorKind::ArithmeticExhausted)),
    }
}

fn identity_error() -> (error: HarnessError)
    ensures
        error.is_unlocated(HarnessErrorKind::IdentityMismatch),
{
    HarnessError::new(HarnessErrorKind::IdentityMismatch)
}

fn node_mismatch(path: &NodePathV1, expected: FingerprintSummaryV1, observed: FingerprintSummaryV1) -> (result: Result<Option<FailureFingerprintV1>, HarnessError>)
    ensures
        reports(result, LedgerOutcome::Mismatch(lifecycle_fingerprint(FingerprintLocationView::Node(path@), expected@, observed@))),
{
    Ok(Some(FailureFingerprintV1::identity_mismatch(FingerprintLocationV1::Node(path.clone()), expected, observed)))
}

fn fragment_mismatch(path: &FragmentPathV1, expected: FingerprintSummaryV1, observed: FingerprintSummaryV1) -> (result: Result<Option<FailureFingerprintV1>, HarnessError>)
    ensures
        reports(result, LedgerOutcome::Mismatch(lifecycle_fingerprint(FingerprintLocationView::Fragment(path@), expected@, observed@))),
{
    Ok(Some(FailureFingerprintV1::identity_mismatch(FingerprintLocationV1::Fragment(path.clone()), expected, observed)))
}

impl IdentityLedgerV1 {
    /// Creates an empty ledger.
    pub fn new() -> (ledger: Self)
        ensures
            ledger@.summary == IdentitySummaryV1::zero(),
            ledger@.retired_nodes == Map::<Seq<PathSegmentV1>, NodeId>::empty(),
            ledger@.retired_fragments == Map::<(Seq<PathSegmentV1>, u16), FragmentId>::empty(),
            ledger@ == empty_ledger_state(),
            balanced(ledger@),
    {
        proof {
            lemma_empty_ledger_balanced();
        }
        let ledger = IdentityLedgerV1 {
            retired_nodes: Vec::new(),
            retired_fragments: Vec::new(),
            summary: IdentitySummaryV1::new(),
        };
        assert(node_entries(ledger.retired_nodes@) =~= Seq::<NodeEntry>::empty());
        assert(fragment_entries(ledger.retired_fragments@) =~= Seq::<FragmentEntry>::empty());
        ledger
    }

    fn duplicate(&self) -> (copy: Self)
        ensures
            copy@ == self@,
    {
        IdentityLedgerV1 {
            retired_nodes: copy_node_pairs(&self.retired_nodes),
            retired_fragments: copy_fragment_pairs(&self.retired_fragments),
            summary: self.summary,
        }
    }

    /// Returns the aggregated identity checks so far.
    pub fn summary(&self) -> (summary: IdentitySummaryV1)
        ensures
            summary == self@.summary,
    {
        self.summary
    }

    /// Returns the handle retired at a node path and not yet reissued.
    pub fn retired_node(&self, path: &NodePathV1) -> (node: Option<NodeId>)
        ensures
            node == map_get(self@.retired_nodes, path@),
    {
        let mut entries = copy_node_pairs(&self.retired_nodes);
        remove_node_pairs(&mut entries, path)
    }

    /// Returns the handle retired at a fragment path and not yet reissued.
    pub fn retired_fragment(&self, path: &FragmentPathV1) -> (fragment: Option<FragmentId>)
        ensures
            fragment == map_get(self@.retired_fragments, path@),
    {
        let mut entries = copy_fragment_pairs(&self.retired_fragments);
        remove_fragment_pairs(&mut entries, path)
    }

    /// Returns the first aliased handle of one observed snapshot, if any.
    pub fn first_alias(identities: &IdentityIndexV1) -> (result: Result<Option<FailureFingerprintV1>, HarnessError>)
        ensures
            match alias_fingerprint(identities@) {
                Some(fingerprint) => result matches Ok(Some(found)) && found@ == fingerprint,
                None => result matches Ok(None),
            },
    {
        Ok(first_alias_v1(identities))
    }

    fn record_alias_free_snapshot(&mut self) -> (result: Result<(), HarnessError>)
        ensures
            match record_alias_free(LedgerOutcome::Continue(old(self)@)) {
                LedgerOutcome::Continue(state) => result is Ok && final(self)@ == state,
                LedgerOutcome::Failed(kind) => result matches Err(error) && error.is_unlocated(kind),
                LedgerOutcome::Mismatch(_) => false,
            },
    {
        let next = checked_increment(self.summary.alias_free_snapshots)?;
        self.summary = IdentitySummaryV1 { alias_free_snapshots: next, ..self.summary };
        Ok(())
    }

    /// Checks the initial snapshot for aliased handles; on success records one
    /// alias-free snapshot, otherwise leaves the ledger unchanged.
    pub fn verify_initial_aliases(&mut self, identities: &IdentityIndexV1) -> (result: Result<Option<FailureFingerprintV1>, HarnessError>)
        ensures
            reports(result, initial_outcome(old(self)@, identities@)),
            match initial_outcome(old(self)@, identities@) {
                LedgerOutcome::Continue(state) => final(self)@ == state,
                _ => final(self)@ == old(self)@,
            },
            balanced(old(self)@) ==> balanced(final(self)@),
    {
        proof {
            if balanced(self@) {
                lemma_initial_keeps_balance(self@, identities@);
            }
        }
        if let Some(fingerprint) = first_alias_v1(identities) {
            return Ok(Some(fingerprint));
        }
        let mut draft = self.duplicate();
        draft.record_alias_free_snapshot()?;
        *self = draft;
        Ok(None)
    }

    fn survey_node(
        &mut self,
        path: &NodePathV1,
        old_node: NodeId,
        after: &IdentityIndexV1,
        before_tokens: &IncarnationTokensV1,
        after_tokens: &IncarnationTokensV1,
        live: &LiveHandlesV1,
    ) -> (result: Result<Option<FailureFingerprintV1>, HarnessError>)
        ensures
            reports(result, node_survey_step(LedgerOutcome::Continue(old(self)@), (path@, old_node), after@.nodes, before_tokens@, after_tokens@, live@.0)),
            node_survey_step(LedgerOutcome::Continue(old(self)@), (path@, old_node), after@.nodes, before_tokens@, after_tokens@, live@.0) matches LedgerOutcome::Continue(state) ==> final(self)@ == state,
    {
        let old_token = match before_tokens.incarnation_token(path) {
            Some(token) => token,
            None => return Err(identity_error()),
        };
        match after.node(path) {
            Some(new_node) => {
                let new_token = match after_tokens.incarnation_token(path) {
                    Some(token) => token,
                    None => return Err(identity_error()),
                };
                if old_token == new_token {
                    if old_node != new_node {
                        return node_mismatch(path, FingerprintSummaryV1::LifecyclePreserved, FingerprintSummaryV1::LifecycleFresh);
                    }
                    let preserved = checked_increment(self.summary.preserved)?;
                    self.summary = IdentitySummaryV1 { preserved, ..self.summary };
                } else {
                    if old_node == new_node {
                        return node_mismatch(path, FingerprintSummaryV1::LifecycleFresh, FingerprintSummaryV1::LifecyclePreserved);
                    }
                    if live.node_is_live(old_node) {
                        return node_mismatch(path, FingerprintSummaryV1::LifecycleRetired, FingerprintSummaryV1::LifecyclePreserved);
                    }
                    let retired = checked_increment(self.summary.retired)?;
                    let fresh = checked_increment(self.summary.fresh)?;
                    self.summary = IdentitySummaryV1 { retired, fresh, ..self.summary };
                    remove_node_pairs(&mut self.retired_nodes, path);
                }
            },
            None => {
                if live.node_is_live(old_node) {
                    return node_mismatch(path, FingerprintSummaryV1::LifecycleRetired, FingerprintSummaryV1::LifecyclePreserved);
                }
                let retired = checked_increment(self.summary.retired)?;
                self.summary = IdentitySummaryV1 { retired, ..self.summary };
                let ghost before_map = pairs_map(node_entries(self.retired_nodes@));
                remove_node_pairs(&mut self.retired_nodes, path);
                let ghost removed_map = node_entries(self.retired_nodes@);
                self.retired_nodes.push((path.clone(), old_node));
                proof {
                    assert(node_entries(self.retired_nodes@).drop_last() =~= removed_map);
                    assert(pairs_map(node_entries(self.retired_nodes@)) =~= before_map.insert(path@, old_node));
                }
            },
        }
        Ok(None)
    }

    fn survey_fragment(
        &mut self,
        path: &FragmentPathV1,
        old_fragment: FragmentId,
        after: &IdentityIndexV1,
        before_tokens: &IncarnationTokensV1,
        after_tokens: &IncarnationTokensV1,
        live: &LiveHandlesV1,
    ) -> (result: Result<Option<FailureFingerprintV1>, HarnessError>)
        ensures
            reports(result, fragment_survey_step(LedgerOutcome::Continue(old(self)@), (path@, old_fragment), after@.fragments, before_tokens@, after_tokens@, live@.1)),
            fragment_survey_step(LedgerOutcome::Continue(old(self)@), (path@, old_fragment), after@.fragments, before_tokens@, after_tokens@, live@.1) matches LedgerOutcome::Continue(state) ==> final(self)@ == state,
    {
        let old_token = match before_tokens.incarnation_token(path.owner()) {
            Some(token) => token,
            None => return Err(identity_error()),
        };
        match after.fragment(path) {
            Some(new_fragment) => {
                let new_token = match after_tokens.incarnation_token(path.owner()) {
                    Some(token) => token,
                    None => return Err(identity_error()),
                };
                if old_token == new_token {
                    if old_fragment != new_fragment {
                        return fragment_mismatch(path, FingerprintSummaryV1::LifecyclePreserved, FingerprintSummaryV1::LifecycleFresh);
                    }
                    let preserved = checked_increment(self.summary.preserved)?;
                    self.summary = IdentitySummaryV1 { preserved, ..self.summary };
                } else {
                    if old_fragment == new_fragment {
                        return fragment_mismatch(path, FingerprintSummaryV1::LifecycleFresh, FingerprintSummaryV1::LifecyclePreserved);
                    }
                    if live.fragment_is_live(old_fragment) {
                        return fragment_mismatch(path, FingerprintSummaryV1::LifecycleRetired, FingerprintSummaryV1::LifecyclePreserved);
                    }
                    let retired = checked_increment(self.summary.retired)?;
                    let fresh = checked_increment(self.summary.fresh)?;
                    self.summary = IdentitySummaryV1 { retired, fresh, ..self.summary };
                    remove_fragment_pairs(&mut self.retired_fragments, path);
                }
            },
            None => {
                if live.fragment_is_live(old_fragment) {
                    return fragment_mismatch(path, FingerprintSummaryV1::LifecycleRetired, FingerprintSummaryV1::LifecyclePreserved);
                }
                let retired = checked_increment(self.summary.retired)?;
                self.summary = IdentitySummaryV1 { retired, ..self.summary };
                let ghost before_map = pairs_map(fragment_entries(self.retired_fragments@));
                remove_fragment_pairs(&mut self.retired_fragments, path);
                let ghost removed_map = fragment_entries(self.retired_fragments@);
                self.retired_fragments.push((path.clone(), old_fragment));
                proof {
                    assert(fragment_entries(self.retired_fragments@).drop_last() =~= removed_map);
                    assert(pairs_map(fragment_entries(self.retired_fragments@)) =~= before_map.insert(path@, old_fragment));
                }
            },
        }
        Ok(None)
    }

    fn reissue_node(
        &mut self,
        path: &NodePathV1,
        new_node: NodeId,
        before: &IdentityIndexV1,
        live: &LiveHandlesV1,
    ) -> (result: Result<Option<FailureFingerprintV1>, HarnessError>)
        ensures
            reports(result, node_reissue_step(LedgerOutcome::Continue(old(self)@), (path@, new_node), before@.nodes, live@.0)),
            node_reissue_step(LedgerOutcome::Continue(old(self)@), (path@, new_node), before@.nodes, live@.0) matches LedgerOutcome::Continue(state) ==> final(self)@ == state,
    {
        if before.node(path).is_some() {
            return Ok(None);
        }
        if let Some(old_node) = remove_node_pairs(&mut self.retired_nodes, path) {
            if old_node == new_node {
                return node_mismatch(path, FingerprintSummaryV1::LifecycleFresh, FingerprintSummaryV1::LifecyclePreserved);
            }
            if live.node_is_live(old_node) {
                return node_mismatch(path, FingerprintSummaryV1::LifecycleRetired, FingerprintSummaryV1::LifecyclePreserved);
            }
            let fresh = checked_increment(self.summary.fresh)?;
            self.summary = IdentitySummaryV1 { fresh, ..self.summary };
        } else {
            assert(pairs_map(node_entries(self.retired_nodes@)) =~= pairs_map(node_entries(old(self).retired_nodes@)));
        }
        Ok(None)
    }

    fn reissue_fragment(
        &mut self,
        path: &FragmentPathV1,
        new_fragment: FragmentId,
        before: &IdentityIndexV1,
        live: &LiveHandlesV1,
    ) -> (result: Result<Option<FailureFingerprintV1>, HarnessError>)
        ensures
            reports(result, fragment_reissue_step(LedgerOutcome::Continue(old(self)@), (path@, new_fragment), before@.fragments, live@.1)),
            fragment_reissue_step(LedgerOutcome::Continue(old(self)@), (path@, new_fragment), before@.fragments, live@.1) matches LedgerOutcome::Continue(state) ==> final(self)@ == state,
    {
        if before.fragment(path).is_some() {
            return Ok(None);
        }
        if let Some(old_fragment) = remove_fragment_pairs(&mut self.retired_fragments, path) {
            if old_fragment == new_fragment {
                return fragment_mismatch(path, FingerprintSummaryV1::LifecycleFresh, FingerprintSummaryV1::LifecyclePreserved);
            }
            if live.fragment_is_live(old_fragment) {
                return fragment_mismatch(path, FingerprintSummaryV1::LifecycleRetired, FingerprintSummaryV1::LifecyclePreserved);
            }
            let fresh = checked_increment(self.summary.fresh)?;
            self.summary = IdentitySummaryV1 { fresh, ..self.summary };
        } else {
            assert(pairs_map(fragment_entries(self.retired_fragments@)) =~= pairs_map(fragment_entries(old(self).retired_fragments@)));
        }
        Ok(None)
    }

    fn verify_nodes(
        &mut self,
        before: &IdentityIndexV1,
        before_tokens: &IncarnationTokensV1,
        after: &IdentityIndexV1,
        after_tokens: &IncarnationTokensV1,
        live: &LiveHandlesV1,
    ) -> (result: Result<Option<FailureFingerprintV1>, HarnessError>)
        ensures
            reports(result, node_checks(old(self)@, before@, before_tokens@, after@, after_tokens@, live@)),
            node_checks(old(self)@, before@, before_tokens@, after@, after_tokens@, live@) matches LedgerOutcome::Continue(state) ==> final(self)@ == state,
    {
        let ghost init = LedgerOutcome::Continue(old(self)@);
        let ghost survey = node_survey(after@.nodes, before_tokens@, after_tokens@, live@.0);
        let ghost reissue = node_reissue(before@.nodes, live@.0);
        assert forall|outcome: LedgerOutcome, entry: NodeEntry| !(outcome is Continue) implies #[trigger] survey(outcome, entry) == outcome by {}
        assert forall|outcome: LedgerOutcome, entry: NodeEntry| !(outcome is Continue) implies #[trigger] reissue(outcome, entry) == outcome by {}
        let before_nodes = before.nodes_in_authored_order();
        let mut index: usize = 0;
        while index < before_nodes.len()
            invariant
                index <= before_nodes.len(),
                node_entries(before_nodes@) == before@.nodes,
                before_nodes@.len() == before@.nodes.len(),
                survey == node_survey(after@.nodes, before_tokens@, after_tokens@, live@.0),
                reissue == node_reissue(before@.nodes, live@.0),
                init == LedgerOutcome::Continue(old(self)@),
                forall|outcome: LedgerOutcome, entry: NodeEntry| !(outcome is Continue) ==> #[trigger] survey(outcome, entry) == outcome,
                forall|outcome: LedgerOutcome, entry: NodeEntry| !(outcome is Continue) ==> #[trigger] reissue(outcome, entry) == outcome,
                fold_outcome(init, before@.nodes.take(index as int), survey) == LedgerOutcome::Continue(self@),
            decreases before_nodes.len() - index,
        {
            let ghost current = self@;
            proof {
                lemma_fold_step(init, before@.nodes, index as int, survey);
                assert(before@.nodes[index as int] == (before_nodes@[index as int].0@, before_nodes@[index as int].1));
            }
            let result = self.survey_node(&before_nodes[index].0, before_nodes[index].1, after, before_tokens, after_tokens, live);
            if !matches!(result, Ok(None)) {
                proof {
                    lemma_fold_absorbs(init, before@.nodes, index as int + 1, survey);
                    lemma_fold_non_continue(fold_outcome(init, before@.nodes, survey), after@.nodes, reissue);
                }
                return result;
            }
            index = index + 1;
        }
        assert(before@.nodes.take(index as int) =~= before@.nodes);
        let ghost middle = fold_outcome(init, before@.nodes, survey);
        let after_nodes = after.nodes_in_authored_order();
        let mut index: usize = 0;
        while index < after_nodes.len()
            invariant
                index <= after_nodes.len(),
                node_entries(after_nodes@) == after@.nodes,
                after_nodes@.len() == after@.nodes.len(),
                reissue == node_reissue(before@.nodes, live@.0),
                survey == node_survey(after@.nodes, before_tokens@, after_tokens@, live@.0),
                init == LedgerOutcome::Continue(old(self)@),
                middle == fold_outcome(init, before@.nodes, survey),
                middle is Continue,
                forall|outcome: LedgerOutcome, entry: NodeEntry| !(outcome is Continue) ==> #[trigger] reissue(outcome, entry) == outcome,
                fold_outcome(middle, after@.nodes.take(index as int), reissue) == LedgerOutcome::Continue(self@),
            decreases after_nodes.len() - index,
        {
            proof {
                lemma_fold_step(middle, after@.nodes, index as int, reissue);
                assert(after@.nodes[index as int] == (after_nodes@[index as int].0@, after_nodes@[index as int].1));
            }
            let result = self.reissue_node(&after_nodes[index].0, after_nodes[index].1, before, live);
            if !matches!(result, Ok(None)) {
                proof {
                    lemma_fold_absorbs(middle, after@.nodes, index as int + 1, reissue);
                }
                return result;
            }
            index = index + 1;
        }
        assert(after@.nodes.take(index as int) =~= after@.nodes);
        Ok(None)
    }

    fn verify_fragments(
        &mut self,
        before: &IdentityIndexV1,
        before_tokens: &IncarnationTokensV1,
        after: &IdentityIndexV1,
        after_tokens: &IncarnationTokensV1,
        live: &LiveHandlesV1,
    ) -> (result: Result<Option<FailureFingerprintV1>, HarnessError>)
        ensures
            reports(result, fragment_checks(LedgerOutcome::Continue(old(self)@), before@, before_tokens@, after@, after_tokens@, live@)),
            fragment_checks(LedgerOutcome::Continue(old(self)@), before@, before_tokens@, after@, after_tokens@, live@) matches LedgerOutcome::Continue(state) ==> final(self)@ == state,
    {
        let ghost init = LedgerOutcome::Continue(old(self)@);
        let ghost survey = fragment_survey(after@.fragments, before_tokens@, after_tokens@, live@.1);
        let ghost reissue = fragment_reissue(before@.fragments, live@.1);
        assert forall|outcome: LedgerOutcome, entry: FragmentEntry| !(outcome is Continue) implies #[trigger] survey(outcome, entry) == outcome by {}
        assert forall|outcome: LedgerOutcome, entry: FragmentEntry| !(outcome is Continue) implies #[trigger] reissue(outcome, entry) == outcome by {}
        let before_fragments = before.fragments_in_authored_order();
        let mut index: usize = 0;
        while index < before_fragments.len()
            invariant
                index <= before_fragments.len(),
                fragment_entries(before_fragments@) == before@.fragments,
                before_fragments@.len() == before@.fragments.len(),
                survey == fragment_survey(after@.fragments, before_tokens@, after_tokens@, live@.1),
                reissue == fragment_reissue(before@.fragments, live@.1),
                init == LedgerOutcome::Continue(old(self)@),
                forall|outcome: LedgerOutcome, entry: FragmentEntry| !(outcome is Continue) ==> #[trigger] survey(outcome, entry) == outcome,
                forall|outcome: LedgerOutcome, entry: FragmentEntry| !(outcome is Continue) ==> #[trigger] reissue(outcome, entry) == outcome,
                fold_outcome(init, before@.fragments.take(index as int), survey) == LedgerOutcome::Continue(self@),
            decreases before_fragments.len() - index,
        {
            let ghost current = self@;
            proof {
                lemma_fold_step(init, before@.fragments, index as int, survey);
                assert(before@.fragments[index as int] == (before_fragments@[index as int].0@, before_fragments@[index as int].1));
            }
            let result = self.survey_fragment(&before_fragments[index].0, before_fragments[index].1, after, before_tokens, after_tokens, live);
            if !matches!(result, Ok(None)) {
                proof {
                    lemma_fold_absorbs(init, before@.fragments, index as int + 1, survey);
                    lemma_fold_non_continue(fold_outcome(init, before@.fragments, survey), after@.fragments, reissue);
                }
                return result;
            }
            index = index + 1;
        }
        assert(before@.fragments.take(index as int) =~= before@.fragments);
        let ghost middle = fold_outcome(init, before@.fragments, survey);
        let after_fragments = after.fragments_in_authored_order();
        let mut index: usize = 0;
        while index < after_fragments.len()
            invariant
                index <= after_fragments.len(),
                fragment_entries(after_fragments@) == after@.fragments,
                after_fragments@.len() == after@.fragments.len(),
                reissue == fragment_reissue(before@.fragments, live@.1),
                survey == fragment_survey(after@.fragments, before_tokens@, after_tokens@, live@.1),
                init == LedgerOutcome::Continue(old(self)@),
                middle == fold_outcome(init, before@.fragments, survey),
                middle is Continue,
                forall|outcome: LedgerOutcome, entry: FragmentEntry| !(outcome is Continue) ==> #[trigger] reissue(outcome, entry) == outcome,
                fold_outcome(middle, after@.fragments.take(index as int), reissue) == LedgerOutcome::Continue(self@),
            decreases after_fragments.len() - index,
        {
            proof {
                lemma_fold_step(middle, after@.fragments, index as int, reissue);
                assert(after@.fragments[index as int] == (after_fragments@[index as int].0@, after_fragments@[index as int].1));
            }
            let result = self.reissue_fragment(&after_fragments[index].0, after_fragments[index].1, before, live);
            if !matches!(result, Ok(None)) {
                proof {
                    lemma_fold_absorbs(middle, after@.fragments, index as int + 1, reissue);
                }
                return result;
            }
            index = index + 1;
        }
        assert(after@.fragments.take(index as int) =~= after@.fragments);
        Ok(None)
    }

    /// Verifies one committed transition: no aliasing after it, surviving
    /// paths keep their handles, removed paths' handles are stale, re-created
    /// paths get fresh handles. On success the ledger records the checks and
    /// one alias-free snapshot; on a mismatch or error it is left unchanged.
    pub fn verify_transition(
        &mut self,
        before: &IdentityIndexV1,
        before_tokens: &IncarnationTokensV1,
        after: &IdentityIndexV1,
        after_tokens: &IncarnationTokensV1,
        live: &LiveHandlesV1,
    ) -> (result: Result<Option<FailureFingerprintV1>, HarnessError>)
        ensures
            reports(result, transition_outcome(old(self)@, before@, before_tokens@, after@, after_tokens@, live@)),
            match transition_outcome(old(self)@, before@, before_tokens@, after@, after_tokens@, live@) {
                LedgerOutcome::Continue(state) => final(self)@ == state,
                _ => final(self)@ == old(self)@,
            },
            balanced(old(self)@) ==> balanced(final(self)@),
    {
        proof {
            if balanced(self@) {
                lemma_transition_keeps_balance(self@, before@, before_tokens@, after@, after_tokens@, live@);
            }
        }
        if let Some(fingerprint) = first_alias_v1(after) {
            return Ok(Some(fingerprint));
        }
        let mut draft = self.duplicate();
        let nodes = draft.verify_nodes(before, before_tokens, after, after_tokens, live);
        if !matches!(nodes, Ok(None)) {
            proof {
                let outcome = node_checks(self@, before@, before_tokens@, after@, after_tokens@, live@);
                lemma_fold_non_continue(outcome, before@.fragments, fragment_survey(after@.fragments, before_tokens@, after_tokens@, live@.1));
                lemma_fold_non_continue(outcome, after@.fragments, fragment_reissue(before@.fragments, live@.1));
            }
            return nodes;
        }
        let fragments = draft.verify_fragments(before, before_tokens, after, after_tokens, live);
        if !matches!(fragments, Ok(None)) {
            return fragments;
        }
        draft.record_alias_free_snapshot()?;
        *self = draft;
        Ok(None)
    }
}

/// A ledger outcome that, where it goes on, has recorded `count` alias-free
/// snapshots.
pub open spec fn alias_count_is(outcome: LedgerOutcome, count: u32) -> bool {
    outcome matches LedgerOutcome::Continue(state) ==> state.summary.spec_alias_free_snapshots()
        == count
}

proof fn lemma_fold_keeps_alias_count<E>(
    init: LedgerOutcome,
    entries: Seq<E>,
    step: spec_fn(LedgerOutcome, E) -> LedgerOutcome,
    count: u32,
)
    requires
        alias_count_is(init, count),
        forall|outcome: LedgerOutcome, entry: E|
            alias_count_is(outcome, count) ==> #[trigger] alias_count_is(step(outcome, entry), count),
    ensures
        alias_count_is(fold_outcome(init, entries, step), count),
    decreases entries.len(),
{
    if entries.len() > 0 {
        lemma_fold_keeps_alias_count(init, entries.drop_last(), step, count);
        let inner = fold_outcome(init, entries.drop_last(), step);
        assert(alias_count_is(step(inner, entries.last()), count));
    }
}

/// A committed transition that the ledger accepts records exactly one more
/// alias-free snapshot.
pub proof fn lemma_transition_records_one_snapshot(
    state: LedgerState,
    before: IdentityIndexView,
    before_tokens: Seq<(Seq<PathSegmentV1>, u64)>,
    after: IdentityIndexView,
    after_tokens: Seq<(Seq<PathSegmentV1>, u64)>,
    live: (Seq<NodeId>, Seq<FragmentId>),
)
    ensures
        transition_outcome(state, before, before_tokens, after, after_tokens, live) matches LedgerOutcome::Continue(
            next,
        ) ==> next.summary.spec_alias_free_snapshots() == state.summary.spec_alias_free_snapshots()
            + 1,
{
    lemma_summary_counts();
    let count = state.summary.spec_alias_free_snapshots();
    let survey = node_survey(after.nodes, before_tokens, after_tokens, live.0);
    let reissue = node_reissue(before.nodes, live.0);
    let fragment_survey_fn = fragment_survey(after.fragments, before_tokens, after_tokens, live.1);
    let fragment_reissue_fn = fragment_reissue(before.fragments, live.1);
    assert forall|outcome: LedgerOutcome, entry: NodeEntry|
        alias_count_is(outcome, count) implies #[trigger] alias_count_is(survey(outcome, entry), count) by {
        lemma_summary_counts();
    }
    assert forall|outcome: LedgerOutcome, entry: NodeEntry|
        alias_count_is(outcome, count) implies #[trigger] alias_count_is(reissue(outcome, entry), count) by {
        lemma_summary_counts();
    }
    assert forall|outcome: LedgerOutcome, entry: FragmentEntry|
        alias_count_is(outcome, count) implies #[trigger] alias_count_is(
        fragment_survey_fn(outcome, entry),
        count,
    ) by {
        lemma_summary_counts();
    }
    assert forall|outcome: LedgerOutcome, entry: FragmentEntry|
        alias_count_is(outcome, count) implies #[trigger] alias_count_is(
        fragment_reissue_fn(outcome, entry),
        count,
    ) by {
        lemma_summary_counts();
    }
    let first = fold_outcome(LedgerOutcome::Continue(state), before.nodes, survey);
    lemma_fold_keeps_alias_count(LedgerOutcome::Continue(state), before.nodes, survey, count);
    let second = fold_outcome(first, after.nodes, reissue);
    lemma_fold_keeps_alias_count(first, after.nodes, reissue, count);
    let third = fold_outcome(second, before.fragments, fragment_survey_fn);
    lemma_fold_keeps_alias_count(second, before.fragments, fragment_survey_fn, count);
    lemma_fold_keeps_alias_count(third, after.fragments, fragment_reissue_fn, count);
}

/// A ledger whose fresh issues never outrun its retirements: every fresh
/// issue and every still-retired path was counted by a retirement.
pub open spec fn balanced(state: LedgerState) -> bool {
    &&& state.retired_nodes.dom().finite()
    &&& state.retired_fragments.dom().finite()
    &&& state.summary.spec_fresh() + state.retired_nodes.dom().len()
        + state.retired_fragments.dom().len() <= state.summary.spec_retired()
}

/// An outcome that, where it goes on, is balanced.
pub open spec fn balanced_outcome(outcome: LedgerOutcome) -> bool {
    outcome matches LedgerOutcome::Continue(state) ==> balanced(state)
}

proof fn lemma_fold_keeps_balance<E>(
    init: LedgerOutcome,
    entries: Seq<E>,
    step: spec_fn(LedgerOutcome, E) -> LedgerOutcome,
)
    requires
        balanced_outcome(init),
        forall|outcome: LedgerOutcome, entry: E|
            balanced_outcome(outcome) ==> #[trigger] balanced_outcome(step(outcome, entry)),
    ensures
        balanced_outcome(fold_outcome(init, entries, step)),
    decreases entries.len(),
{
    if entries.len() > 0 {
        lemma_fold_keeps_balance(init, entries.drop_last(), step);
        let inner = fold_outcome(init, entries.drop_last(), step);
        assert(balanced_outcome(step(inner, entries.last())));
    }
}

/// A ledger that has checked nothing is balanced.
pub proof fn lemma_empty_ledger_balanced()
    ensures
        balanced(empty_ledger_state()),
{
    lemma_summary_counts();
    assert(Map::<Seq<PathSegmentV1>, NodeId>::empty().dom() =~= Set::empty());
    assert(Map::<(Seq<PathSegmentV1>, u16), FragmentId>::empty().dom() =~= Set::empty());
}

/// Checking an initial snapshot keeps a ledger balanced.
pub proof fn lemma_initial_keeps_balance(state: LedgerState, initial: IdentityIndexView)
    requires
        balanced(state),
    ensures
        balanced_outcome(initial_outcome(state, initial)),
{
    lemma_summary_counts();
}

/// Checking a transition keeps a ledger balanced: a path counted fresh was
/// counted retired first, so fresh paths never outnumber retired ones.
pub proof fn lemma_transition_keeps_balance(
    state: LedgerState,
    before: IdentityIndexView,
    before_tokens: Seq<(Seq<PathSegmentV1>, u64)>,
    after: IdentityIndexView,
    after_tokens: Seq<(Seq<PathSegmentV1>, u64)>,
    live: (Seq<NodeId>, Seq<FragmentId>),
)
    requires
        balanced(state),
    ensures
        balanced_outcome(transition_outcome(state, before, before_tokens, after, after_tokens, live)),
{
    lemma_summary_counts();
    let survey = node_survey(after.nodes, before_tokens, after_tokens, live.0);
    let reissue = node_reissue(before.nodes, live.0);
    let fragment_survey_fn = fragment_survey(after.fragments, before_tokens, after_tokens, live.1);
    let fragment_reissue_fn = fragment_reissue(before.fragments, live.1);
    assert forall|outcome: LedgerOutcome, entry: NodeEntry|
        balanced_outcome(outcome) implies #[trigger] balanced_outcome(survey(outcome, entry)) by {
        lemma_summary_counts();
        if let LedgerOutcome::Continue(state) = outcome {
            assert(state.retired_nodes.remove(entry.0).dom() =~= state.retired_nodes.dom().remove(
                entry.0,
            ));
            assert(state.retired_nodes.insert(entry.0, entry.1).dom() =~= state.retired_nodes.dom().insert(
                entry.0,
            ));
        }
    }
    assert forall|outcome: LedgerOutcome, entry: NodeEntry|
        balanced_outcome(outcome) implies #[trigger] balanced_outcome(reissue(outcome, entry)) by {
        lemma_summary_counts();
        if let LedgerOutcome::Continue(state) = outcome {
            assert(state.retired_nodes.remove(entry.0).dom() =~= state.retired_nodes.dom().remove(
                entry.0,
            ));
        }
    }
    assert forall|outcome: LedgerOutcome, entry: FragmentEntry|
        balanced_outcome(outcome) implies #[trigger] balanced_outcome(
        fragment_survey_fn(outcome, entry),
    ) by {
        lemma_summary_counts();
        if let LedgerOutcome::Continue(state) = outcome {
            assert(state.retired_fragments.remove(entry.0).dom()
                =~= state.retired_fragments.dom().remove(entry.0));
            assert(state.retired_fragments.insert(entry.0, entry.1).dom()
                =~= state.retired_fragments.dom().insert(entry.0));
        }
    }
    assert forall|outcome: LedgerOutcome, entry: FragmentEntry|
        balanced_outcome(outcome) implies #[trigger] balanced_outcome(
        fragment_reissue_fn(outcome, entry),
    ) by {
        lemma_summary_counts();
        if let LedgerOutcome::Continue(state) = outcome {
            assert(state.retired_fragments.remove(entry.0).dom()
                =~= state.retired_fragments.dom().remove(entry.0));
        }
    }
    let first = fold_outcome(LedgerOutcome::Continue(state), before.nodes, survey);
    lemma_fold_keeps_balance(LedgerOutcome::Continue(state), before.nodes, survey);
    let second = fold_outcome(first, after.nodes, reissue);
    lemma_fold_keeps_balance(first, after.nodes, reissue);
    let third = fold_outcome(second, before.fragments, fragment_survey_fn);
    lemma_fold_keeps_balance(second, before.fragments, fragment_survey_fn);
    lemma_fold_keeps_balance(third, after.fragments, fragment_reissue_fn);
}

} // verus!
