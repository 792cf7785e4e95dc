//! Observation of a committed snapshot: a depth-first walk from the root,
//! guided by the construction program, that checks every link the snapshot
//! reports and produces the normalized state with the handle of each node and
//! region instance.

use vstd::prelude::*;

use crate::case::{value_type_of, PropertyId, PropertyValue};
use crate::error::{HarnessError, HarnessErrorKind, HarnessLimitKind};
use crate::fixture::HarnessLimitsV1;
use crate::identity::{
    alias_fingerprint, first_repeat, fragment_handles, lookup, node_handles, FragmentId,
    IdentityIndexV1, IdentityIndexView, NodeId,
};
use crate::model::rebuild::{find_region, find_template};
use crate::model::{
    first_index, fragments_view, groups_view, members_view, nodes_view, optional_path, NormalizedChildGroupV1,
    NormalizedFragmentV1, NormalizedNodeV1, region_ids, template_ids, ChildFactoryV1, ChildGroupView,
    ConstructionModelV1, FragmentView, NodeView, NormalizedStateV1, PropertySlotV1, StateView,
    StructuralRegionId, TemplateNodeId,
};
use crate::observe::{checked_increment, ensure_next_count, ensure_path_depth};
use crate::observe::view::{
    view_child_at, view_children, view_component, view_fragment, view_members, view_parent,
    view_property, view_template, SnapshotModelV1,
};
use crate::semantic::{FragmentPathV1, NodePathV1, PathSegmentV1};

verus! {

/// Mathematical form of one pending unit of observation.
pub enum ObserveWorkView {
    Node {
        path: Seq<PathSegmentV1>,
        parent_path: Option<Seq<PathSegmentV1>>,
        node: NodeId,
        parent: Option<NodeId>,
        template: TemplateNodeId,
    },
    Fragment {
        path: (Seq<PathSegmentV1>, u16),
        fragment: FragmentId,
        owner: NodeId,
        descriptor: StructuralRegionId,
        repeat_body: TemplateNodeId,
        members: Seq<(u64, NodeId, Seq<PathSegmentV1>)>,
    },
}

/// Everything an observation has produced and still owes at one point.
pub struct ObserveState {
    pub work: Seq<ObserveWorkView>,
    pub nodes: Seq<NodeView>,
    pub fragments: Seq<FragmentView>,
    pub visited_nodes: Seq<NodeId>,
    pub visited_fragments: Seq<FragmentId>,
    pub identities: IdentityIndexView,
    pub property_slots: int,
    pub memberships: int,
}

/// Reads a node's property values in the component's declaration order: each
/// slot counts against the property ceiling and must hold a value of its type.
pub open spec fn observed_properties(
    properties: Seq<PropertySlotV1>,
    snapshot: SnapshotModelV1,
    node: NodeId,
    slots: int,
    limit: int,
) -> Result<(Seq<(PropertyId, PropertyValue)>, int), HarnessErrorKind>
    decreases properties.len(),
{
    if properties.len() == 0 {
        Ok((Seq::empty(), slots))
    } else {
        match observed_properties(properties.drop_last(), snapshot, node, slots, limit) {
            Err(kind) => Err(kind),
            Ok((values, slots)) => {
                let property = properties.last();
                if slots + 1 > usize::MAX {
                    Err(HarnessErrorKind::ArithmeticExhausted)
                } else if slots + 1 > limit {
                    Err(HarnessErrorKind::LimitExceeded(HarnessLimitKind::NormalizedProperties))
                } else {
                    match view_property(snapshot, node, property.id) {
                        None => Err(HarnessErrorKind::StateMismatch),
                        Some(value) => if value_type_of(value) != property.value_type {
                            Err(HarnessErrorKind::StateMismatch)
                        } else {
                            Ok((values.push((property.id, value)), slots + 1))
                        },
                    }
                }
            },
        }
    }
}

/// Reads a region instance's keyed members: each counts against the
/// membership ceiling, has a key unique in the instance, is the owner's next
/// flat child and names the owner as its parent.
pub open spec fn observed_members(
    members: Seq<(u64, NodeId)>,
    snapshot: SnapshotModelV1,
    limits: HarnessLimitsV1,
    owner_path: Seq<PathSegmentV1>,
    slot: u16,
    owner: NodeId,
    offset: int,
    memberships: int,
) -> Result<(Seq<(u64, NodeId, Seq<PathSegmentV1>)>, int, int), HarnessErrorKind>
    decreases members.len(),
{
    if members.len() == 0 {
        Ok((Seq::empty(), offset, memberships))
    } else {
        match observed_members(
            members.drop_last(),
            snapshot,
            limits,
            owner_path,
            slot,
            owner,
            offset,
            memberships,
        ) {
            Err(kind) => Err(kind),
            Ok((observed, offset, memberships)) => {
                let (key, member) = members.last();
                let path = owner_path.push(PathSegmentV1::Member { region_slot: slot, key });
                if memberships + 1 > usize::MAX {
                    Err(HarnessErrorKind::ArithmeticExhausted)
                } else if memberships + 1 > limits.live_memberships {
                    Err(HarnessErrorKind::LimitExceeded(HarnessLimitKind::LiveMemberships))
                } else if exists|i: int| 0 <= i < observed.len() && #[trigger] observed[i].0 == key {
                    Err(HarnessErrorKind::StateMismatch)
                } else if view_child_at(snapshot, owner, offset) != Some(member) || view_parent(
                    snapshot,
                    member,
                ) != Some(owner) {
                    Err(HarnessErrorKind::StateMismatch)
                } else if offset + 1 > usize::MAX {
                    Err(HarnessErrorKind::ArithmeticExhausted)
                } else if path.len() > limits.path_depth {
                    Err(HarnessErrorKind::LimitExceeded(HarnessLimitKind::PathDepth))
                } else {
                    Ok((observed.push((key, member, path)), offset + 1, memberships + 1))
                }
            },
        }
    }
}

/// Reads a node's child slots in order against its flat children: a static
/// slot is the next child, which must name the node as its parent; a region
/// slot is the node's instance for the descriptor with all its members.
pub open spec fn observed_children(
    children: Seq<ChildFactoryV1>,
    construction: ConstructionModelV1,
    snapshot: SnapshotModelV1,
    limits: HarnessLimitsV1,
    path: Seq<PathSegmentV1>,
    node: NodeId,
    memberships: int,
) -> Result<(Seq<ChildGroupView>, Seq<ObserveWorkView>, int, int), HarnessErrorKind>
    decreases children.len(),
{
    if children.len() == 0 {
        Ok((Seq::empty(), Seq::empty(), 0, memberships))
    } else {
        match observed_children(
            children.drop_last(),
            construction,
            snapshot,
            limits,
            path,
            node,
            memberships,
        ) {
            Err(kind) => Err(kind),
            Ok((groups, work, offset, memberships)) => {
                let slot = children.len() - 1;
                if slot > u16::MAX {
                    Err(HarnessErrorKind::ArithmeticExhausted)
                } else {
                    match children.last() {
                        ChildFactoryV1::Static { template } => match view_child_at(
                            snapshot,
                            node,
                            offset,
                        ) {
                            None => Err(HarnessErrorKind::StateMismatch),
                            Some(child) => {
                                let child_path = path.push(
                                    PathSegmentV1::Static { authored_slot: slot as u16 },
                                );
                                if offset + 1 > usize::MAX {
                                    Err(HarnessErrorKind::ArithmeticExhausted)
                                } else if view_parent(snapshot, child) != Some(node) {
                                    Err(HarnessErrorKind::StateMismatch)
                                } else if child_path.len() > limits.path_depth {
                                    Err(
                                        HarnessErrorKind::LimitExceeded(HarnessLimitKind::PathDepth),
                                    )
                                } else {
                                    Ok(
                                        (
                                            groups.push(ChildGroupView::Static(child_path)),
                                            work.push(
                                                ObserveWorkView::Node {
                                                    path: child_path,
                                                    parent_path: Some(path),
                                                    node: child,
                                                    parent: Some(node),
                                                    template,
                                                },
                                            ),
                                            offset + 1,
                                            memberships,
                                        ),
                                    )
                                }
                            },
                        },
                        ChildFactoryV1::Region { region } => match first_index(
                            region_ids(construction.regions@),
                            region,
                        ) {
                            None => Err(HarnessErrorKind::StateMismatch),
                            Some(index) => match view_fragment(snapshot, node, region) {
                                None => Err(HarnessErrorKind::StateMismatch),
                                Some(fragment) => match view_members(snapshot, fragment) {
                                    None => Err(HarnessErrorKind::StateMismatch),
                                    Some(members) => match observed_members(
                                        members,
                                        snapshot,
                                        limits,
                                        path,
                                        slot as u16,
                                        node,
                                        offset,
                                        memberships,
                                    ) {
                                        Err(kind) => Err(kind),
                                        Ok((observed, offset, memberships)) => Ok(
                                            (
                                                groups.push(
                                                    ChildGroupView::Region((path, slot as u16)),
                                                ),
                                                work.push(
                                                    ObserveWorkView::Fragment {
                                                        path: (path, slot as u16),
                                                        fragment,
                                                        owner: node,
                                                        descriptor: region,
                                                        repeat_body: construction.regions@[index].repeat_body,
                                                        members: observed,
                                                    },
                                                ),
                                                offset,
                                                memberships,
                                            ),
                                        ),
                                    },
                                },
                            },
                        },
                    }
                }
            },
        }
    }
}

/// Observes one node. `rest` is the state with the node's work removed.
pub open spec fn observe_node_step(
    construction: ConstructionModelV1,
    snapshot: SnapshotModelV1,
    limits: HarnessLimitsV1,
    rest: ObserveState,
    path: Seq<PathSegmentV1>,
    parent_path: Option<Seq<PathSegmentV1>>,
    node: NodeId,
    parent: Option<NodeId>,
    template: TemplateNodeId,
) -> Result<ObserveState, HarnessErrorKind> {
    if path.len() > limits.path_depth {
        Err(HarnessErrorKind::LimitExceeded(HarnessLimitKind::PathDepth))
    } else if rest.visited_nodes.contains(node) || lookup(rest.identities.nodes, path) is Some {
        Err(HarnessErrorKind::StateMismatch)
    } else if rest.nodes.len() + 1 > usize::MAX {
        Err(HarnessErrorKind::ArithmeticExhausted)
    } else if rest.nodes.len() + 1 > limits.normalized_nodes {
        Err(HarnessErrorKind::LimitExceeded(HarnessLimitKind::NormalizedNodes))
    } else if view_parent(snapshot, node) != parent || view_template(snapshot, node) != Some(
        template,
    ) {
        Err(HarnessErrorKind::StateMismatch)
    } else {
        match first_index(template_ids(construction.templates@), template) {
            None => Err(HarnessErrorKind::StateMismatch),
            Some(index) => {
                let factory = construction.templates@[index];
                if view_component(snapshot, node) != Some(factory.component) {
                    Err(HarnessErrorKind::StateMismatch)
                } else {
                    match observed_properties(
                        factory.properties@,
                        snapshot,
                        node,
                        rest.property_slots,
                        limits.normalized_properties as int,
                    ) {
                        Err(kind) => Err(kind),
                        Ok((values, slots)) => match view_children(snapshot, node) {
                            None => Err(HarnessErrorKind::StateMismatch),
                            Some(flat) => match observed_children(
                                factory.children@,
                                construction,
                                snapshot,
                                limits,
                                path,
                                node,
                                rest.memberships,
                            ) {
                                Err(kind) => Err(kind),
                                Ok((groups, added, offset, memberships)) => if offset
                                    != flat.len() {
                                    Err(HarnessErrorKind::StateMismatch)
                                } else {
                                    Ok(
                                        ObserveState {
                                            work: rest.work + added.reverse(),
                                            nodes: rest.nodes.push(
                                                NodeView {
                                                    path,
                                                    parent: parent_path,
                                                    template,
                                                    component: factory.component,
                                                    properties: values,
                                                    child_groups: groups,
                                                },
                                            ),
                                            fragments: rest.fragments,
                                            visited_nodes: rest.visited_nodes.push(node),
                                            visited_fragments: rest.visited_fragments,
                                            identities: IdentityIndexView {
                                                nodes: rest.identities.nodes.push((path, node)),
                                                fragments: rest.identities.fragments,
                                            },
                                            property_slots: slots,
                                            memberships,
                                        },
                                    )
                                },
                            },
                        },
                    }
                }
            },
        }
    }
}

/// The work a region instance's members add, in key order.
pub open spec fn member_work(
    members: Seq<(u64, NodeId, Seq<PathSegmentV1>)>,
    owner_path: Seq<PathSegmentV1>,
    owner: NodeId,
    repeat_body: TemplateNodeId,
) -> Seq<ObserveWorkView> {
    members.map_values(
        |member: (u64, NodeId, Seq<PathSegmentV1>)|
            ObserveWorkView::Node {
                path: member.2,
                parent_path: Some(owner_path),
                node: member.1,
                parent: Some(owner),
                template: repeat_body,
            },
    )
}

/// Records one region instance. `rest` is the state with its work removed.
pub open spec fn observe_fragment_step(
    limits: HarnessLimitsV1,
    rest: ObserveState,
    path: (Seq<PathSegmentV1>, u16),
    fragment: FragmentId,
    owner: NodeId,
    descriptor: StructuralRegionId,
    repeat_body: TemplateNodeId,
    members: Seq<(u64, NodeId, Seq<PathSegmentV1>)>,
) -> Result<ObserveState, HarnessErrorKind> {
    if path.0.len() > limits.path_depth {
        Err(HarnessErrorKind::LimitExceeded(HarnessLimitKind::PathDepth))
    } else if rest.visited_fragments.contains(fragment) || lookup(rest.identities.fragments, path)
        is Some {
        Err(HarnessErrorKind::StateMismatch)
    } else if rest.fragments.len() + 1 > usize::MAX {
        Err(HarnessErrorKind::ArithmeticExhausted)
    } else if rest.fragments.len() + 1 > limits.normalized_fragments {
        Err(HarnessErrorKind::LimitExceeded(HarnessLimitKind::NormalizedFragments))
    } else {
        Ok(
            ObserveState {
                work: rest.work + member_work(members, path.0, owner, repeat_body).reverse(),
                nodes: rest.nodes,
                fragments: rest.fragments.push(
                    FragmentView {
                        path,
                        descriptor,
                        members: members.map_values(
                            |member: (u64, NodeId, Seq<PathSegmentV1>)| (member.0, member.2),
                        ),
                    },
                ),
                visited_nodes: rest.visited_nodes,
                visited_fragments: rest.visited_fragments.push(fragment),
                identities: IdentityIndexView {
                    nodes: rest.identities.nodes,
                    fragments: rest.identities.fragments.push((path, fragment)),
                },
                property_slots: rest.property_slots,
                memberships: rest.memberships,
            },
        )
    }
}

/// The state with its last unit of work removed.
pub open spec fn without_last_observation(state: ObserveState) -> ObserveState {
    ObserveState { work: state.work.drop_last(), ..state }
}

/// Pops and performs the last unit of pending observation.
pub open spec fn observe_step(
    construction: ConstructionModelV1,
    snapshot: SnapshotModelV1,
    limits: HarnessLimitsV1,
    state: ObserveState,
) -> Result<ObserveState, HarnessErrorKind> {
    match state.work.last() {
        ObserveWorkView::Node { path, parent_path, node, parent, template } => observe_node_step(
            construction,
            snapshot,
            limits,
            without_last_observation(state),
            path,
            parent_path,
            node,
            parent,
            template,
        ),
        ObserveWorkView::Fragment {
            path,
            fragment,
            owner,
            descriptor,
            repeat_body,
            members,
        } => observe_fragment_step(
            limits,
            without_last_observation(state),
            path,
            fragment,
            owner,
            descriptor,
            repeat_body,
            members,
        ),
    }
}

/// Runs steps until no work is left or one fails, for at most `fuel` steps.
pub open spec fn observe_run(
    construction: ConstructionModelV1,
    snapshot: SnapshotModelV1,
    limits: HarnessLimitsV1,
    state: ObserveState,
    fuel: nat,
) -> Result<ObserveState, HarnessErrorKind>
    decreases fuel,
{
    if state.work.len() == 0 {
        Ok(state)
    } else if fuel == 0 {
        Err(HarnessErrorKind::ArithmeticExhausted)
    } else {
        match observe_step(construction, snapshot, limits, state) {
            Err(kind) => Err(kind),
            Ok(next) => observe_run(construction, snapshot, limits, next, (fuel - 1) as nat),
        }
    }
}

/// The state before the first step: the snapshot's root is the only work.
pub open spec fn observe_start(construction: ConstructionModelV1, snapshot: SnapshotModelV1) -> ObserveState {
    ObserveState {
        work: seq![
            ObserveWorkView::Node {
                path: Seq::empty(),
                parent_path: None,
                node: snapshot.root,
                parent: None,
                template: construction.root,
            },
        ],
        nodes: Seq::empty(),
        fragments: Seq::empty(),
        visited_nodes: Seq::empty(),
        visited_fragments: Seq::empty(),
        identities: IdentityIndexView { nodes: Seq::empty(), fragments: Seq::empty() },
        property_slots: 0,
        memberships: 0,
    }
}

/// Steps enough for any observation: each successful step adds one node or
/// one fragment, both bounded by their ceilings.
pub open spec fn observe_fuel(limits: HarnessLimitsV1) -> nat {
    (limits.normalized_nodes + limits.normalized_fragments + 1) as nat
}

/// What observing a snapshot yields: the normalized state and the handle of
/// each node and region instance, or the first failure. A walk that reaches
/// fewer nodes, fragments or property slots than the snapshot reports is a
/// mismatch.
pub open spec fn observe_snapshot(
    construction: ConstructionModelV1,
    snapshot: SnapshotModelV1,
    limits: HarnessLimitsV1,
) -> Result<(StateView, IdentityIndexView), HarnessErrorKind> {
    match observe_run(
        construction,
        snapshot,
        limits,
        observe_start(construction, snapshot),
        observe_fuel(limits),
    ) {
        Err(kind) => Err(kind),
        Ok(end) => if end.nodes.len() != snapshot.node_count || end.fragments.len()
            != snapshot.fragment_count || end.property_slots != snapshot.property_slot_count {
            Err(HarnessErrorKind::StateMismatch)
        } else {
            Ok((StateView { nodes: end.nodes, fragments: end.fragments }, end.identities))
        },
    }
}

/// One keyed member read from a snapshot.
#[derive(Debug)]
pub struct ObservedMemberV1 {
    pub key: u64,
    pub node: NodeId,
    pub path: NodePathV1,
}

/// The views of observed members.
pub open spec fn observed_members_view(members: Seq<ObservedMemberV1>) -> Seq<
    (u64, NodeId, Seq<PathSegmentV1>),
> {
    members.map_values(|member: ObservedMemberV1| (member.key, member.node, member.path@))
}

/// One pending unit of observation.
#[derive(Debug)]
pub enum ObserveWorkV1 {
    /// A node to check and normalize.
    Node {
        path: NodePathV1,
        parent_path: Option<NodePathV1>,
        node: NodeId,
        parent: Option<NodeId>,
        template: TemplateNodeId,
    },
    /// A region instance whose members were read and checked.
    Fragment {
        path: FragmentPathV1,
        fragment: FragmentId,
        owner: NodeId,
        descriptor: StructuralRegionId,
        repeat_body: TemplateNodeId,
        members: Vec<ObservedMemberV1>,
    },
}

impl View for ObserveWorkV1 {
    type V = ObserveWorkView;

    open spec fn view(&self) -> ObserveWorkView {
        match self {
            ObserveWorkV1::Node { path, parent_path, node, parent, template } => ObserveWorkView::Node {
                path: path@,
                parent_path: optional_path(*parent_path),
                node: *node,
                parent: *parent,
                template: *template,
            },
            ObserveWorkV1::Fragment { path, fragment, owner, descriptor, repeat_body, members } =>
                ObserveWorkView::Fragment {
                path: path@,
                fragment: *fragment,
                owner: *owner,
                descriptor: *descriptor,
                repeat_body: *repeat_body,
                members: observed_members_view(members@),
            },
        }
    }
}

/// The views of pending observation work.
pub open spec fn observe_work_view(work: Seq<ObserveWorkV1>) -> Seq<ObserveWorkView> {
    work.map_values(|item: ObserveWorkV1| item@)
}

/// An observed snapshot: its normalized state and the handle of each node and
/// region instance by semantic path.
#[derive(Debug)]
pub struct ObservedSnapshotV1 {
    pub normalized: NormalizedStateV1,
    pub identities: IdentityIndexV1,
}

impl View for ObservedSnapshotV1 {
    type V = (StateView, IdentityIndexView);

    open spec fn view(&self) -> (StateView, IdentityIndexView) {
        (self.normalized@, self.identities@)
    }
}

impl ObservedSnapshotV1 {
    /// Returns the normalized state.
    pub fn normalized(&self) -> (normalized: &NormalizedStateV1)
        ensures
            normalized@ == self@.0,
    {
        &self.normalized
    }

    /// Returns the handles by semantic path.
    pub fn identities(&self) -> (identities: &IdentityIndexV1)
        ensures
            identities@ == self@.1,
    {
        &self.identities
    }
}

proof fn lemma_observed_properties_failure_persists(
    properties: Seq<PropertySlotV1>,
    snapshot: SnapshotModelV1,
    node: NodeId,
    slots: int,
    limit: int,
    count: int,
)
    requires
        0 <= count <= properties.len(),
        observed_properties(properties.take(count), snapshot, node, slots, limit) is Err,
    ensures
        observed_properties(properties, snapshot, node, slots, limit) == observed_properties(
            properties.take(count),
            snapshot,
            node,
            slots,
            limit,
        ),
    decreases properties.len(),
{
    if count < properties.len() {
        assert(properties.drop_last().take(count) =~= properties.take(count));
        lemma_observed_properties_failure_persists(
            properties.drop_last(),
            snapshot,
            node,
            slots,
            limit,
            count,
        );
    } else {
        assert(properties.take(count) =~= properties);
    }
}

proof fn lemma_observed_members_failure_persists(
    members: Seq<(u64, NodeId)>,
    snapshot: SnapshotModelV1,
    limits: HarnessLimitsV1,
    owner_path: Seq<PathSegmentV1>,
    slot: u16,
    owner: NodeId,
    offset: int,
    memberships: int,
    count: int,
)
    requires
        0 <= count <= members.len(),
        observed_members(
            members.take(count),
            snapshot,
            limits,
            owner_path,
            slot,
            owner,
            offset,
            memberships,
        ) is Err,
    ensures
        observed_members(members, snapshot, limits, owner_path, slot, owner, offset, memberships)
            == observed_members(
            members.take(count),
            snapshot,
            limits,
            owner_path,
            slot,
            owner,
            offset,
            memberships,
        ),
    decreases members.len(),
{
    if count < members.len() {
        assert(members.drop_last().take(count) =~= members.take(count));
        lemma_observed_members_failure_persists(
            members.drop_last(),
            snapshot,
            limits,
            owner_path,
            slot,
            owner,
            offset,
            memberships,
            count,
        );
    } else {
        assert(members.take(count) =~= members);
    }
}

proof fn lemma_observed_children_failure_persists(
    children: Seq<ChildFactoryV1>,
    construction: ConstructionModelV1,
    snapshot: SnapshotModelV1,
    limits: HarnessLimitsV1,
    path: Seq<PathSegmentV1>,
    node: NodeId,
    memberships: int,
    count: int,
)
    requires
        0 <= count <= children.len(),
        observed_children(
            children.take(count),
            construction,
            snapshot,
            limits,
            path,
            node,
            memberships,
        ) is Err,
    ensures
        observed_children(children, construction, snapshot, limits, path, node, memberships)
            == observed_children(
            children.take(count),
            construction,
            snapshot,
            limits,
            path,
            node,
            memberships,
        ),
    decreases children.len(),
{
    if count < children.len() {
        assert(children.drop_last().take(count) =~= children.take(count));
        lemma_observed_children_failure_persists(
            children.drop_last(),
            construction,
            snapshot,
            limits,
            path,
            node,
            memberships,
            count,
        );
    } else {
        assert(children.take(count) =~= children);
    }
}

/// Reads a node's property values in declaration order.
fn scan_observed_properties(
    properties: &Vec<PropertySlotV1>,
    snapshot: &SnapshotModelV1,
    node: NodeId,
    slots: usize,
    limit: usize,
) -> (result: Result<(Vec<(PropertyId, PropertyValue)>, usize), HarnessError>)
    ensures
        match result {
            Ok((values, next)) => observed_properties(
                properties@,
                *snapshot,
                node,
                slots as int,
                limit as int,
            ) == Ok::<_, HarnessErrorKind>((values@, next as int)),
            Err(error) => {
                &&& observed_properties(properties@, *snapshot, node, slots as int, limit as int)
                    == Err::<(Seq<(PropertyId, PropertyValue)>, int), _>(error.spec_kind())
                &&& error.is_unlocated(error.spec_kind())
            },
        },
{
    let mut values: Vec<(PropertyId, PropertyValue)> = Vec::new();
    let mut slots_now: usize = slots;
    let mut index: usize = 0;
    assert(properties@.take(0) =~= Seq::<PropertySlotV1>::empty());
    while index < properties.len()
        invariant
            index <= properties.len(),
            observed_properties(
                properties@.take(index as int),
                *snapshot,
                node,
                slots as int,
                limit as int,
            ) == Ok::<_, HarnessErrorKind>((values@, slots_now as int)),
        decreases properties.len() - index,
    {
        let ghost prefix = properties@.take(index as int + 1);
        assert(prefix.drop_last() =~= properties@.take(index as int));
        let property = properties[index];
        let next = match checked_increment(
            slots_now,
            limit,
            HarnessLimitKind::NormalizedProperties,
        ) {
            Ok(next) => next,
            Err(error) => {
                proof {
                    lemma_observed_properties_failure_persists(
                        properties@,
                        *snapshot,
                        node,
                        slots as int,
                        limit as int,
                        index as int + 1,
                    );
                }
                return Err(error);
            },
        };
        let value = match snapshot.property(node, property.id) {
            Some(value) => value,
            None => {
                proof {
                    lemma_observed_properties_failure_persists(
                        properties@,
                        *snapshot,
                        node,
                        slots as int,
                        limit as int,
                        index as int + 1,
                    );
                }
                return Err(HarnessError::new(HarnessErrorKind::StateMismatch));
            },
        };
        if value.value_type() != property.value_type {
            proof {
                lemma_observed_properties_failure_persists(
                    properties@,
                    *snapshot,
                    node,
                    slots as int,
                    limit as int,
                    index as int + 1,
                );
            }
            return Err(HarnessError::new(HarnessErrorKind::StateMismatch));
        }
        values.push((property.id, value));
        slots_now = next;
        index = index + 1;
    }
    assert(properties@.take(index as int) =~= properties@);
    Ok((values, slots_now))
}

/// Whether a key was already read in this region instance.
fn key_observed(observed: &Vec<ObservedMemberV1>, key: u64) -> (seen: bool)
    ensures
        seen == exists|i: int|
            0 <= i < observed_members_view(observed@).len()
                && #[trigger] observed_members_view(observed@)[i].0 == key,
{
    let ghost view = observed_members_view(observed@);
    let mut index: usize = 0;
    while index < observed.len()
        invariant
            index <= observed.len(),
            view == observed_members_view(observed@),
            forall|j: int| 0 <= j < index ==> #[trigger] view[j].0 != key,
        decreases observed.len() - index,
    {
        if observed[index].key == key {
            assert(view[index as int].0 == key);
            return true;
        }
        index = index + 1;
    }
    false
}

/// Reads and checks the keyed members of one region instance.
fn scan_observed_members(
    snapshot: &SnapshotModelV1,
    fragment: FragmentId,
    limits: HarnessLimitsV1,
    owner_path: &NodePathV1,
    slot: u16,
    owner: NodeId,
    offset: usize,
    memberships: usize,
    count: usize,
) -> (result: Result<(Vec<ObservedMemberV1>, usize, usize), HarnessError>)
    requires
        view_members(*snapshot, fragment) is Some,
        count == view_members(*snapshot, fragment)->Some_0.len(),
    ensures
        match result {
            Ok((observed, next_offset, next_memberships)) => observed_members(
                view_members(*snapshot, fragment)->Some_0,
                *snapshot,
                limits,
                owner_path@,
                slot,
                owner,
                offset as int,
                memberships as int,
            ) == Ok::<_, HarnessErrorKind>(
                (observed_members_view(observed@), next_offset as int, next_memberships as int),
            ),
            Err(error) => {
                &&& observed_members(
                    view_members(*snapshot, fragment)->Some_0,
                    *snapshot,
                    limits,
                    owner_path@,
                    slot,
                    owner,
                    offset as int,
                    memberships as int,
                ) == Err::<(Seq<(u64, NodeId, Seq<PathSegmentV1>)>, int, int), _>(
                    error.spec_kind(),
                )
                &&& error.is_unlocated(error.spec_kind())
            },
        },
{
    let ghost members = view_members(*snapshot, fragment)->Some_0;
    let mut observed: Vec<ObservedMemberV1> = Vec::new();
    let mut offset_now: usize = offset;
    let mut memberships_now: usize = memberships;
    let mut index: usize = 0;
    assert(members.take(0) =~= Seq::<(u64, NodeId)>::empty());
    assert(observed_members_view(observed@) =~= Seq::<(u64, NodeId, Seq<PathSegmentV1>)>::empty());
    while index < count
        invariant
            index <= count,
            count == members.len(),
            members == view_members(*snapshot, fragment)->Some_0,
            view_members(*snapshot, fragment) is Some,
            observed_members(
                members.take(index as int),
                *snapshot,
                limits,
                owner_path@,
                slot,
                owner,
                offset as int,
                memberships as int,
            ) == Ok::<_, HarnessErrorKind>(
                (observed_members_view(observed@), offset_now as int, memberships_now as int),
            ),
        decreases count - index,
    {
        let ghost prefix = members.take(index as int + 1);
        assert(prefix.drop_last() =~= members.take(index as int));
        let (key, member) = match snapshot.keyed_at(fragment, index) {
            Some(entry) => entry,
            None => return Err(HarnessError::new(HarnessErrorKind::StateMismatch)),
        };
        let next_memberships = match checked_increment(
            memberships_now,
            limits.live_memberships,
            HarnessLimitKind::LiveMemberships,
        ) {
            Ok(next) => next,
            Err(error) => {
                proof {
                    lemma_observed_members_failure_persists(
                        members,
                        *snapshot,
                        limits,
                        owner_path@,
                        slot,
                        owner,
                        offset as int,
                        memberships as int,
                        index as int + 1,
                    );
                }
                return Err(error);
            },
        };
        if key_observed(&observed, key) || snapshot.child_at(owner, offset_now) != Some(member)
            || snapshot.parent(member) != Some(owner) {
            proof {
                lemma_observed_members_failure_persists(
                    members,
                    *snapshot,
                    limits,
                    owner_path@,
                    slot,
                    owner,
                    offset as int,
                    memberships as int,
                    index as int + 1,
                );
            }
            return Err(HarnessError::new(HarnessErrorKind::StateMismatch));
        }
        if offset_now == usize::MAX {
            proof {
                lemma_observed_members_failure_persists(
                    members,
                    *snapshot,
                    limits,
                    owner_path@,
                    slot,
                    owner,
                    offset as int,
                    memberships as int,
                    index as int + 1,
                );
            }
            return Err(HarnessError::new(HarnessErrorKind::ArithmeticExhausted));
        }
        let path = owner_path.clone().member(slot, key);
        if let Err(error) = ensure_path_depth(&path, limits) {
            proof {
                lemma_observed_members_failure_persists(
                    members,
                    *snapshot,
                    limits,
                    owner_path@,
                    slot,
                    owner,
                    offset as int,
                    memberships as int,
                    index as int + 1,
                );
            }
            return Err(error);
        }
        let entry = ObservedMemberV1 { key, node: member, path };
        proof {
            assert(observed_members_view(observed@.push(entry)) =~= observed_members_view(
                observed@,
            ).push((key, member, entry.path@)));
        }
        observed.push(entry);
        offset_now = offset_now + 1;
        memberships_now = next_memberships;
        index = index + 1;
    }
    assert(members.take(index as int) =~= members);
    Ok((observed, offset_now, memberships_now))
}

/// Reads and checks a node's child slots against its flat children.
fn scan_observed_children(
    children: &Vec<ChildFactoryV1>,
    construction: &ConstructionModelV1,
    snapshot: &SnapshotModelV1,
    limits: HarnessLimitsV1,
    path: &NodePathV1,
    node: NodeId,
    memberships: usize,
) -> (result: Result<(Vec<NormalizedChildGroupV1>, Vec<ObserveWorkV1>, usize, usize), HarnessError>)
    ensures
        match result {
            Ok((groups, added, offset, next_memberships)) => observed_children(
                children@,
                *construction,
                *snapshot,
                limits,
                path@,
                node,
                memberships as int,
            ) == Ok::<_, HarnessErrorKind>(
                (
                    groups_view(groups@),
                    observe_work_view(added@),
                    offset as int,
                    next_memberships as int,
                ),
            ),
            Err(error) => {
                &&& observed_children(
                    children@,
                    *construction,
                    *snapshot,
                    limits,
                    path@,
                    node,
                    memberships as int,
                ) == Err::<(Seq<ChildGroupView>, Seq<ObserveWorkView>, int, int), _>(
                    error.spec_kind(),
                )
                &&& error.is_unlocated(error.spec_kind())
            },
        },
{
    let mut groups: Vec<NormalizedChildGroupV1> = Vec::new();
    let mut added: Vec<ObserveWorkV1> = Vec::new();
    let mut offset: usize = 0;
    let mut memberships_now: usize = memberships;
    let mut index: usize = 0;
    assert(children@.take(0) =~= Seq::<ChildFactoryV1>::empty());
    assert(groups_view(groups@) =~= Seq::<ChildGroupView>::empty());
    assert(observe_work_view(added@) =~= Seq::<ObserveWorkView>::empty());
    while index < children.len()
        invariant
            index <= children.len(),
            observed_children(
                children@.take(index as int),
                *construction,
                *snapshot,
                limits,
                path@,
                node,
                memberships as int,
            ) == Ok::<_, HarnessErrorKind>(
                (
                    groups_view(groups@),
                    observe_work_view(added@),
                    offset as int,
                    memberships_now as int,
                ),
            ),
        decreases children.len() - index,
    {
        let ghost prefix = children@.take(index as int + 1);
        assert(prefix.drop_last() =~= children@.take(index as int));
        if index > 65535 {
            proof {
                lemma_observed_children_failure_persists(
                    children@,
                    *construction,
                    *snapshot,
                    limits,
                    path@,
                    node,
                    memberships as int,
                    index as int + 1,
                );
            }
            return Err(HarnessError::new(HarnessErrorKind::ArithmeticExhausted));
        }
        let slot = index as u16;
        match children[index] {
            ChildFactoryV1::Static { template } => {
                let failure = match snapshot.child_at(node, offset) {
                    None => Some(HarnessError::new(HarnessErrorKind::StateMismatch)),
                    Some(child) => if offset == usize::MAX {
                        Some(HarnessError::new(HarnessErrorKind::ArithmeticExhausted))
                    } else if snapshot.parent(child) != Some(node) {
                        Some(HarnessError::new(HarnessErrorKind::StateMismatch))
                    } else {
                        let child_path = path.clone().static_child(slot);
                        if child_path.depth() > limits.path_depth {
                            Some(HarnessError::limit(HarnessLimitKind::PathDepth))
                        } else {
                            let group = NormalizedChildGroupV1::Static(child_path.clone());
                            let item = ObserveWorkV1::Node {
                                path: child_path,
                                parent_path: Some(path.clone()),
                                node: child,
                                parent: Some(node),
                                template,
                            };
                            proof {
                                assert(groups_view(groups@.push(group)) =~= groups_view(
                                    groups@,
                                ).push(group@));
                                assert(observe_work_view(added@.push(item)) =~= observe_work_view(
                                    added@,
                                ).push(item@));
                            }
                            groups.push(group);
                            added.push(item);
                            offset = offset + 1;
                            None
                        }
                    },
                };
                if let Some(error) = failure {
                    proof {
                        lemma_observed_children_failure_persists(
                            children@,
                            *construction,
                            *snapshot,
                            limits,
                            path@,
                            node,
                            memberships as int,
                            index as int + 1,
                        );
                    }
                    return Err(error);
                }
            },
            ChildFactoryV1::Region { region } => {
                let found = match find_region(&construction.regions, region) {
                    Some(found) => found,
                    None => {
                        proof {
                            lemma_observed_children_failure_persists(
                                children@,
                                *construction,
                                *snapshot,
                                limits,
                                path@,
                                node,
                                memberships as int,
                                index as int + 1,
                            );
                        }
                        return Err(HarnessError::new(HarnessErrorKind::StateMismatch));
                    },
                };
                let fragment = match snapshot.fragment(node, region) {
                    Some(fragment) => fragment,
                    None => {
                        proof {
                            lemma_observed_children_failure_persists(
                                children@,
                                *construction,
                                *snapshot,
                                limits,
                                path@,
                                node,
                                memberships as int,
                                index as int + 1,
                            );
                        }
                        return Err(HarnessError::new(HarnessErrorKind::StateMismatch));
                    },
                };
                let count = match snapshot.keyed_count(fragment) {
                    Some(count) => count,
                    None => {
                        proof {
                            lemma_observed_children_failure_persists(
                                children@,
                                *construction,
                                *snapshot,
                                limits,
                                path@,
                                node,
                                memberships as int,
                                index as int + 1,
                            );
                        }
                        return Err(HarnessError::new(HarnessErrorKind::StateMismatch));
                    },
                };
                let (observed, next_offset, next_memberships) = match scan_observed_members(
                    snapshot,
                    fragment,
                    limits,
                    path,
                    slot,
                    node,
                    offset,
                    memberships_now,
                    count,
                ) {
                    Ok(scanned) => scanned,
                    Err(error) => {
                        proof {
                            lemma_observed_children_failure_persists(
                                children@,
                                *construction,
                                *snapshot,
                                limits,
                                path@,
                                node,
                                memberships as int,
                                index as int + 1,
                            );
                        }
                        return Err(error);
                    },
                };
                let group = NormalizedChildGroupV1::Region(FragmentPathV1::new(path.clone(), slot));
                let item = ObserveWorkV1::Fragment {
                    path: FragmentPathV1::new(path.clone(), slot),
                    fragment,
                    owner: node,
                    descriptor: region,
                    repeat_body: construction.regions[found].repeat_body,
                    members: observed,
                };
                proof {
                    assert(groups_view(groups@.push(group)) =~= groups_view(groups@).push(group@));
                    assert(observe_work_view(added@.push(item)) =~= observe_work_view(added@).push(
                        item@,
                    ));
                }
                groups.push(group);
                added.push(item);
                offset = next_offset;
                memberships_now = next_memberships;
            },
        }
        index = index + 1;
    }
    assert(children@.take(index as int) =~= children@);
    Ok((groups, added, offset, memberships_now))
}

/// Whether a node handle was already visited.
fn node_visited(visited: &Vec<NodeId>, node: NodeId) -> (seen: bool)
    ensures
        seen == visited@.contains(node),
{
    let mut index: usize = 0;
    while index < visited.len()
        invariant
            index <= visited.len(),
            forall|j: int| 0 <= j < index ==> visited@[j] != node,
        decreases visited.len() - index,
    {
        if visited[index] == node {
            assert(visited@[index as int] == node);
            return true;
        }
        index = index + 1;
    }
    false
}

/// Whether a fragment handle was already visited.
fn fragment_visited(visited: &Vec<FragmentId>, fragment: FragmentId) -> (seen: bool)
    ensures
        seen == visited@.contains(fragment),
{
    let mut index: usize = 0;
    while index < visited.len()
        invariant
            index <= visited.len(),
            forall|j: int| 0 <= j < index ==> visited@[j] != fragment,
        decreases visited.len() - index,
    {
        if visited[index] == fragment {
            assert(visited@[index as int] == fragment);
            return true;
        }
        index = index + 1;
    }
    false
}

/// Pushes added work so that the first added item is popped first.
fn push_observation_reversed(work: &mut Vec<ObserveWorkV1>, added: Vec<ObserveWorkV1>)
    ensures
        observe_work_view(final(work)@) == observe_work_view(old(work)@) + observe_work_view(
            added@,
        ).reverse(),
{
    let ghost base = observe_work_view(old(work)@);
    let ghost pushed = added@;
    let ghost total = pushed.len() as int;
    let mut added = added;
    assert(pushed.take(total) =~= pushed);
    assert(observe_work_view(pushed.subrange(total, total)).reverse()
        =~= Seq::<ObserveWorkView>::empty());
    assert(observe_work_view(work@) =~= base + observe_work_view(
        pushed.subrange(total, total),
    ).reverse());
    while added.len() > 0
        invariant
            total == pushed.len(),
            added.len() <= total,
            added@ == pushed.take(added.len() as int),
            observe_work_view(work@) == base + observe_work_view(
                pushed.subrange(added.len() as int, total),
            ).reverse(),
        decreases added.len(),
    {
        let ghost before = observe_work_view(work@);
        let ghost count = added.len() as int;
        assert(added@[count - 1] == pushed[count - 1]);
        let item = added.pop().unwrap();
        work.push(item);
        assert(observe_work_view(work@) =~= before.push(item@));
        assert(observe_work_view(pushed.subrange(count - 1, total)).reverse()
            =~= observe_work_view(pushed.subrange(count, total)).reverse().push(item@));
        assert(added@ =~= pushed.take(added.len() as int));
    }
    assert(pushed.subrange(0, total) =~= pushed);
}

/// The executable state of an observation in progress.
struct ObserveProgress {
    work: Vec<ObserveWorkV1>,
    nodes: Vec<NormalizedNodeV1>,
    fragments: Vec<NormalizedFragmentV1>,
    visited_nodes: Vec<NodeId>,
    visited_fragments: Vec<FragmentId>,
    identities: IdentityIndexV1,
    property_slots: usize,
    memberships: usize,
}

impl ObserveProgress {
    spec fn state(&self) -> ObserveState {
        ObserveState {
            work: observe_work_view(self.work@),
            nodes: nodes_view(self.nodes@),
            fragments: fragments_view(self.fragments@),
            visited_nodes: self.visited_nodes@,
            visited_fragments: self.visited_fragments@,
            identities: self.identities@,
            property_slots: self.property_slots as int,
            memberships: self.memberships as int,
        }
    }
}

/// Performs one node step on the progress, whose work no longer holds it.
fn observe_node(
    construction: &ConstructionModelV1,
    snapshot: &SnapshotModelV1,
    limits: HarnessLimitsV1,
    progress: &mut ObserveProgress,
    path: NodePathV1,
    parent_path: Option<NodePathV1>,
    node: NodeId,
    parent: Option<NodeId>,
    template: TemplateNodeId,
) -> (result: Result<(), HarnessError>)
    ensures
        match result {
            Ok(()) => observe_node_step(
                *construction,
                *snapshot,
                limits,
                old(progress).state(),
                path@,
                optional_path(parent_path),
                node,
                parent,
                template,
            ) == Ok::<_, HarnessErrorKind>(final(progress).state()),
            Err(error) => {
                &&& observe_node_step(
                    *construction,
                    *snapshot,
                    limits,
                    old(progress).state(),
                    path@,
                    optional_path(parent_path),
                    node,
                    parent,
                    template,
                ) == Err::<ObserveState, _>(error.spec_kind())
                &&& error.is_unlocated(error.spec_kind())
            },
        },
{
    if let Err(error) = ensure_path_depth(&path, limits) {
        return Err(error);
    }
    if node_visited(&progress.visited_nodes, node) {
        return Err(HarnessError::new(HarnessErrorKind::StateMismatch));
    }
    progress.visited_nodes.push(node);
    if !progress.identities.record_node(path.clone(), node) {
        return Err(HarnessError::new(HarnessErrorKind::StateMismatch));
    }
    if let Err(error) = ensure_next_count(
        progress.nodes.len(),
        limits.normalized_nodes,
        HarnessLimitKind::NormalizedNodes,
    ) {
        return Err(error);
    }
    if snapshot.parent(node) != parent || snapshot.template(node) != Some(template) {
        return Err(HarnessError::new(HarnessErrorKind::StateMismatch));
    }
    let index = match find_template(&construction.templates, template) {
        Some(index) => index,
        None => return Err(HarnessError::new(HarnessErrorKind::StateMismatch)),
    };
    let factory = &construction.templates[index];
    if snapshot.component(node) != Some(factory.component) {
        return Err(HarnessError::new(HarnessErrorKind::StateMismatch));
    }
    let (properties, slots) = match scan_observed_properties(
        &factory.properties,
        snapshot,
        node,
        progress.property_slots,
        limits.normalized_properties,
    ) {
        Ok(scanned) => scanned,
        Err(error) => return Err(error),
    };
    let child_count = match snapshot.child_count(node) {
        Some(count) => count,
        None => return Err(HarnessError::new(HarnessErrorKind::StateMismatch)),
    };
    let (groups, added, offset, memberships) = match scan_observed_children(
        &factory.children,
        construction,
        snapshot,
        limits,
        &path,
        node,
        progress.memberships,
    ) {
        Ok(scanned) => scanned,
        Err(error) => return Err(error),
    };
    if offset != child_count {
        return Err(HarnessError::new(HarnessErrorKind::StateMismatch));
    }
    let normalized = NormalizedNodeV1 {
        path,
        parent: parent_path,
        template,
        component: factory.component,
        properties,
        child_groups: groups,
    };
    proof {
        assert(nodes_view(progress.nodes@.push(normalized)) =~= nodes_view(progress.nodes@).push(
            normalized@,
        ));
    }
    push_observation_reversed(&mut progress.work, added);
    progress.nodes.push(normalized);
    progress.property_slots = slots;
    progress.memberships = memberships;
    Ok(())
}

/// Performs one fragment step on the progress, whose work no longer holds it.
fn observe_fragment(
    limits: HarnessLimitsV1,
    progress: &mut ObserveProgress,
    path: FragmentPathV1,
    fragment: FragmentId,
    owner: NodeId,
    descriptor: StructuralRegionId,
    repeat_body: TemplateNodeId,
    members: Vec<ObservedMemberV1>,
) -> (result: Result<(), HarnessError>)
    ensures
        match result {
            Ok(()) => observe_fragment_step(
                limits,
                old(progress).state(),
                path@,
                fragment,
                owner,
                descriptor,
                repeat_body,
                observed_members_view(members@),
            ) == Ok::<_, HarnessErrorKind>(final(progress).state()),
            Err(error) => {
                &&& observe_fragment_step(
                    limits,
                    old(progress).state(),
                    path@,
                    fragment,
                    owner,
                    descriptor,
                    repeat_body,
                    observed_members_view(members@),
                ) == Err::<ObserveState, _>(error.spec_kind())
                &&& error.is_unlocated(error.spec_kind())
            },
        },
{
    if let Err(error) = ensure_path_depth(path.owner(), limits) {
        return Err(error);
    }
    if fragment_visited(&progress.visited_fragments, fragment) {
        return Err(HarnessError::new(HarnessErrorKind::StateMismatch));
    }
    progress.visited_fragments.push(fragment);
    if !progress.identities.record_fragment(path.clone(), fragment) {
        return Err(HarnessError::new(HarnessErrorKind::StateMismatch));
    }
    if let Err(error) = ensure_next_count(
        progress.fragments.len(),
        limits.normalized_fragments,
        HarnessLimitKind::NormalizedFragments,
    ) {
        return Err(error);
    }
    let ghost view = observed_members_view(members@);
    let mut normalized: Vec<(u64, NodePathV1)> = Vec::new();
    let mut added: Vec<ObserveWorkV1> = Vec::new();
    let mut index: usize = 0;
    while index < members.len()
        invariant
            index <= members.len(),
            view == observed_members_view(members@),
            members_view(normalized@) == view.take(index as int).map_values(
                |member: (u64, NodeId, Seq<PathSegmentV1>)| (member.0, member.2),
            ),
            observe_work_view(added@) == member_work(
                view.take(index as int),
                path@.0,
                owner,
                repeat_body,
            ),
        decreases members.len() - index,
    {
        let entry = (members[index].key, members[index].path.clone());
        let item = ObserveWorkV1::Node {
            path: members[index].path.clone(),
            parent_path: Some(path.owner().clone()),
            node: members[index].node,
            parent: Some(owner),
            template: repeat_body,
        };
        proof {
            assert(view.take(index as int + 1) =~= view.take(index as int).push(view[index as int]));
            assert(members_view(normalized@.push(entry)) =~= members_view(normalized@).push(
                (entry.0, entry.1@),
            ));
            assert(observe_work_view(added@.push(item)) =~= observe_work_view(added@).push(item@));
            assert(view.take(index as int + 1).map_values(
                |member: (u64, NodeId, Seq<PathSegmentV1>)| (member.0, member.2),
            ) =~= view.take(index as int).map_values(
                |member: (u64, NodeId, Seq<PathSegmentV1>)| (member.0, member.2),
            ).push((entry.0, entry.1@)));
            assert(member_work(view.take(index as int + 1), path@.0, owner, repeat_body)
                =~= member_work(view.take(index as int), path@.0, owner, repeat_body).push(item@));
        }
        normalized.push(entry);
        added.push(item);
        index = index + 1;
    }
    assert(view.take(index as int) =~= view);
    let record = NormalizedFragmentV1 { path, descriptor, members: normalized };
    proof {
        assert(fragments_view(progress.fragments@.push(record)) =~= fragments_view(
            progress.fragments@,
        ).push(record@));
    }
    push_observation_reversed(&mut progress.work, added);
    progress.fragments.push(record);
    Ok(())
}

/// Each successful step adds one node within the node ceiling, or one
/// fragment within the fragment ceiling, and nothing else.
proof fn lemma_step_counts(
    construction: ConstructionModelV1,
    snapshot: SnapshotModelV1,
    limits: HarnessLimitsV1,
    state: ObserveState,
)
    requires
        state.work.len() > 0,
        observe_step(construction, snapshot, limits, state) is Ok,
    ensures
        ({
            let next = observe_step(construction, snapshot, limits, state)->Ok_0;
            ||| (next.nodes.len() == state.nodes.len() + 1 && next.nodes.len()
                <= limits.normalized_nodes && next.fragments.len() == state.fragments.len())
            ||| (next.fragments.len() == state.fragments.len() + 1 && next.fragments.len()
                <= limits.normalized_fragments && next.nodes.len() == state.nodes.len())
        }),
{
}

/// Observes a committed snapshot through its public queries: the normalized
/// state and the handle of each node and region instance by semantic path.
pub fn observe_snapshot_indexed_v1(
    construction: &ConstructionModelV1,
    snapshot: &SnapshotModelV1,
    limits: HarnessLimitsV1,
) -> (result: Result<ObservedSnapshotV1, HarnessError>)
    ensures
        match result {
            Ok(observed) => observe_snapshot(*construction, *snapshot, limits) == Ok::<
                _,
                HarnessErrorKind,
            >(observed@),
            Err(error) => {
                &&& observe_snapshot(*construction, *snapshot, limits) == Err::<
                    (StateView, IdentityIndexView),
                    _,
                >(error.spec_kind())
                &&& error.is_unlocated(error.spec_kind())
            },
        },
{
    let root = ObserveWorkV1::Node {
        path: NodePathV1::root(),
        parent_path: None,
        node: snapshot.root,
        parent: None,
        template: construction.root,
    };
    let mut progress = ObserveProgress {
        work: vec![root],
        nodes: Vec::new(),
        fragments: Vec::new(),
        visited_nodes: Vec::new(),
        visited_fragments: Vec::new(),
        identities: IdentityIndexV1::new(),
        property_slots: 0,
        memberships: 0,
    };
    let ghost start = observe_start(*construction, *snapshot);
    proof {
        assert(observe_work_view(progress.work@) =~= start.work);
        assert(nodes_view(progress.nodes@) =~= start.nodes);
        assert(fragments_view(progress.fragments@) =~= start.fragments);
        assert(progress.visited_nodes@ =~= start.visited_nodes);
        assert(progress.visited_fragments@ =~= start.visited_fragments);
        assert(progress.identities@.nodes =~= start.identities.nodes);
        assert(progress.identities@.fragments =~= start.identities.fragments);
    }
    let ghost mut fuel: nat = observe_fuel(limits);
    while progress.work.len() > 0
        invariant
            start == observe_start(*construction, *snapshot),
            observe_run(*construction, *snapshot, limits, start, observe_fuel(limits))
                == observe_run(*construction, *snapshot, limits, progress.state(), fuel),
            progress.nodes.len() <= limits.normalized_nodes,
            progress.fragments.len() <= limits.normalized_fragments,
            fuel >= (limits.normalized_nodes - progress.nodes.len()) + (
            limits.normalized_fragments - progress.fragments.len()) + 1,
        decreases (limits.normalized_nodes - progress.nodes.len()) + (limits.normalized_fragments
            - progress.fragments.len()),
    {
        let ghost before = progress.state();
        let item = progress.work.pop().unwrap();
        proof {
            assert(observe_work_view(progress.work@) =~= before.work.drop_last());
            assert(progress.state() == without_last_observation(before));
            assert(item@ == before.work.last());
        }
        let outcome = match item {
            ObserveWorkV1::Node { path, parent_path, node, parent, template } => observe_node(
                construction,
                snapshot,
                limits,
                &mut progress,
                path,
                parent_path,
                node,
                parent,
                template,
            ),
            ObserveWorkV1::Fragment { path, fragment, owner, descriptor, repeat_body, members } =>
                observe_fragment(
                limits,
                &mut progress,
                path,
                fragment,
                owner,
                descriptor,
                repeat_body,
                members,
            ),
        };
        match outcome {
            Ok(()) => {
                proof {
                    assert(observe_step(*construction, *snapshot, limits, before) == Ok::<
                        _,
                        HarnessErrorKind,
                    >(progress.state()));
                    lemma_step_counts(*construction, *snapshot, limits, before);
                    fuel = (fuel - 1) as nat;
                }
            },
            Err(error) => {
                proof {
                    assert(observe_step(*construction, *snapshot, limits, before) == Err::<
                        ObserveState,
                        _,
                    >(error.spec_kind()));
                }
                return Err(error);
            },
        }
    }
    if progress.nodes.len() != snapshot.node_count || progress.fragments.len()
        != snapshot.fragment_count || progress.property_slots != snapshot.property_slot_count {
        return Err(HarnessError::new(HarnessErrorKind::StateMismatch));
    }
    let normalized = NormalizedStateV1 { nodes: progress.nodes, fragments: progress.fragments };
    Ok(ObservedSnapshotV1 { normalized, identities: progress.identities })
}

/// Observes a committed snapshot through its public queries only.
pub fn observe_snapshot_v1(
    construction: &ConstructionModelV1,
    snapshot: &SnapshotModelV1,
    limits: HarnessLimitsV1,
) -> (result: Result<NormalizedStateV1, HarnessError>)
    ensures
        match result {
            Ok(state) => observe_snapshot(*construction, *snapshot, limits) is Ok
                && observe_snapshot(*construction, *snapshot, limits)->Ok_0.0 == state@,
            Err(error) => {
                &&& observe_snapshot(*construction, *snapshot, limits) == Err::<
                    (StateView, IdentityIndexView),
                    _,
                >(error.spec_kind())
                &&& error.is_unlocated(error.spec_kind())
            },
        },
{
    match observe_snapshot_indexed_v1(construction, snapshot, limits) {
        Ok(observed) => Ok(observed.normalized),
        Err(error) => Err(error),
    }
}

/// No element of a sequence repeats an earlier one.
pub open spec fn all_distinct<T>(items: Seq<T>) -> bool {
    forall|i: int, j: int| 0 <= i < j < items.len() ==> items[i] != items[j]
}

/// The handles an observation has indexed are exactly those it visited, and
/// none was visited twice.
pub open spec fn handles_tracked(state: ObserveState) -> bool {
    &&& node_handles(state.identities.nodes) == state.visited_nodes
    &&& fragment_handles(state.identities.fragments) == state.visited_fragments
    &&& all_distinct(state.visited_nodes)
    &&& all_distinct(state.visited_fragments)
}

proof fn lemma_step_tracks_handles(
    construction: ConstructionModelV1,
    snapshot: SnapshotModelV1,
    limits: HarnessLimitsV1,
    state: ObserveState,
)
    requires
        handles_tracked(state),
        state.work.len() > 0,
        observe_step(construction, snapshot, limits, state) is Ok,
    ensures
        handles_tracked(observe_step(construction, snapshot, limits, state)->Ok_0),
{
    let next = observe_step(construction, snapshot, limits, state)->Ok_0;
    match state.work.last() {
        ObserveWorkView::Node { node, path, .. } => {
            assert(node_handles(next.identities.nodes) =~= node_handles(state.identities.nodes).push(
                node,
            ));
            assert(fragment_handles(next.identities.fragments) =~= fragment_handles(
                state.identities.fragments,
            ));
            assert forall|i: int, j: int|
                0 <= i < j < next.visited_nodes.len() implies next.visited_nodes[i]
                != next.visited_nodes[j] by {
                if j == next.visited_nodes.len() - 1 {
                    assert(state.visited_nodes.contains(state.visited_nodes[i]));
                }
            }
        },
        ObserveWorkView::Fragment { fragment, .. } => {
            assert(node_handles(next.identities.nodes) =~= node_handles(state.identities.nodes));
            assert(fragment_handles(next.identities.fragments) =~= fragment_handles(
                state.identities.fragments,
            ).push(fragment));
            assert forall|i: int, j: int|
                0 <= i < j < next.visited_fragments.len() implies next.visited_fragments[i]
                != next.visited_fragments[j] by {
                if j == next.visited_fragments.len() - 1 {
                    assert(state.visited_fragments.contains(state.visited_fragments[i]));
                }
            }
        },
    }
}

proof fn lemma_run_tracks_handles(
    construction: ConstructionModelV1,
    snapshot: SnapshotModelV1,
    limits: HarnessLimitsV1,
    state: ObserveState,
    fuel: nat,
)
    requires
        handles_tracked(state),
        observe_run(construction, snapshot, limits, state, fuel) is Ok,
    ensures
        handles_tracked(observe_run(construction, snapshot, limits, state, fuel)->Ok_0),
    decreases fuel,
{
    if state.work.len() > 0 && fuel > 0 {
        lemma_step_tracks_handles(construction, snapshot, limits, state);
        lemma_run_tracks_handles(
            construction,
            snapshot,
            limits,
            observe_step(construction, snapshot, limits, state)->Ok_0,
            (fuel - 1) as nat,
        );
    }
}

/// Distinct items have no first repeat.
pub proof fn lemma_distinct_has_no_repeat<T>(items: Seq<T>)
    requires
        all_distinct(items),
    ensures
        first_repeat(items) is None,
    decreases items.len(),
{
    if items.len() > 0 {
        let rest = items.drop_last();
        assert(all_distinct(rest));
        lemma_distinct_has_no_repeat(rest);
        if rest.contains(items.last()) {
            let i = choose|i: int| 0 <= i < rest.len() && rest[i] == items.last();
            assert(items[i] == items[items.len() - 1]);
        }
    }
}

/// An observed snapshot is alias-free: no two observed nodes share a handle,
/// no two observed region instances share a handle, and the alias check finds
/// nothing.
pub proof fn lemma_observation_is_alias_free(
    construction: ConstructionModelV1,
    snapshot: SnapshotModelV1,
    limits: HarnessLimitsV1,
)
    requires
        observe_snapshot(construction, snapshot, limits) is Ok,
    ensures
        ({
            let identities = observe_snapshot(construction, snapshot, limits)->Ok_0.1;
            &&& all_distinct(node_handles(identities.nodes))
            &&& all_distinct(fragment_handles(identities.fragments))
            &&& alias_fingerprint(identities) is None
        }),
{
    let start = observe_start(construction, snapshot);
    assert(node_handles(start.identities.nodes) =~= start.visited_nodes);
    assert(fragment_handles(start.identities.fragments) =~= start.visited_fragments);
    lemma_run_tracks_handles(construction, snapshot, limits, start, observe_fuel(limits));
    let identities = observe_snapshot(construction, snapshot, limits)->Ok_0.1;
    lemma_distinct_has_no_repeat(node_handles(identities.nodes));
    lemma_distinct_has_no_repeat(fragment_handles(identities.fragments));
}

} // verus!
