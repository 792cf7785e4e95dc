//! The clean logical rebuild: the normalized state a construction program
//! and a desired state determine, computed without the runtime.

use vstd::prelude::*;

use crate::case::{PropertyId, PropertyValue, PropertyValueType};
use crate::error::{HarnessError, HarnessErrorKind, HarnessLimitKind};
use crate::fixture::HarnessLimitsV1;
use crate::identity::lookup;
use crate::semantic::{FragmentPathV1, NodePathV1, PathSegmentV1};

pub mod rebuild;


verus! {

/// Identifier of one template of a construction program.
#[derive(Clone, Copy, Debug, PartialEq, Eq, Structural)]
pub struct TemplateNodeId(pub u32);

/// Identifier of one component schema.
#[derive(Clone, Copy, Debug, PartialEq, Eq, Structural)]
pub struct ComponentId(pub u32);

/// Identifier of one structural region descriptor.
#[derive(Clone, Copy, Debug, PartialEq, Eq, Structural)]
pub struct StructuralRegionId(pub u32);

/// One child slot of a template.
#[derive(Clone, Copy, Debug, PartialEq, Eq, Structural)]
pub enum ChildFactoryV1 {
    /// A static child built from a template.
    Static { template: TemplateNodeId },
    /// A keyed region described by a region descriptor.
    Region { region: StructuralRegionId },
}

/// One property slot of a component schema, with the template's effective
/// value for it.
#[derive(Clone, Copy, Debug, PartialEq, Eq, Structural)]
pub struct PropertySlotV1 {
    pub id: PropertyId,
    pub value_type: PropertyValueType,
    pub effective: Option<PropertyValue>,
}

/// One template: its component, the component's property slots in
/// declaration order, and its child slots.
#[derive(Debug)]
pub struct TemplateModelV1 {
    pub id: TemplateNodeId,
    pub component: ComponentId,
    pub properties: Vec<PropertySlotV1>,
    pub children: Vec<ChildFactoryV1>,
}

/// One region descriptor: its initial keys and the template of its members.
#[derive(Debug)]
pub struct RegionModelV1 {
    pub id: StructuralRegionId,
    pub initial_keys: Vec<u64>,
    pub repeat_body: TemplateNodeId,
}

/// A validated construction program, as plain values. `domain` names the
/// program a desired state was derived from.
#[derive(Debug)]
pub struct ConstructionModelV1 {
    pub domain: u64,
    pub root: TemplateNodeId,
    pub templates: Vec<TemplateModelV1>,
    pub regions: Vec<RegionModelV1>,
}

/// The desired state of a case: the domain of the construction program it
/// was derived from, property overrides by node path and property, and keyed
/// region contents by fragment path.
#[derive(Debug)]
pub struct DesiredStateV1 {
    pub construction_domain: u64,
    pub property_overrides: Vec<((NodePathV1, PropertyId), PropertyValue)>,
    pub region_keys: Vec<(FragmentPathV1, Vec<u64>)>,
}

/// Mathematical form of a desired state.
pub struct DesiredView {
    pub construction_domain: u64,
    pub property_overrides: Seq<((Seq<PathSegmentV1>, PropertyId), PropertyValue)>,
    pub region_keys: Seq<((Seq<PathSegmentV1>, u16), Seq<u64>)>,
}

/// Property override entries by the views of their paths.
pub open spec fn override_entries(entries: Seq<((NodePathV1, PropertyId), PropertyValue)>) -> Seq<
    ((Seq<PathSegmentV1>, PropertyId), PropertyValue),
> {
    entries.map_values(
        |entry: ((NodePathV1, PropertyId), PropertyValue)| ((entry.0.0@, entry.0.1), entry.1),
    )
}

/// Region key entries by the views of their paths and key lists.
pub open spec fn region_key_entries(entries: Seq<(FragmentPathV1, Vec<u64>)>) -> Seq<
    ((Seq<PathSegmentV1>, u16), Seq<u64>),
> {
    entries.map_values(|entry: (FragmentPathV1, Vec<u64>)| (entry.0@, entry.1@))
}

impl View for DesiredStateV1 {
    type V = DesiredView;

    open spec fn view(&self) -> DesiredView {
        DesiredView {
            construction_domain: self.construction_domain,
            property_overrides: override_entries(self.property_overrides@),
            region_keys: region_key_entries(self.region_keys@),
        }
    }
}

/// Whether each key of a desired state's two tables occurs once.
pub open spec fn desired_keys_distinct(desired: DesiredView) -> bool {
    &&& forall|a: int, b: int|
        0 <= a < b < desired.property_overrides.len() ==> desired.property_overrides[a].0
            != desired.property_overrides[b].0
    &&& forall|a: int, b: int|
        0 <= a < b < desired.region_keys.len() ==> desired.region_keys[a].0
            != desired.region_keys[b].0
}

/// One group of a node's children, in slot order.
#[derive(Debug, PartialEq, Eq)]
pub enum NormalizedChildGroupV1 {
    /// A static child.
    Static(NodePathV1),
    /// A keyed region instance.
    Region(FragmentPathV1),
}

/// Mathematical form of a child group.
pub enum ChildGroupView {
    Static(Seq<PathSegmentV1>),
    Region((Seq<PathSegmentV1>, u16)),
}

impl View for NormalizedChildGroupV1 {
    type V = ChildGroupView;

    open spec fn view(&self) -> ChildGroupView {
        match self {
            NormalizedChildGroupV1::Static(path) => ChildGroupView::Static(path@),
            NormalizedChildGroupV1::Region(path) => ChildGroupView::Region(path@),
        }
    }
}

/// One normalized node.
#[derive(Debug, PartialEq, Eq)]
pub struct NormalizedNodeV1 {
    pub path: NodePathV1,
    pub parent: Option<NodePathV1>,
    pub template: TemplateNodeId,
    pub component: ComponentId,
    pub properties: Vec<(PropertyId, PropertyValue)>,
    pub child_groups: Vec<NormalizedChildGroupV1>,
}

/// Mathematical form of a normalized node.
pub struct NodeView {
    pub path: Seq<PathSegmentV1>,
    pub parent: Option<Seq<PathSegmentV1>>,
    pub template: TemplateNodeId,
    pub component: ComponentId,
    pub properties: Seq<(PropertyId, PropertyValue)>,
    pub child_groups: Seq<ChildGroupView>,
}

/// The view of an optional path.
pub open spec fn optional_path(path: Option<NodePathV1>) -> Option<Seq<PathSegmentV1>> {
    match path {
        Some(path) => Some(path@),
        None => None,
    }
}

/// The views of child groups.
pub open spec fn groups_view(groups: Seq<NormalizedChildGroupV1>) -> Seq<ChildGroupView> {
    groups.map_values(|group: NormalizedChildGroupV1| group@)
}

impl View for NormalizedNodeV1 {
    type V = NodeView;

    open spec fn view(&self) -> NodeView {
        NodeView {
            path: self.path@,
            parent: optional_path(self.parent),
            template: self.template,
            component: self.component,
            properties: self.properties@,
            child_groups: groups_view(self.child_groups@),
        }
    }
}

/// One normalized keyed region instance: its members' keys and paths in order.
#[derive(Debug, PartialEq, Eq)]
pub struct NormalizedFragmentV1 {
    pub path: FragmentPathV1,
    pub descriptor: StructuralRegionId,
    pub members: Vec<(u64, NodePathV1)>,
}

/// Mathematical form of a normalized fragment.
pub struct FragmentView {
    pub path: (Seq<PathSegmentV1>, u16),
    pub descriptor: StructuralRegionId,
    pub members: Seq<(u64, Seq<PathSegmentV1>)>,
}

impl View for NormalizedFragmentV1 {
    type V = FragmentView;

    open spec fn view(&self) -> FragmentView {
        FragmentView {
            path: self.path@,
            descriptor: self.descriptor,
            members: members_view(self.members@),
        }
    }
}

/// The views of members.
pub open spec fn members_view(members: Seq<(u64, NodePathV1)>) -> Seq<(u64, Seq<PathSegmentV1>)> {
    members.map_values(|member: (u64, NodePathV1)| (member.0, member.1@))
}

/// The views of nodes.
pub open spec fn nodes_view(nodes: Seq<NormalizedNodeV1>) -> Seq<NodeView> {
    nodes.map_values(|node: NormalizedNodeV1| node@)
}

/// The views of fragments.
pub open spec fn fragments_view(fragments: Seq<NormalizedFragmentV1>) -> Seq<FragmentView> {
    fragments.map_values(|fragment: NormalizedFragmentV1| fragment@)
}

/// A complete normalized logical state: nodes and fragments in authored order.
#[derive(Debug, PartialEq, Eq)]
pub struct NormalizedStateV1 {
    pub nodes: Vec<NormalizedNodeV1>,
    pub fragments: Vec<NormalizedFragmentV1>,
}

/// Mathematical form of a normalized state.
pub struct StateView {
    pub nodes: Seq<NodeView>,
    pub fragments: Seq<FragmentView>,
}

impl View for NormalizedStateV1 {
    type V = StateView;

    open spec fn view(&self) -> StateView {
        StateView {
            nodes: nodes_view(self.nodes@),
            fragments: fragments_view(self.fragments@),
        }
    }
}

impl Clone for NormalizedChildGroupV1 {
    fn clone(&self) -> (copy: Self)
        ensures
            copy@ == self@,
    {
        match self {
            NormalizedChildGroupV1::Static(path) => NormalizedChildGroupV1::Static(path.clone()),
            NormalizedChildGroupV1::Region(path) => NormalizedChildGroupV1::Region(path.clone()),
        }
    }
}

fn copy_optional_path(path: &Option<NodePathV1>) -> (copy: Option<NodePathV1>)
    ensures
        optional_path(copy) == optional_path(*path),
{
    match path {
        Some(path) => Some(path.clone()),
        None => None,
    }
}

fn copy_groups(groups: &Vec<NormalizedChildGroupV1>) -> (copy: Vec<NormalizedChildGroupV1>)
    ensures
        groups_view(copy@) == groups_view(groups@),
{
    let mut copy: Vec<NormalizedChildGroupV1> = Vec::new();
    let mut index: usize = 0;
    while index < groups.len()
        invariant
            index <= groups.len(),
            groups_view(copy@) == groups_view(groups@.take(index as int)),
        decreases groups.len() - index,
    {
        let group = groups[index].clone();
        proof {
            assert(groups_view(copy@.push(group)) =~= groups_view(copy@).push(group@));
            assert(groups_view(groups@.take(index as int + 1)) =~= groups_view(
                groups@.take(index as int),
            ).push(groups@[index as int]@));
        }
        copy.push(group);
        index = index + 1;
    }
    assert(groups@.take(index as int) =~= groups@);
    copy
}

fn copy_members(members: &Vec<(u64, NodePathV1)>) -> (copy: Vec<(u64, NodePathV1)>)
    ensures
        members_view(copy@) == members_view(members@),
{
    let mut copy: Vec<(u64, NodePathV1)> = Vec::new();
    let mut index: usize = 0;
    while index < members.len()
        invariant
            index <= members.len(),
            members_view(copy@) == members_view(members@.take(index as int)),
        decreases members.len() - index,
    {
        let member = (members[index].0, members[index].1.clone());
        proof {
            assert(members_view(copy@.push(member)) =~= members_view(copy@).push(
                (member.0, member.1@),
            ));
            assert(members_view(members@.take(index as int + 1)) =~= members_view(
                members@.take(index as int),
            ).push((members@[index as int].0, members@[index as int].1@)));
        }
        copy.push(member);
        index = index + 1;
    }
    assert(members@.take(index as int) =~= members@);
    copy
}

impl Clone for NormalizedNodeV1 {
    fn clone(&self) -> (copy: Self)
        ensures
            copy@ == self@,
    {
        let properties = copy_values(&self.properties);
        NormalizedNodeV1 {
            path: self.path.clone(),
            parent: copy_optional_path(&self.parent),
            template: self.template,
            component: self.component,
            properties,
            child_groups: copy_groups(&self.child_groups),
        }
    }
}

fn copy_values(values: &Vec<(PropertyId, PropertyValue)>) -> (copy: Vec<(PropertyId, PropertyValue)>)
    ensures
        copy@ == values@,
{
    let mut copy: Vec<(PropertyId, PropertyValue)> = Vec::new();
    let mut index: usize = 0;
    while index < values.len()
        invariant
            index <= values.len(),
            copy@ == values@.take(index as int),
        decreases values.len() - index,
    {
        copy.push(values[index]);
        index = index + 1;
        assert(copy@ =~= values@.take(index as int));
    }
    assert(values@.take(index as int) =~= values@);
    copy
}

impl Clone for NormalizedFragmentV1 {
    fn clone(&self) -> (copy: Self)
        ensures
            copy@ == self@,
    {
        NormalizedFragmentV1 {
            path: self.path.clone(),
            descriptor: self.descriptor,
            members: copy_members(&self.members),
        }
    }
}

impl Clone for NormalizedStateV1 {
    fn clone(&self) -> (copy: Self)
        ensures
            copy@ == self@,
    {
        let mut nodes: Vec<NormalizedNodeV1> = Vec::new();
        let mut index: usize = 0;
        while index < self.nodes.len()
            invariant
                index <= self.nodes.len(),
                nodes_view(nodes@) == nodes_view(self.nodes@.take(index as int)),
            decreases self.nodes.len() - index,
        {
            let node = self.nodes[index].clone();
            proof {
                assert(nodes_view(nodes@.push(node)) =~= nodes_view(nodes@).push(node@));
                assert(nodes_view(self.nodes@.take(index as int + 1)) =~= nodes_view(
                    self.nodes@.take(index as int),
                ).push(self.nodes@[index as int]@));
            }
            nodes.push(node);
            index = index + 1;
        }
        assert(self.nodes@.take(index as int) =~= self.nodes@);
        let mut fragments: Vec<NormalizedFragmentV1> = Vec::new();
        let mut index: usize = 0;
        while index < self.fragments.len()
            invariant
                index <= self.fragments.len(),
                fragments_view(fragments@) == fragments_view(self.fragments@.take(index as int)),
            decreases self.fragments.len() - index,
        {
            let fragment = self.fragments[index].clone();
            proof {
                assert(fragments_view(fragments@.push(fragment)) =~= fragments_view(
                    fragments@,
                ).push(fragment@));
                assert(fragments_view(self.fragments@.take(index as int + 1)) =~= fragments_view(
                    self.fragments@.take(index as int),
                ).push(self.fragments@[index as int]@));
            }
            fragments.push(fragment);
            index = index + 1;
        }
        assert(self.fragments@.take(index as int) =~= self.fragments@);
        NormalizedStateV1 { nodes, fragments }
    }
}

/// The paths of nodes, in order.
pub open spec fn node_paths(nodes: Seq<NodeView>) -> Seq<Seq<PathSegmentV1>> {
    nodes.map_values(|node: NodeView| node.path)
}

/// The paths of fragments, in order.
pub open spec fn fragment_paths(fragments: Seq<FragmentView>) -> Seq<(Seq<PathSegmentV1>, u16)> {
    fragments.map_values(|fragment: FragmentView| fragment.path)
}

/// The first node of a state with a path.
pub open spec fn state_node(state: StateView, path: Seq<PathSegmentV1>) -> Option<NodeView> {
    match first_index(node_paths(state.nodes), path) {
        Some(index) => Some(state.nodes[index]),
        None => None,
    }
}

/// The first fragment of a state with a path.
pub open spec fn state_fragment(state: StateView, path: (Seq<PathSegmentV1>, u16)) -> Option<
    FragmentView,
> {
    match first_index(fragment_paths(state.fragments), path) {
        Some(index) => Some(state.fragments[index]),
        None => None,
    }
}

/// The number of property slots of nodes.
pub open spec fn property_slot_total(nodes: Seq<NodeView>) -> int
    decreases nodes.len(),
{
    if nodes.len() == 0 {
        0
    } else {
        property_slot_total(nodes.drop_last()) + nodes.last().properties.len()
    }
}

impl NormalizedStateV1 {
    /// Returns the first node with a path.
    pub fn node(&self, path: &NodePathV1) -> (node: Option<&NormalizedNodeV1>)
        ensures
            match node {
                Some(node) => state_node(self@, path@) == Some(node@),
                None => state_node(self@, path@) is None,
            },
    {
        let ghost paths = node_paths(self@.nodes);
        let mut index: usize = 0;
        while index < self.nodes.len()
            invariant
                index <= self.nodes.len(),
                paths == node_paths(self@.nodes),
                paths.len() == self.nodes.len(),
                forall|j: int| 0 <= j < index ==> paths[j] != path@,
            decreases self.nodes.len() - index,
        {
            if self.nodes[index].path.same(path) {
                proof {
                    assert(is_first_at(paths, path@, index as int));
                    lemma_first_index_at(paths, path@, index as int);
                }
                return Some(&self.nodes[index]);
            }
            index = index + 1;
        }
        proof {
            lemma_first_index_absent(paths, path@);
        }
        None
    }

    /// Returns the first fragment with a path.
    pub fn fragment(&self, path: &FragmentPathV1) -> (fragment: Option<&NormalizedFragmentV1>)
        ensures
            match fragment {
                Some(fragment) => state_fragment(self@, path@) == Some(fragment@),
                None => state_fragment(self@, path@) is None,
            },
    {
        let ghost paths = fragment_paths(self@.fragments);
        let mut index: usize = 0;
        while index < self.fragments.len()
            invariant
                index <= self.fragments.len(),
                paths == fragment_paths(self@.fragments),
                paths.len() == self.fragments.len(),
                forall|j: int| 0 <= j < index ==> paths[j] != path@,
            decreases self.fragments.len() - index,
        {
            if self.fragments[index].path.same(path) {
                proof {
                    assert(is_first_at(paths, path@, index as int));
                    lemma_first_index_at(paths, path@, index as int);
                }
                return Some(&self.fragments[index]);
            }
            index = index + 1;
        }
        proof {
            lemma_first_index_absent(paths, path@);
        }
        None
    }

    /// Returns the number of nodes.
    pub fn node_count(&self) -> (count: usize)
        ensures
            count == self@.nodes.len(),
    {
        self.nodes.len()
    }

    /// Returns the number of fragments.
    pub fn fragment_count(&self) -> (count: usize)
        ensures
            count == self@.fragments.len(),
    {
        self.fragments.len()
    }

    /// Returns the number of property slots over all nodes, or `None` when it
    /// does not fit in a `usize`.
    pub fn property_slot_count(&self) -> (count: Option<usize>)
        ensures
            match count {
                Some(count) => count == property_slot_total(self@.nodes),
                None => property_slot_total(self@.nodes) > usize::MAX,
            },
    {
        let ghost view = self@.nodes;
        let mut total: usize = 0;
        let mut index: usize = 0;
        while index < self.nodes.len()
            invariant
                index <= self.nodes.len(),
                view == self@.nodes,
                view.len() == self.nodes.len(),
                total == property_slot_total(view.take(index as int)),
            decreases self.nodes.len() - index,
        {
            assert(view.take(index as int + 1).drop_last() =~= view.take(index as int));
            let length = self.nodes[index].properties.len();
            if length > usize::MAX - total {
                proof {
                    lemma_slot_total_grows(view, index as int + 1);
                }
                return None;
            }
            total = total + length;
            index = index + 1;
        }
        assert(view.take(index as int) =~= view);
        Some(total)
    }
}

/// The property slot total of a prefix never exceeds that of the whole.
pub proof fn lemma_slot_total_grows(nodes: Seq<NodeView>, count: int)
    requires
        0 <= count <= nodes.len(),
    ensures
        property_slot_total(nodes.take(count)) <= property_slot_total(nodes),
    decreases nodes.len(),
{
    if count < nodes.len() {
        assert(nodes.drop_last().take(count) =~= nodes.take(count));
        lemma_slot_total_grows(nodes.drop_last(), count);
    } else {
        assert(nodes.take(count) =~= nodes);
    }
}

/// One pending unit of rebuild work.
#[derive(Debug)]
pub enum RebuildWorkV1 {
    /// A node to materialize under its parent.
    Node { path: NodePathV1, parent: Option<NodePathV1>, template: TemplateNodeId },
    /// A region instance to expand into its members.
    Fragment { path: FragmentPathV1, descriptor: StructuralRegionId },
}

/// Mathematical form of a unit of rebuild work.
pub enum WorkView {
    Node {
        path: Seq<PathSegmentV1>,
        parent: Option<Seq<PathSegmentV1>>,
        template: TemplateNodeId,
    },
    Fragment { path: (Seq<PathSegmentV1>, u16), descriptor: StructuralRegionId },
}

impl View for RebuildWorkV1 {
    type V = WorkView;

    open spec fn view(&self) -> WorkView {
        match self {
            RebuildWorkV1::Node { path, parent, template } => WorkView::Node {
                path: path@,
                parent: optional_path(*parent),
                template: *template,
            },
            RebuildWorkV1::Fragment { path, descriptor } => WorkView::Fragment {
                path: path@,
                descriptor: *descriptor,
            },
        }
    }
}

/// The views of pending work.
pub open spec fn work_view(work: Seq<RebuildWorkV1>) -> Seq<WorkView> {
    work.map_values(|item: RebuildWorkV1| item@)
}

/// Holds when `i` is the first position of `id` in `ids`.
pub open spec fn is_first_at<T>(ids: Seq<T>, id: T, i: int) -> bool {
    &&& 0 <= i < ids.len()
    &&& ids[i] == id
    &&& forall|j: int| 0 <= j < i ==> ids[j] != id
}

/// The first position of `id` in `ids`, if it occurs.
pub open spec fn first_index<T>(ids: Seq<T>, id: T) -> Option<int> {
    if exists|i: int| is_first_at(ids, id, i) {
        Some(choose|i: int| is_first_at(ids, id, i))
    } else {
        None
    }
}

/// The identifiers of templates, in program order.
pub open spec fn template_ids(templates: Seq<TemplateModelV1>) -> Seq<TemplateNodeId> {
    templates.map_values(|template: TemplateModelV1| template.id)
}

/// The identifiers of region descriptors, in program order.
pub open spec fn region_ids(regions: Seq<RegionModelV1>) -> Seq<StructuralRegionId> {
    regions.map_values(|region: RegionModelV1| region.id)
}

/// The first position of an identifier is the one a forward scan stops at.
pub proof fn lemma_first_index_at<T>(ids: Seq<T>, id: T, i: int)
    requires
        is_first_at(ids, id, i),
    ensures
        first_index(ids, id) == Some(i),
{
    let found = choose|k: int| is_first_at(ids, id, k);
    assert(is_first_at(ids, id, found));
    if found < i {
        assert(ids[found] != id);
    } else if found > i {
        assert(ids[i] != id);
    }
}

/// An identifier that occurs nowhere has no first position.
pub proof fn lemma_first_index_absent<T>(ids: Seq<T>, id: T)
    requires
        forall|j: int| 0 <= j < ids.len() ==> ids[j] != id,
    ensures
        first_index(ids, id) is None,
{
}

/// Materializes a template's properties in declaration order: each counts
/// against the property ceiling, and takes the desired override for the node
/// if there is one, else the template's effective value.
pub open spec fn properties_scan(
    properties: Seq<PropertySlotV1>,
    path: Seq<PathSegmentV1>,
    overrides: Seq<((Seq<PathSegmentV1>, PropertyId), PropertyValue)>,
    slots: int,
    used: int,
    limit: int,
) -> Result<(Seq<(PropertyId, PropertyValue)>, int, int), HarnessErrorKind>
    decreases properties.len(),
{
    if properties.len() == 0 {
        Ok((Seq::empty(), slots, used))
    } else {
        match properties_scan(properties.drop_last(), path, overrides, slots, used, limit) {
            Err(kind) => Err(kind),
            Ok((values, slots, used)) => {
                let id = properties.last().id;
                let effective = properties.last().effective;
                if slots + 1 > usize::MAX {
                    Err(HarnessErrorKind::ArithmeticExhausted)
                } else if slots + 1 > limit {
                    Err(HarnessErrorKind::LimitExceeded(HarnessLimitKind::NormalizedProperties))
                } else {
                    match lookup(overrides, (path, id)) {
                        Some(value) => if used + 1 > usize::MAX {
                            Err(HarnessErrorKind::ArithmeticExhausted)
                        } else {
                            Ok((values.push((id, value)), slots + 1, used + 1))
                        },
                        None => match effective {
                            None => Err(HarnessErrorKind::StateMismatch),
                            Some(value) => Ok((values.push((id, value)), slots + 1, used)),
                        },
                    }
                }
            },
        }
    }
}

/// The child groups of a node and the work they add, in slot order.
pub open spec fn children_scan(
    children: Seq<ChildFactoryV1>,
    path: Seq<PathSegmentV1>,
    depth_limit: int,
) -> Result<(Seq<ChildGroupView>, Seq<WorkView>), HarnessErrorKind>
    decreases children.len(),
{
    if children.len() == 0 {
        Ok((Seq::empty(), Seq::empty()))
    } else {
        match children_scan(children.drop_last(), path, depth_limit) {
            Err(kind) => Err(kind),
            Ok((groups, work)) => {
                let slot = children.len() - 1;
                if slot > u16::MAX {
                    Err(HarnessErrorKind::ArithmeticExhausted)
                } else {
                    match children.last() {
                        ChildFactoryV1::Static { template } => {
                            let child = path.push(PathSegmentV1::Static { authored_slot: slot as u16 });
                            if child.len() > depth_limit {
                                Err(HarnessErrorKind::LimitExceeded(HarnessLimitKind::PathDepth))
                            } else {
                                Ok(
                                    (
                                        groups.push(ChildGroupView::Static(child)),
                                        work.push(
                                            WorkView::Node { path: child, parent: Some(path), template },
                                        ),
                                    ),
                                )
                            }
                        },
                        ChildFactoryV1::Region { region } => Ok(
                            (
                                groups.push(ChildGroupView::Region((path, slot as u16))),
                                work.push(
                                    WorkView::Fragment { path: (path, slot as u16), descriptor: region },
                                ),
                            ),
                        ),
                    }
                }
            },
        }
    }
}

/// The members of a region instance and the work they add, in key order:
/// keys must be distinct and member paths within the depth ceiling.
pub open spec fn members_scan(
    keys: Seq<u64>,
    owner: Seq<PathSegmentV1>,
    slot: u16,
    body: TemplateNodeId,
    depth_limit: int,
) -> Result<(Seq<(u64, Seq<PathSegmentV1>)>, Seq<WorkView>), HarnessErrorKind>
    decreases keys.len(),
{
    if keys.len() == 0 {
        Ok((Seq::empty(), Seq::empty()))
    } else {
        match members_scan(keys.drop_last(), owner, slot, body, depth_limit) {
            Err(kind) => Err(kind),
            Ok((members, work)) => {
                let key = keys.last();
                if keys.drop_last().contains(key) {
                    Err(HarnessErrorKind::InvalidOperation)
                } else {
                    let member = owner.push(PathSegmentV1::Member { region_slot: slot, key });
                    if member.len() > depth_limit {
                        Err(HarnessErrorKind::LimitExceeded(HarnessLimitKind::PathDepth))
                    } else {
                        Ok(
                            (
                                members.push((key, member)),
                                work.push(WorkView::Node { path: member, parent: Some(owner), template: body }),
                            ),
                        )
                    }
                }
            },
        }
    }
}

} // verus!
