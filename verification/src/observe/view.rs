//! What observation reads of a committed snapshot, as plain values: each live
//! node with its template, component, property values, parent and children,
//! and each keyed region instance with its owner, descriptor and members.

use vstd::prelude::*;

use crate::case::{PropertyId, PropertyValue};
use crate::identity::{lemma_lookup_prefix, lemma_lookup_take_step, lookup, FragmentId, NodeId};
use crate::model::{
    first_index, is_first_at, lemma_first_index_absent, lemma_first_index_at, ComponentId,
    StructuralRegionId, TemplateNodeId,
};

verus! {

/// One live node of a snapshot.
#[derive(Debug)]
pub struct SnapshotNodeV1 {
    pub id: NodeId,
    pub template: Option<TemplateNodeId>,
    pub component: Option<ComponentId>,
    pub properties: Vec<(PropertyId, PropertyValue)>,
    pub parent: Option<NodeId>,
    pub children: Option<Vec<NodeId>>,
}

/// One live keyed region instance of a snapshot.
#[derive(Debug)]
pub struct SnapshotFragmentV1 {
    pub id: FragmentId,
    pub owner: NodeId,
    pub descriptor: StructuralRegionId,
    pub members: Vec<(u64, NodeId)>,
}

/// A committed snapshot as observation reads it, with the counts it reports.
#[derive(Debug)]
pub struct SnapshotModelV1 {
    pub root: NodeId,
    pub node_count: usize,
    pub fragment_count: usize,
    pub property_slot_count: usize,
    pub nodes: Vec<SnapshotNodeV1>,
    pub fragments: Vec<SnapshotFragmentV1>,
}

/// The handles of nodes, in snapshot order.
pub open spec fn node_ids(nodes: Seq<SnapshotNodeV1>) -> Seq<NodeId> {
    nodes.map_values(|node: SnapshotNodeV1| node.id)
}

/// The handles of fragments, in snapshot order.
pub open spec fn fragment_ids(fragments: Seq<SnapshotFragmentV1>) -> Seq<FragmentId> {
    fragments.map_values(|fragment: SnapshotFragmentV1| fragment.id)
}

/// The owner and descriptor of fragments, in snapshot order.
pub open spec fn fragment_slots(fragments: Seq<SnapshotFragmentV1>) -> Seq<
    (NodeId, StructuralRegionId),
> {
    fragments.map_values(|fragment: SnapshotFragmentV1| (fragment.owner, fragment.descriptor))
}

/// The first live node with a handle.
pub open spec fn snapshot_node(snapshot: SnapshotModelV1, node: NodeId) -> Option<SnapshotNodeV1> {
    match first_index(node_ids(snapshot.nodes@), node) {
        Some(index) => Some(snapshot.nodes@[index]),
        None => None,
    }
}

/// The template of a node.
pub open spec fn view_template(snapshot: SnapshotModelV1, node: NodeId) -> Option<TemplateNodeId> {
    match snapshot_node(snapshot, node) {
        Some(entry) => entry.template,
        None => None,
    }
}

/// The component of a node.
pub open spec fn view_component(snapshot: SnapshotModelV1, node: NodeId) -> Option<ComponentId> {
    match snapshot_node(snapshot, node) {
        Some(entry) => entry.component,
        None => None,
    }
}

/// The value of one property of a node.
pub open spec fn view_property(
    snapshot: SnapshotModelV1,
    node: NodeId,
    property: PropertyId,
) -> Option<PropertyValue> {
    match snapshot_node(snapshot, node) {
        Some(entry) => lookup(entry.properties@, property),
        None => None,
    }
}

/// The parent of a node.
pub open spec fn view_parent(snapshot: SnapshotModelV1, node: NodeId) -> Option<NodeId> {
    match snapshot_node(snapshot, node) {
        Some(entry) => entry.parent,
        None => None,
    }
}

/// The children of a node, flat, in order.
pub open spec fn view_children(snapshot: SnapshotModelV1, node: NodeId) -> Option<Seq<NodeId>> {
    match snapshot_node(snapshot, node) {
        Some(entry) => match entry.children {
            Some(children) => Some(children@),
            None => None,
        },
        None => None,
    }
}

/// The child of a node at a flat position.
pub open spec fn view_child_at(snapshot: SnapshotModelV1, node: NodeId, index: int) -> Option<
    NodeId,
> {
    match view_children(snapshot, node) {
        Some(children) => if 0 <= index < children.len() {
            Some(children[index])
        } else {
            None
        },
        None => None,
    }
}

/// The region instance a node owns for a descriptor.
pub open spec fn view_fragment(
    snapshot: SnapshotModelV1,
    owner: NodeId,
    descriptor: StructuralRegionId,
) -> Option<FragmentId> {
    match first_index(fragment_slots(snapshot.fragments@), (owner, descriptor)) {
        Some(index) => Some(snapshot.fragments@[index].id),
        None => None,
    }
}

/// The keyed members of a region instance, in order.
pub open spec fn view_members(snapshot: SnapshotModelV1, fragment: FragmentId) -> Option<
    Seq<(u64, NodeId)>,
> {
    match first_index(fragment_ids(snapshot.fragments@), fragment) {
        Some(index) => Some(snapshot.fragments@[index].members@),
        None => None,
    }
}

/// The keyed member of a region instance at a position.
pub open spec fn view_member_at(snapshot: SnapshotModelV1, fragment: FragmentId, index: int) -> Option<
    (u64, NodeId),
> {
    match view_members(snapshot, fragment) {
        Some(members) => if 0 <= index < members.len() {
            Some(members[index])
        } else {
            None
        },
        None => None,
    }
}

impl SnapshotModelV1 {
    fn node_index(&self, node: NodeId) -> (index: Option<usize>)
        ensures
            match index {
                Some(i) => first_index(node_ids(self.nodes@), node) == Some(i as int),
                None => first_index(node_ids(self.nodes@), node) is None,
            },
    {
        let ghost ids = node_ids(self.nodes@);
        let mut index: usize = 0;
        while index < self.nodes.len()
            invariant
                index <= self.nodes.len(),
                ids == node_ids(self.nodes@),
                forall|j: int| 0 <= j < index ==> ids[j] != node,
            decreases self.nodes.len() - index,
        {
            if self.nodes[index].id == node {
                proof {
                    assert(is_first_at(ids, node, index as int));
                    lemma_first_index_at(ids, node, index as int);
                }
                return Some(index);
            }
            index = index + 1;
        }
        proof {
            lemma_first_index_absent(ids, node);
        }
        None
    }

    fn fragment_index(&self, fragment: FragmentId) -> (index: Option<usize>)
        ensures
            match index {
                Some(i) => first_index(fragment_ids(self.fragments@), fragment) == Some(i as int),
                None => first_index(fragment_ids(self.fragments@), fragment) is None,
            },
    {
        let ghost ids = fragment_ids(self.fragments@);
        let mut index: usize = 0;
        while index < self.fragments.len()
            invariant
                index <= self.fragments.len(),
                ids == fragment_ids(self.fragments@),
                forall|j: int| 0 <= j < index ==> ids[j] != fragment,
            decreases self.fragments.len() - index,
        {
            if self.fragments[index].id == fragment {
                proof {
                    assert(is_first_at(ids, fragment, index as int));
                    lemma_first_index_at(ids, fragment, index as int);
                }
                return Some(index);
            }
            index = index + 1;
        }
        proof {
            lemma_first_index_absent(ids, fragment);
        }
        None
    }

    /// Returns the template of a node.
    pub fn template(&self, node: NodeId) -> (template: Option<TemplateNodeId>)
        ensures
            template == view_template(*self, node),
    {
        match self.node_index(node) {
            Some(index) => self.nodes[index].template,
            None => None,
        }
    }

    /// Returns the component of a node.
    pub fn component(&self, node: NodeId) -> (component: Option<ComponentId>)
        ensures
            component == view_component(*self, node),
    {
        match self.node_index(node) {
            Some(index) => self.nodes[index].component,
            None => None,
        }
    }

    /// Returns the value of one property of a node.
    pub fn property(&self, node: NodeId, property: PropertyId) -> (value: Option<PropertyValue>)
        ensures
            value == view_property(*self, node, property),
    {
        let found = match self.node_index(node) {
            Some(index) => index,
            None => return None,
        };
        let properties = &self.nodes[found].properties;
        let mut index: usize = 0;
        while index < properties.len()
            invariant
                index <= properties.len(),
                found < self.nodes.len(),
                properties == &self.nodes@[found as int].properties,
                first_index(node_ids(self.nodes@), node) == Some(found as int),
                lookup(properties@.take(index as int), property).is_none(),
            decreases properties.len() - index,
        {
            proof {
                lemma_lookup_take_step(properties@, index as int, property);
            }
            if properties[index].0 == property {
                proof {
                    lemma_lookup_prefix(properties@, index as int + 1, property);
                }
                return Some(properties[index].1);
            }
            index = index + 1;
        }
        assert(properties@.take(index as int) =~= properties@);
        None
    }

    /// Returns the parent of a node.
    pub fn parent(&self, node: NodeId) -> (parent: Option<NodeId>)
        ensures
            parent == view_parent(*self, node),
    {
        match self.node_index(node) {
            Some(index) => self.nodes[index].parent,
            None => None,
        }
    }

    /// Returns the number of children of a node.
    pub fn child_count(&self, node: NodeId) -> (count: Option<usize>)
        ensures
            match view_children(*self, node) {
                Some(children) => count is Some && count->Some_0 == children.len(),
                None => count is None,
            },
    {
        match self.node_index(node) {
            Some(index) => match &self.nodes[index].children {
                Some(children) => Some(children.len()),
                None => None,
            },
            None => None,
        }
    }

    /// Returns the child of a node at a flat position.
    pub fn child_at(&self, node: NodeId, position: usize) -> (child: Option<NodeId>)
        ensures
            child == view_child_at(*self, node, position as int),
    {
        match self.node_index(node) {
            Some(index) => match &self.nodes[index].children {
                Some(children) => if position < children.len() {
                    Some(children[position])
                } else {
                    None
                },
                None => None,
            },
            None => None,
        }
    }

    /// Returns the region instance a node owns for a descriptor.
    pub fn fragment(&self, owner: NodeId, descriptor: StructuralRegionId) -> (fragment: Option<
        FragmentId,
    >)
        ensures
            fragment == view_fragment(*self, owner, descriptor),
    {
        let ghost slots = fragment_slots(self.fragments@);
        let mut index: usize = 0;
        while index < self.fragments.len()
            invariant
                index <= self.fragments.len(),
                slots == fragment_slots(self.fragments@),
                forall|j: int| 0 <= j < index ==> slots[j] != (owner, descriptor),
            decreases self.fragments.len() - index,
        {
            if self.fragments[index].owner == owner && self.fragments[index].descriptor
                == descriptor {
                proof {
                    assert(is_first_at(slots, (owner, descriptor), index as int));
                    lemma_first_index_at(slots, (owner, descriptor), index as int);
                }
                return Some(self.fragments[index].id);
            }
            index = index + 1;
        }
        proof {
            lemma_first_index_absent(slots, (owner, descriptor));
        }
        None
    }

    /// Returns the number of keyed members of a region instance.
    pub fn keyed_count(&self, fragment: FragmentId) -> (count: Option<usize>)
        ensures
            match view_members(*self, fragment) {
                Some(members) => count is Some && count->Some_0 == members.len(),
                None => count is None,
            },
    {
        match self.fragment_index(fragment) {
            Some(index) => Some(self.fragments[index].members.len()),
            None => None,
        }
    }

    /// Returns the keyed member of a region instance at a position.
    pub fn keyed_at(&self, fragment: FragmentId, position: usize) -> (member: Option<(u64, NodeId)>)
        ensures
            member == view_member_at(*self, fragment, position as int),
    {
        match self.fragment_index(fragment) {
            Some(index) => if position < self.fragments[index].members.len() {
                Some(self.fragments[index].members[position])
            } else {
                None
            },
            None => None,
        }
    }
}

} // verus!
