use vstd::prelude::*;

verus! {

/// One segment of a semantic node address.
#[derive(Clone, Copy, Debug, PartialEq, Eq, Structural)]
pub enum PathSegmentV1 {
    /// The authored static child at the given slot.
    Static { authored_slot: u16 },
    /// The keyed member of the region at the given slot.
    Member { region_slot: u16, key: u64 },
}

/// Identity-free semantic address of one node, from the root down.
#[derive(Debug, PartialEq, Eq)]
pub struct NodePathV1 {
    segments: Vec<PathSegmentV1>,
}

impl View for NodePathV1 {
    type V = Seq<PathSegmentV1>;

    closed spec fn view(&self) -> Seq<PathSegmentV1> {
        self.segments@
    }
}

impl Clone for NodePathV1 {
    fn clone(&self) -> (path: Self)
        ensures
            path@ == self@,
    {
        NodePathV1 { segments: copy_segments(&self.segments) }
    }
}

fn copy_segments(segments: &Vec<PathSegmentV1>) -> (copy: Vec<PathSegmentV1>)
    ensures
        copy@ == segments@,
{
    let mut copy: Vec<PathSegmentV1> = Vec::new();
    let mut index: usize = 0;
    while index < segments.len()
        invariant
            index <= segments.len(),
            copy@ == segments@.take(index as int),
        decreases segments.len() - index,
    {
        copy.push(segments[index]);
        index = index + 1;
        assert(copy@ =~= segments@.take(index as int));
    }
    assert(segments@.take(index as int) =~= segments@);
    copy
}

impl NodePathV1 {
    /// Returns the root address.
    pub fn root() -> (path: Self)
        ensures
            path@ == Seq::<PathSegmentV1>::empty(),
    {
        NodePathV1 { segments: Vec::new() }
    }

    /// Extends the address with an authored static child.
    pub fn static_child(self, authored_slot: u16) -> (path: Self)
        ensures
            path@ == self@.push(PathSegmentV1::Static { authored_slot }),
    {
        let mut segments = self.segments;
        segments.push(PathSegmentV1::Static { authored_slot });
        NodePathV1 { segments }
    }

    /// Extends the address with a keyed region member.
    pub fn member(self, region_slot: u16, key: u64) -> (path: Self)
        ensures
            path@ == self@.push(PathSegmentV1::Member { region_slot, key }),
    {
        let mut segments = self.segments;
        segments.push(PathSegmentV1::Member { region_slot, key });
        NodePathV1 { segments }
    }

    /// Returns the number of segments below the root.
    pub fn depth(&self) -> (depth: usize)
        ensures
            depth == self@.len(),
    {
        self.segments.len()
    }

    /// Returns the segments from the root down.
    pub fn segments(&self) -> (segments: &[PathSegmentV1])
        ensures
            segments@ == self@,
    {
        self.segments.as_slice()
    }

    /// Reports whether both addresses name the same node.
    pub fn same(&self, other: &NodePathV1) -> (same: bool)
        ensures
            same == (self@ == other@),
    {
        if self.segments.len() != other.segments.len() {
            return false;
        }
        let mut index: usize = 0;
        while index < self.segments.len()
            invariant
                index <= self.segments.len(),
                self.segments.len() == other.segments.len(),
                forall|i: int| 0 <= i < index ==> self.segments@[i] == other.segments@[i],
            decreases self.segments.len() - index,
        {
            if self.segments[index] != other.segments[index] {
                return false;
            }
            index = index + 1;
        }
        assert(self@ =~= other@);
        true
    }
}

/// Semantic address of one structural region instance.
#[derive(Debug, PartialEq, Eq)]
pub struct FragmentPathV1 {
    owner: NodePathV1,
    region_slot: u16,
}

impl View for FragmentPathV1 {
    type V = (Seq<PathSegmentV1>, u16);

    closed spec fn view(&self) -> (Seq<PathSegmentV1>, u16) {
        (self.owner@, self.region_slot)
    }
}

impl Clone for FragmentPathV1 {
    fn clone(&self) -> (path: Self)
        ensures
            path@ == self@,
    {
        FragmentPathV1 { owner: self.owner.clone(), region_slot: self.region_slot }
    }
}

impl FragmentPathV1 {
    /// Addresses the region at `region_slot` of `owner`.
    pub fn new(owner: NodePathV1, region_slot: u16) -> (path: Self)
        ensures
            path@ == (owner@, region_slot),
    {
        FragmentPathV1 { owner, region_slot }
    }

    /// Returns the owning node address.
    pub fn owner(&self) -> (owner: &NodePathV1)
        ensures
            owner@ == self@.0,
    {
        &self.owner
    }

    /// Returns the authored region slot.
    pub fn region_slot(&self) -> (slot: u16)
        ensures
            slot == self@.1,
    {
        self.region_slot
    }

    /// Reports whether both addresses name the same fragment.
    pub fn same(&self, other: &FragmentPathV1) -> (same: bool)
        ensures
            same == (self@ == other@),
    {
        self.region_slot == other.region_slot && self.owner.same(&other.owner)
    }
}

} // verus!
