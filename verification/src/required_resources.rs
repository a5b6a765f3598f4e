use vstd::prelude::*;
use core::marker::PhantomData;
use shred::ResourceId;

verus! {

/// What a task declares before it runs: the resources it reads and the
/// resources it writes, each list in the order in which their locks are
/// taken.
pub struct Requirements {
    pub reads: Seq<ResourceId>,
    pub writes: Seq<ResourceId>,
}

impl Requirements {
    /// Every declared resource, reads first, in the order of acquisition.
    pub open spec fn in_order(self) -> Seq<ResourceId> {
        self.reads + self.writes
    }

    /// Whether `id` is among the declared resources.
    pub open spec fn names(self, id: ResourceId) -> bool {
        self.reads.contains(id) || self.writes.contains(id)
    }

    /// Whether every declared resource is in `registered`.
    pub open spec fn within(self, registered: Set<ResourceId>) -> bool {
        &&& forall|i: int|
            0 <= i < self.reads.len() ==> registered.contains(#[trigger] self.reads[i])
        &&& forall|i: int|
            0 <= i < self.writes.len() ==> registered.contains(#[trigger] self.writes[i])
    }
}

/// The read and write sets of a task of type `T`, fixed once computed.
pub struct RequiredResources<T> {
    reads: Vec<ResourceId>,
    writes: Vec<ResourceId>,
    phantom_data: PhantomData<T>,
}

impl<T> View for RequiredResources<T> {
    type V = Requirements;

    closed spec fn view(&self) -> Requirements {
        Requirements { reads: self.reads@, writes: self.writes@ }
    }
}

impl<T> RequiredResources<T> {
    /// A descriptor with exactly the given read and write lists.
    pub fn new(reads: Vec<ResourceId>, writes: Vec<ResourceId>) -> (required: Self)
        ensures
            required@.reads == reads@,
            required@.writes == writes@,
    {
        RequiredResources { reads, writes, phantom_data: PhantomData }
    }

    // Takes the two lists back out, reads first.
    pub(crate) fn into_lists(self) -> (lists: (Vec<ResourceId>, Vec<ResourceId>))
        ensures
            lists.0@ == self@.reads,
            lists.1@ == self@.writes,
    {
        (self.reads, self.writes)
    }

    /// The resources to be read.
    pub fn reads(&self) -> (reads: &Vec<ResourceId>)
        ensures
            reads@ == self@.reads,
    {
        &self.reads
    }

    /// The resources to be written.
    pub fn writes(&self) -> (writes: &Vec<ResourceId>)
        ensures
            writes@ == self@.writes,
    {
        &self.writes
    }
}

} // verus!
