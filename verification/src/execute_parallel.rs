use vstd::prelude::*;

verus! {

/// Whether every member is marked as resolved.
pub open spec fn all_resolved(members: Seq<bool>) -> bool {
    forall|member: int| 0 <= member < members.len() ==> members[member]
}

/// The marks after `member` has resolved. A resolution of a member that does
/// not exist changes nothing.
pub open spec fn mark_resolved(members: Seq<bool>, member: int) -> Seq<bool> {
    if 0 <= member < members.len() {
        members.update(member, true)
    } else {
        members
    }
}

/// The marks of a composite over `len` members after its members have
/// resolved in the order given.
pub open spec fn resolved_after(len: nat, order: Seq<int>) -> Seq<bool>
    decreases order.len(),
{
    if order.len() == 0 {
        Seq::new(len, |member: int| false)
    } else {
        mark_resolved(resolved_after(len, order.drop_last()), order.last())
    }
}

/// Runs its members with no order among them and resolves once all have. It
/// tracks only which members have resolved; the members themselves are polled
/// by the caller, every pending one whenever the composite is polled.
pub struct ExecuteParallel {
    resolved: Vec<bool>,
}

impl View for ExecuteParallel {
    type V = Seq<bool>;

    /// For each member, whether it has resolved.
    closed spec fn view(&self) -> Seq<bool> {
        self.resolved@
    }
}

impl ExecuteParallel {
    /// A composite over `len` members, none of them resolved.
    pub fn new(len: usize) -> (composite: Self)
        ensures
            composite@ == Seq::new(len as nat, |member: int| false),
    {
        let mut resolved: Vec<bool> = Vec::new();
        let mut member: usize = 0;
        while member < len
            invariant
                member <= len,
                resolved@ == Seq::new(member as nat, |m: int| false),
            decreases len - member,
        {
            resolved.push(false);
            member += 1;
        }
        ExecuteParallel { resolved }
    }

    /// The number of members.
    pub fn len(&self) -> (len: usize)
        ensures
            len == self@.len(),
    {
        self.resolved.len()
    }

    /// Whether `member` exists and still has to be polled.
    pub fn is_pending(&self, member: usize) -> (pending: bool)
        ensures
            pending == (member < self@.len() && !self@[member as int]),
    {
        member < self.resolved.len() && !self.resolved[member]
    }

    /// The first member at or after `from` that still has to be polled.
    pub fn first_pending_from(&self, from: usize) -> (member: Option<usize>)
        ensures
            match member {
                Some(found) => {
                    &&& from <= found < self@.len()
                    &&& !self@[found as int]
                    &&& forall|m: int| from <= m < found ==> self@[m]
                },
                None => forall|m: int| from <= m < self@.len() ==> self@[m],
            },
    {
        let mut member: usize = from;
        while member < self.resolved.len()
            invariant
                from <= member,
                forall|m: int| from <= m < member && m < self.resolved@.len() ==> self.resolved@[m],
            decreases self.resolved@.len() - member,
        {
            if !self.resolved[member] {
                return Some(member);
            }
            member += 1;
        }
        None
    }

    /// Records that `member` has resolved. The other members keep their marks.
    pub fn member_resolved(&mut self, member: usize)
        ensures
            final(self)@ == mark_resolved(old(self)@, member as int),
    {
        if member < self.resolved.len() {
            self.resolved.set(member, true);
        }
    }

    /// Whether the composite resolves: every member has.
    pub fn is_resolved(&self) -> (resolved: bool)
        ensures
            resolved == all_resolved(self@),
    {
        let mut member: usize = 0;
        while member < self.resolved.len()
            invariant
                member <= self.resolved@.len(),
                forall|m: int| 0 <= m < member ==> self.resolved@[m],
            decreases self.resolved@.len() - member,
        {
            if !self.resolved[member] {
                return false;
            }
            member += 1;
        }
        true
    }
}

/// A member is marked exactly when it occurs among the resolutions.
pub proof fn lemma_marked_iff_resolved(len: nat, order: Seq<int>, member: int)
    requires
        0 <= member < len,
    ensures
        resolved_after(len, order)[member] <==> order.contains(member),
    decreases order.len(),
{
    if order.len() == 0 {
    } else {
        lemma_length_is_kept(len, order.drop_last());
        lemma_marked_iff_resolved(len, order.drop_last(), member);
        if order.drop_last().contains(member) {
            let at: int = choose|at: int|
                0 <= at < order.drop_last().len() && order.drop_last()[at] == member;
            assert(order[at] == member);
        }
        if order.contains(member) && order.last() != member {
            let at: int = choose|at: int| 0 <= at < order.len() && order[at] == member;
            assert(order.drop_last()[at] == member);
        }
        if order.last() == member {
            assert(order[order.len() - 1] == member);
        }
    }
}

/// Completion of a parallel composite: it resolves if and only if every
/// member has resolved, whatever the order in which they did.
pub proof fn lemma_parallel_completion(len: nat, order: Seq<int>)
    ensures
        all_resolved(resolved_after(len, order)) <==> forall|member: int|
            0 <= member < len ==> order.contains(member),
{
    let marks = resolved_after(len, order);
    lemma_length_is_kept(len, order);
    if all_resolved(marks) {
        assert forall|member: int| 0 <= member < len implies order.contains(member) by {
            lemma_marked_iff_resolved(len, order, member);
            assert(marks[member]);
        }
    }
    if forall|member: int| 0 <= member < len ==> order.contains(member) {
        assert forall|member: int| 0 <= member < marks.len() implies marks[member] by {
            lemma_marked_iff_resolved(len, order, member);
            assert(order.contains(member));
        }
    }
}

/// Resolutions never add or remove a member.
pub proof fn lemma_length_is_kept(len: nat, order: Seq<int>)
    ensures
        resolved_after(len, order).len() == len,
    decreases order.len(),
{
    if order.len() > 0 {
        lemma_length_is_kept(len, order.drop_last());
    }
}

} // verus!
