use vstd::prelude::*;

verus! {

/// What the sequential composite does after one of its members was polled.
#[derive(Clone, Copy, Debug, PartialEq, Eq, Structural)]
pub enum SequentialStep {
    /// The polled member is not done: suspend until it wakes the composite.
    Suspend,
    /// The polled member is done: poll the member with this index next.
    Poll(usize),
    /// The last member is done: the composite resolves.
    Resolve,
}

/// The cursor of a sequential composite over `len` members after the member
/// under `cursor` was polled and found resolved or not.
pub open spec fn cursor_after_poll(len: nat, cursor: nat, resolved: bool) -> nat {
    if cursor < len && resolved {
        cursor + 1
    } else {
        cursor
    }
}

/// The cursor after the composite has polled its way through `polls`, each
/// entry telling whether the member polled at that step had resolved.
pub open spec fn cursor_after(len: nat, polls: Seq<bool>) -> nat
    decreases polls.len(),
{
    if polls.len() == 0 {
        0
    } else {
        cursor_after_poll(len, cursor_after(len, polls.drop_last()), polls.last())
    }
}

/// Runs its members one at a time, in list order. It tracks only which member
/// is current; the members themselves are polled by the caller.
pub struct ExecuteSequential {
    len: usize,
    cursor: usize,
}

impl ExecuteSequential {
    /// The number of members.
    pub closed spec fn len(&self) -> nat {
        self.len as nat
    }

    /// The index of the current member; `len()` once all have resolved.
    pub closed spec fn cursor(&self) -> nat {
        self.cursor as nat
    }

    /// The cursor never runs past the end.
    pub open spec fn well_formed(&self) -> bool {
        self.cursor() <= self.len()
    }

    /// A composite over `len` members, about to poll the first.
    pub fn new(len: usize) -> (composite: Self)
        ensures
            composite.well_formed(),
            composite.len() == len,
            composite.cursor() == 0,
    {
        ExecuteSequential { len, cursor: 0 }
    }

    /// The member to poll now, or `None` when every member has resolved.
    pub fn current(&self) -> (member: Option<usize>)
        requires
            self.well_formed(),
        ensures
            member == if self.cursor() < self.len() {
                Some(self.cursor() as usize)
            } else {
                None
            },
    {
        if self.cursor < self.len {
            Some(self.cursor)
        } else {
            None
        }
    }

    /// Records the outcome of polling the current member. A member that has
    /// resolved is never polled again; the next one becomes current. Only the
    /// current member is ever named for polling.
    pub fn member_polled(&mut self, resolved: bool) -> (step: SequentialStep)
        requires
            old(self).well_formed(),
        ensures
            final(self).well_formed(),
            final(self).len() == old(self).len(),
            final(self).cursor() == cursor_after_poll(
                old(self).len(),
                old(self).cursor(),
                resolved,
            ),
            step == if final(self).cursor() == final(self).len() {
                SequentialStep::Resolve
            } else if resolved {
                SequentialStep::Poll(final(self).cursor() as usize)
            } else {
                SequentialStep::Suspend
            },
    {
        if self.cursor < self.len && resolved {
            self.cursor = self.cursor + 1;
        }
        if self.cursor == self.len {
            SequentialStep::Resolve
        } else if resolved {
            SequentialStep::Poll(self.cursor)
        } else {
            SequentialStep::Suspend
        }
    }
}

/// The cursor only moves forward, one member at a time.
pub proof fn lemma_cursor_monotone(len: nat, polls: Seq<bool>, earlier: int)
    requires
        0 <= earlier <= polls.len(),
    ensures
        cursor_after(len, polls.take(earlier)) <= cursor_after(len, polls),
        cursor_after(len, polls) <= len,
        cursor_after(len, polls) <= polls.len(),
    decreases polls.len(),
{
    if polls.len() == 0 {
        assert(polls.take(earlier) =~= polls);
    } else if earlier == polls.len() {
        assert(polls.take(earlier) =~= polls);
        lemma_cursor_monotone(len, polls.drop_last(), 0);
    } else {
        assert(polls.drop_last().take(earlier) =~= polls.take(earlier));
        lemma_cursor_monotone(len, polls.drop_last(), earlier);
    }
}

/// Strict ordering of a sequential composite: whenever member `later` is the
/// one being polled, at step `step` of any run, every member before it was
/// polled at an earlier step and had resolved at that step. So no member
/// starts, and none takes a lock, before its predecessor has finished and let
/// go of its own.
pub proof fn lemma_sequential_order(
    len: nat,
    polls: Seq<bool>,
    step: int,
    later: nat,
    before: nat,
) -> (done: int)
    requires
        0 <= step <= polls.len(),
        cursor_after(len, polls.take(step)) == later,
        before < later,
    ensures
        0 <= done < step,
        cursor_after(len, polls.take(done)) == before,
        polls[done],
    decreases step,
{
    // The cursor is 0 before the first poll, so `step` is not 0.
    assert(polls.take(0).len() == 0);
    let previous: int = step - 1;
    assert(polls.take(step).drop_last() =~= polls.take(previous));
    assert(polls.take(step).last() == polls[previous]);
    let cursor: nat = cursor_after(len, polls.take(previous));
    if cursor == later {
        lemma_sequential_order(len, polls, previous, later, before)
    } else if cursor == before {
        previous
    } else {
        lemma_sequential_order(len, polls, previous, cursor, before)
    }
}

/// A member that has resolved is never polled again.
pub proof fn lemma_resolved_member_is_left(len: nat, polls: Seq<bool>, done: int, step: int)
    requires
        0 <= done < step <= polls.len(),
        cursor_after(len, polls.take(done)) < len,
        polls[done],
    ensures
        cursor_after(len, polls.take(step)) > cursor_after(len, polls.take(done)),
{
    assert(polls.take(done + 1).drop_last() =~= polls.take(done));
    assert(polls.take(done + 1).last() == polls[done]);
    assert(polls.take(step).take(done + 1) =~= polls.take(done + 1));
    lemma_cursor_monotone(len, polls.take(step), done + 1);
}

} // verus!
