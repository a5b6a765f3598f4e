use vstd::prelude::*;

verus! {

/// What the frame loop does at a frame boundary.
#[derive(Clone, Copy, Debug, PartialEq, Eq, Structural)]
pub enum FrameStep {
    /// Build and run another frame.
    Continue,
    /// Stop: no further frame begins.
    Break,
}

/// Whether the loop is still running after the boundaries in `checks`, each
/// entry telling whether that boundary saw the termination flag set.
pub open spec fn running_after(checks: Seq<bool>) -> bool
    decreases checks.len(),
{
    if checks.len() == 0 {
        true
    } else {
        running_after(checks.drop_last()) && !checks.last()
    }
}

/// Whether frame number `frame`, counted from 0, begins when the boundaries
/// read the flag as in `checks`.
pub open spec fn frame_begins(checks: Seq<bool>, frame: int) -> bool {
    0 <= frame <= checks.len() && running_after(checks.take(frame))
}

/// The frame loop between two frames: it runs frame after frame and looks at
/// the termination flag once at every frame boundary.
pub struct FrameLoop {
    running: bool,
}

impl FrameLoop {
    /// Whether another frame may begin.
    pub closed spec fn running(&self) -> bool {
        self.running
    }

    /// A loop about to run its first frame.
    pub fn new() -> (frames: Self)
        ensures
            frames.running(),
    {
        FrameLoop { running: true }
    }

    /// Whether another frame may begin.
    pub fn is_running(&self) -> (running: bool)
        ensures
            running == self.running(),
    {
        self.running
    }

    /// The decision at the boundary after a frame has run to completion.
    /// `termination_requested` is the flag as read at this boundary. A loop
    /// that has stopped stays stopped.
    pub fn frame_finished(&mut self, termination_requested: bool) -> (step: FrameStep)
        ensures
            final(self).running() == (old(self).running() && !termination_requested),
            step == if final(self).running() {
                FrameStep::Continue
            } else {
                FrameStep::Break
            },
    {
        if termination_requested {
            self.running = false;
        }
        if self.running {
            FrameStep::Continue
        } else {
            FrameStep::Break
        }
    }
}

/// The loop is running exactly as long as no boundary has seen the flag.
pub proof fn lemma_running_until_seen(checks: Seq<bool>)
    ensures
        running_after(checks) <==> forall|boundary: int|
            0 <= boundary < checks.len() ==> !checks[boundary],
    decreases checks.len(),
{
    if checks.len() > 0 {
        lemma_running_until_seen(checks.drop_last());
        assert forall|boundary: int|
            0 <= boundary < checks.len() - 1 implies checks.drop_last()[boundary]
            == checks[boundary] by {}
        if running_after(checks) {
            assert forall|boundary: int| 0 <= boundary < checks.len() implies !checks[boundary] by {
                if boundary < checks.len() - 1 {
                    assert(checks.drop_last()[boundary] == checks[boundary]);
                }
            }
        }
    }
}

/// Cooperative termination. The flag only ever goes from unset to set, so the
/// boundaries read it as unset up to some boundary `seen_from` and as set
/// from there on. Then every frame up to and including number `seen_from`
/// begins, and no later one does. A request made during frame `k` is seen at
/// the boundary after frame `k` or, when it comes too late for that, at the
/// next: frame `k + 1` may or may not run, frame `k + 2` never begins.
pub proof fn lemma_termination_cooperativity(checks: Seq<bool>, seen_from: int, frame: int)
    requires
        0 <= seen_from,
        0 <= frame <= checks.len(),
        forall|boundary: int|
            0 <= boundary < checks.len() ==> (checks[boundary] <==> boundary >= seen_from),
    ensures
        frame_begins(checks, frame) <==> frame <= seen_from,
{
    lemma_running_until_seen(checks.take(frame));
    if frame > seen_from {
        assert(checks.take(frame)[seen_from] == checks[seen_from]);
    }
}

} // verus!
