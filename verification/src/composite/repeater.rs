//! `Repeated`: the unconditional loop over one child node.

use vstd::prelude::*;
use std::sync::Arc;
use crate::Behavior;
use crate::BehaviorArc;
use crate::BehaviorNode;
use crate::semantics::node_of;
use crate::semantics::run_of;
use crate::semantics::tick_of;

verus! {

/// Repeats its child forever.
///
/// Each tick advances the child, through its saved continuation when one is
/// held; whenever the child reaches success or failure, a fresh pass of the
/// same child begins.  A repeater never reports success or failure to its
/// parent: every tick returns a running result.
#[derive(Debug)]
pub struct Repeated<L> {
    /// The continuation of the current pass, if the child was left running.
    pub resume: Option<BehaviorArc<L>>,
    /// The child to repeat.
    pub child: BehaviorArc<L>,
}

impl<L> Repeated<L> {
    /// A repeater over `child`, starting a fresh pass.
    pub fn new(child: BehaviorArc<L>) -> (r: Self)
        ensures
            r.child == child,
            r.resume is None,
    {
        Repeated { child, resume: None }
    }

    /// This repeater as a shared behavior node.
    pub fn arc(self) -> (a: BehaviorArc<L>)
        ensures
            *a == Behavior::Repeated(self),
    {
        Arc::new(Behavior::Repeated(self))
    }
}

/// A repeater never terminates: however many ticks a run is driven, and
/// whatever the child and the context do, every result is `Running` — success
/// and failure of the child only start the next pass.
pub proof fn lemma_repeated_never_terminates<B, L: BehaviorNode<B>>(rep: Repeated<L>, b: B, k: nat)
    requires
        k >= 1,
    ensures
        run_of(Behavior::Repeated(rep), b, k).0 is Running,
        node_of(run_of(Behavior::Repeated(rep), b, k).0->Running_0) is Repeated,
    decreases k,
{
    let n = Behavior::Repeated(rep);
    let (r, b1) = tick_of(n, b);
    assert(r is Running && node_of(r->Running_0) is Repeated);
    if k > 1 {
        lemma_repeated_never_terminates(node_of(r->Running_0)->Repeated_0, b1, (k - 1) as nat);
    }
}

/// A bounded repeater: meant to behave like [`Repeated`] but to terminate after
/// the child has completed `limit` passes.
///
/// The type is declared, but it is not a [`Behavior`] variant and has no tick
/// rule: whether a pass counts only when the child succeeds, or on any terminal
/// result, is a design question this crate deliberately leaves open rather than
/// settle by guessing.
#[derive(Debug)]
pub struct LimitedRepeated<L> {
    /// The child to repeat.
    pub child: BehaviorArc<L>,
    /// How many passes to run before terminating.
    pub limit: usize,
    /// How many passes have completed.
    pub completed: usize,
}

/// A conditional repeater: meant to behave like [`Repeated`] but to terminate
/// with success the first time the child fails.
///
/// The type is declared, but it is not a [`Behavior`] variant and has no tick
/// rule, for the same reason as [`LimitedRepeated`].
#[derive(Debug)]
pub struct RepeatedUntilFailure<L> {
    /// The child to repeat.
    pub child: BehaviorArc<L>,
}

} // verus!
