//! `Succeeder`: coerces any terminal result of its child to success.

use vstd::prelude::*;
use std::sync::Arc;
use crate::Behavior;
use crate::BehaviorArc;
use crate::BehaviorNode;
use crate::semantics::node_of;
use crate::semantics::run_of;
use crate::semantics::tick_of;

verus! {

/// Always succeeds.
///
/// With no child it succeeds at once, which makes it a trivial placeholder.
/// With a child, success and failure of the child both become success; a
/// running child keeps running, wrapped in a new succeeder.
#[derive(Debug)]
pub struct Succeeder<L> {
    /// The child whose terminal result is coerced, if there is one.
    pub child: Option<BehaviorArc<L>>,
}

impl<L> Succeeder<L> {
    /// A succeeder over `child`.
    pub fn new(child: BehaviorArc<L>) -> (s: Self)
        ensures
            s.child == Some(child),
    {
        Succeeder { child: Some(child) }
    }

    /// This succeeder as a shared behavior node.
    pub fn arc(self) -> (a: BehaviorArc<L>)
        ensures
            *a == Behavior::Succeeder(self),
    {
        Arc::new(Behavior::Succeeder(self))
    }
}

/// A succeeder never fails: however many ticks a run is driven, and whatever
/// the child and the context do, no result is `Failure`.
pub proof fn lemma_succeeder_never_fails<B, L: BehaviorNode<B>>(s: Succeeder<L>, b: B, k: nat)
    requires
        k >= 1,
    ensures
        !(run_of(Behavior::Succeeder(s), b, k).0 is Failure),
    decreases k,
{
    let n = Behavior::Succeeder(s);
    let (r, b1) = tick_of(n, b);
    assert(!(r is Failure));
    assert(r is Running ==> node_of(r->Running_0) is Succeeder);
    if k > 1 && r is Running {
        lemma_succeeder_never_fails(node_of(r->Running_0)->Succeeder_0, b1, (k - 1) as nat);
    }
}

impl<L> Default for Succeeder<L> {
    /// A succeeder with no child: it succeeds at once.
    fn default() -> (s: Self)
        ensures
            s.child is None,
    {
        Succeeder { child: None }
    }
}

} // verus!
