//! `Inverter`: the logical NOT over one child node.

use vstd::prelude::*;
use std::sync::Arc;
use crate::Behavior;
use crate::BehaviorArc;
use crate::BehaviorNode;
use crate::NodeResult;
use crate::semantics::node_of;
use crate::semantics::run_of;
use crate::semantics::tick_of;

verus! {

/// Inverts the result of its child.
///
/// Success becomes failure, failure success; a running child keeps running,
/// wrapped in a new inverter.
#[derive(Debug)]
pub struct Inverter<L> {
    /// The child whose result is inverted.
    pub child: BehaviorArc<L>,
}

impl<L> Inverter<L> {
    /// An inverter over `child`.
    pub fn new(child: BehaviorArc<L>) -> (i: Self)
        ensures
            i.child == child,
    {
        Inverter { child }
    }

    /// This inverter as a shared behavior node.
    pub fn arc(self) -> (a: BehaviorArc<L>)
        ensures
            *a == Behavior::Inverter(self),
    {
        Arc::new(Behavior::Inverter(self))
    }
}

/// A doubly inverted node, as a spec value.
pub open spec fn double_inverted<L>(a: Behavior<L>) -> Behavior<L> {
    Behavior::Inverter(
        Inverter { child: Arc::new(Behavior::Inverter(Inverter { child: Arc::new(a) })) },
    )
}

/// Inversion is an involution: a run of `Inverter(Inverter(a))` reaches the same
/// terminal result in the same context as a run of `a` — the two swaps cancel —
/// and while `a` is still running, the doubled run is running too, its
/// continuation being `a`'s continuation under the same double inversion.
pub proof fn lemma_inverter_involution<B, L: BehaviorNode<B>>(a: Behavior<L>, b: B, k: nat)
    requires
        k >= 1,
    ensures
        run_of(a, b, k).1 == run_of(double_inverted(a), b, k).1,
        !(run_of(a, b, k).0 is Running) ==> run_of(double_inverted(a), b, k).0 == run_of(
            a,
            b,
            k,
        ).0,
        run_of(a, b, k).0 is Running ==> run_of(double_inverted(a), b, k).0
            == NodeResult::<L>::Running(
            Arc::new(
                Behavior::Inverter(
                    Inverter {
                        child: Arc::new(
                            Behavior::Inverter(Inverter { child: run_of(a, b, k).0->Running_0 }),
                        ),
                    },
                ),
            ),
        ),
    decreases k,
{
    reveal_with_fuel(crate::semantics::tick_of, 3);
    let (r, b1) = tick_of(a, b);
    if r is Running {
        assert(Arc::new(node_of(r->Running_0)) == r->Running_0);
        if k > 1 {
            lemma_inverter_involution(node_of(r->Running_0), b1, (k - 1) as nat);
        }
    }
}

} // verus!
