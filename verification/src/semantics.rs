//! The mathematical meaning of ticking a behavior tree.
//!
//! `tick_of` gives the result and the context after one tick of any node, as a
//! function of the node and the context alone.  `run_of` iterates it through the
//! returned continuations, which models driving a tree across many ticks.  The
//! executable interpreter is proved equal to these functions, and the algebraic
//! laws of the combinators are proved about them.

use vstd::prelude::*;
use std::sync::Arc;
use crate::BehaviorArc;
use crate::Behavior;
use crate::BehaviorNode;
use crate::BehaviorRunner;
use crate::NodeResult;
use crate::composite::Inverter;
use crate::composite::Repeated;
use crate::composite::SelectorResume;
use crate::composite::SequenceResume;
use crate::composite::Succeeder;

verus! {

/// The node a shared handle designates.
pub open spec fn node_of<L>(a: BehaviorArc<L>) -> Behavior<L> {
    *a
}

/// One tick of a node against context `b`: the result and the context after.
pub open spec fn tick_of<B, L: BehaviorNode<B>>(n: Behavior<L>, b: B) -> (NodeResult<L>, B)
    decreases n, 0int,
{
    match n {
        Behavior::Leaf(l) => l.spec_tick(b),
        Behavior::Sequence(s) => seq_scan_of(s.sub, 0, b),
        Behavior::SequenceResume(sr) => {
            let (r, b1) = tick_of(*sr.resume, b);
            match r {
                NodeResult::Success => seq_scan_of(sr.seq, sr.index + 1, b1),
                NodeResult::Failure => (NodeResult::Failure, b1),
                NodeResult::Running(c) => (
                    NodeResult::Running(
                        Arc::new(
                            Behavior::SequenceResume(
                                SequenceResume { seq: sr.seq, resume: c, index: sr.index },
                            ),
                        ),
                    ),
                    b1,
                ),
            }
        },
        Behavior::Selector(s) => sel_scan_of(s.sub, 0, b),
        Behavior::SelectorResume(sr) => {
            let (r, b1) = tick_of(*sr.resume, b);
            match r {
                NodeResult::Failure => sel_scan_of(sr.seq, sr.index + 1, b1),
                NodeResult::Success => (NodeResult::Success, b1),
                NodeResult::Running(c) => (
                    NodeResult::Running(
                        Arc::new(
                            Behavior::SelectorResume(
                                SelectorResume { seq: sr.seq, resume: c, index: sr.index },
                            ),
                        ),
                    ),
                    b1,
                ),
            }
        },
        Behavior::Inverter(inv) => {
            let (r, b1) = tick_of(*inv.child, b);
            match r {
                NodeResult::Success => (NodeResult::Failure, b1),
                NodeResult::Failure => (NodeResult::Success, b1),
                NodeResult::Running(c) => (
                    NodeResult::Running(Arc::new(Behavior::Inverter(Inverter { child: c }))),
                    b1,
                ),
            }
        },
        Behavior::Succeeder(s) => {
            match s.child {
                None => (NodeResult::Success, b),
                Some(c) => {
                    let (r, b1) = tick_of(*c, b);
                    match r {
                        NodeResult::Running(cc) => (
                            NodeResult::Running(
                                Arc::new(Behavior::Succeeder(Succeeder { child: Some(cc) })),
                            ),
                            b1,
                        ),
                        _ => (NodeResult::Success, b1),
                    }
                },
            }
        },
        Behavior::Repeated(rep) => {
            match rep.resume {
                Some(res) => {
                    let (r, b1) = tick_of(*res, b);
                    match r {
                        NodeResult::Running(c) => (
                            NodeResult::Running(
                                Arc::new(
                                    Behavior::Repeated(
                                        Repeated { child: rep.child, resume: Some(c) },
                                    ),
                                ),
                            ),
                            b1,
                        ),
                        _ => {
                            let (r2, b2) = tick_of(*rep.child, b1);
                            match r2 {
                                NodeResult::Running(c) => (
                                    NodeResult::Running(
                                        Arc::new(
                                            Behavior::Repeated(
                                                Repeated { child: rep.child, resume: Some(c) },
                                            ),
                                        ),
                                    ),
                                    b2,
                                ),
                                _ => (
                                    NodeResult::Running(
                                        Arc::new(
                                            Behavior::Repeated(
                                                Repeated { child: rep.child, resume: None },
                                            ),
                                        ),
                                    ),
                                    b2,
                                ),
                            }
                        },
                    }
                },
                None => {
                    let (r2, b2) = tick_of(*rep.child, b);
                    match r2 {
                        NodeResult::Running(c) => (
                            NodeResult::Running(
                                Arc::new(
                                    Behavior::Repeated(Repeated { child: rep.child, resume: Some(c) }),
                                ),
                            ),
                            b2,
                        ),
                        _ => (
                            NodeResult::Running(
                                Arc::new(
                                    Behavior::Repeated(Repeated { child: rep.child, resume: None }),
                                ),
                            ),
                            b2,
                        ),
                    }
                },
            }
        },
    }
}

/// Ticking the children of a `Sequence` in order, starting at slot `j`:
/// a failing child fails the whole scan, a running child suspends it, and the
/// scan succeeds once every remaining child has succeeded.
pub open spec fn seq_scan_of<B, L: BehaviorNode<B>>(
    children: Arc<Vec<BehaviorArc<L>>>,
    j: int,
    b: B,
) -> (NodeResult<L>, B)
    decreases children@, children@.len() - j,
{
    if j < 0 || j >= children@.len() {
        (NodeResult::Success, b)
    } else {
        let (r, b1) = tick_of(*children@[j], b);
        match r {
            NodeResult::Success => seq_scan_of(children, j + 1, b1),
            NodeResult::Failure => (NodeResult::Failure, b1),
            NodeResult::Running(c) => (
                NodeResult::Running(
                    Arc::new(
                        Behavior::SequenceResume(
                            SequenceResume { seq: children, resume: c, index: j as usize },
                        ),
                    ),
                ),
                b1,
            ),
        }
    }
}

/// Ticking the children of a `Selector` in order, starting at slot `j`:
/// a succeeding child succeeds the whole scan, a running child suspends it, and
/// the scan fails once every remaining child has failed.
pub open spec fn sel_scan_of<B, L: BehaviorNode<B>>(
    children: Arc<Vec<BehaviorArc<L>>>,
    j: int,
    b: B,
) -> (NodeResult<L>, B)
    decreases children@, children@.len() - j,
{
    if j < 0 || j >= children@.len() {
        (NodeResult::Failure, b)
    } else {
        let (r, b1) = tick_of(*children@[j], b);
        match r {
            NodeResult::Failure => sel_scan_of(children, j + 1, b1),
            NodeResult::Success => (NodeResult::Success, b1),
            NodeResult::Running(c) => (
                NodeResult::Running(
                    Arc::new(
                        Behavior::SelectorResume(
                            SelectorResume { seq: children, resume: c, index: j as usize },
                        ),
                    ),
                ),
                b1,
            ),
        }
    }
}

/// Up to `k` ticks of `n` from context `b`, each tick continuing from the
/// continuation the previous one returned.  The run stops early at the first
/// terminal result, so for any `k` at or past that point the value is that
/// terminal result and the context it was reached in.  `k` is at least 1.
pub open spec fn run_of<B, L: BehaviorNode<B>>(n: Behavior<L>, b: B, k: nat) -> (NodeResult<L>, B)
    decreases k,
{
    let (r, b1) = tick_of(n, b);
    if k <= 1 {
        (r, b1)
    } else {
        match r {
            NodeResult::Running(c) => run_of(*c, b1, (k - 1) as nat),
            _ => (r, b1),
        }
    }
}

/// `n`, run from `b`, reaches its terminal result exactly at tick `j`.
pub open spec fn stops_at<B, L: BehaviorNode<B>>(n: Behavior<L>, b: B, j: nat) -> bool {
    &&& j >= 1
    &&& !(run_of(n, b, j).0 is Running)
    &&& (j > 1 ==> run_of(n, b, (j - 1) as nat).0 is Running)
}

/// Two nodes that tick alike run alike: one tick determines the whole run.
pub proof fn lemma_run_same_tick<B, L: BehaviorNode<B>>(m: Behavior<L>, n: Behavior<L>, b: B, k: nat)
    requires
        k >= 1,
        tick_of(m, b) == tick_of(n, b),
    ensures
        run_of(m, b, k) == run_of(n, b, k),
{
}

/// A run that has reached a terminal result keeps it: later ticks change nothing.
pub proof fn lemma_run_frozen<B, L: BehaviorNode<B>>(n: Behavior<L>, b: B, k: nat, k2: nat)
    requires
        1 <= k <= k2,
        !(run_of(n, b, k).0 is Running),
    ensures
        run_of(n, b, k2) == run_of(n, b, k),
    decreases k2,
{
    let (r, b1) = tick_of(n, b);
    if r is Running {
        if k == 1 {
        } else {
            lemma_run_frozen(node_of(r->Running_0), b1, (k - 1) as nat, (k2 - 1) as nat);
        }
    }
}

/// After a running first tick, the rest of the run is the run of the continuation.
pub proof fn lemma_run_shift<B, L: BehaviorNode<B>>(n: Behavior<L>, b: B, k: nat)
    requires
        k >= 1,
        tick_of(n, b).0 is Running,
    ensures
        run_of(n, b, k + 1) == run_of(*tick_of(n, b).0->Running_0, tick_of(n, b).1, k),
{
}

/// A run that keeps running for `k` ticks and then continues for `j` more is
/// the run of the continuation it reached.
pub proof fn lemma_run_split<B, L: BehaviorNode<B>>(n: Behavior<L>, b: B, k: nat, j: nat)
    requires
        k >= 1,
        j >= 1,
        run_of(n, b, k).0 is Running,
    ensures
        run_of(n, b, k + j) == run_of(*run_of(n, b, k).0->Running_0, run_of(n, b, k).1, j),
    decreases k,
{
    let (r, b1) = tick_of(n, b);
    if k == 1 {
    } else {
        if r is Running {
            lemma_run_split(node_of(r->Running_0), b1, (k - 1) as nat, j);
        }
    }
}

/// A run that has terminated by tick `k` stopped at an exact tick `j` at or
/// before `k`, and the run's value is the value at `j`.
pub proof fn lemma_terminates_has_stop<B, L: BehaviorNode<B>>(n: Behavior<L>, b: B, k: nat) -> (j: nat)
    requires
        k >= 1,
        !(run_of(n, b, k).0 is Running),
    ensures
        1 <= j <= k,
        stops_at(n, b, j),
        run_of(n, b, j) == run_of(n, b, k),
    decreases k,
{
    if k == 1 {
        1
    } else {
        if !(run_of(n, b, (k - 1) as nat).0 is Running) {
            let j = lemma_terminates_has_stop(n, b, (k - 1) as nat);
            lemma_run_frozen(n, b, (k - 1) as nat, k);
            j
        } else {
            k
        }
    }
}

/// The exact stop of a running first tick shifts to the continuation, one tick
/// earlier.
pub proof fn lemma_stops_shift<B, L: BehaviorNode<B>>(n: Behavior<L>, b: B, j: nat)
    requires
        tick_of(n, b).0 is Running,
        stops_at(n, b, j),
    ensures
        j >= 2,
        stops_at(*tick_of(n, b).0->Running_0, tick_of(n, b).1, (j - 1) as nat),
        run_of(*tick_of(n, b).0->Running_0, tick_of(n, b).1, (j - 1) as nat) == run_of(n, b, j),
{
    assert(run_of(n, b, 1) == tick_of(n, b));
    if j == 1 {
        assert(false);
    }
    lemma_run_shift(n, b, (j - 1) as nat);
    if j - 1 > 1 {
        lemma_run_shift(n, b, (j - 2) as nat);
    }
}

/// The node a runner stands on: its saved continuation when suspended, the
/// tree root when idle.
pub open spec fn runner_node<L>(runner: BehaviorRunner<L>) -> Behavior<L> {
    match runner.current_tick {
        Some(c) => *c,
        None => *runner.tree,
    }
}

/// One call of `BehaviorRunner::proceed`: the runner after, the verdict
/// reported to the caller, and the context after.
pub open spec fn proceed_of<B, L: BehaviorNode<B>>(
    runner: BehaviorRunner<L>,
    b: B,
) -> (BehaviorRunner<L>, Option<bool>, B) {
    let (r, b1) = tick_of(runner_node(runner), b);
    match r {
        NodeResult::Running(c) => (
            BehaviorRunner { tree: runner.tree, current_tick: Some(c) },
            None,
            b1,
        ),
        NodeResult::Success => (
            BehaviorRunner { tree: runner.tree, current_tick: None },
            Some(true),
            b1,
        ),
        NodeResult::Failure => (
            BehaviorRunner { tree: runner.tree, current_tick: None },
            Some(false),
            b1,
        ),
    }
}

/// `k` calls of `proceed`, threading the runner and the context.  The value is
/// the runner, the verdict and the context as of the `k`-th call.
pub open spec fn drive_of<B, L: BehaviorNode<B>>(
    runner: BehaviorRunner<L>,
    b: B,
    k: nat,
) -> (BehaviorRunner<L>, Option<bool>, B)
    decreases k,
{
    let (r1, out, b1) = proceed_of(runner, b);
    if k <= 1 {
        (r1, out, b1)
    } else {
        drive_of(r1, b1, (k - 1) as nat)
    }
}

/// Suspension and resumption are transparent to the runner's caller: as long
/// as no verdict has been reached, driving a runner `k` times is exactly the
/// `k`-tick run of the node it stands on — the same contexts, and the verdict
/// the run's terminal result maps to (`None` while running, `Some(true)` for
/// success, `Some(false)` for failure).  Ticking a tree to a running result
/// and then ticking the returned continuation is indistinguishable, from
/// outside, from the one uninterrupted run.
pub proof fn lemma_runner_transparent<B, L: BehaviorNode<B>>(
    runner: BehaviorRunner<L>,
    b: B,
    k: nat,
)
    requires
        k >= 1,
        forall|i: nat| 1 <= i < k ==> #[trigger] run_of(runner_node(runner), b, i).0 is Running,
    ensures
        ({
            let (rk, bk) = run_of(runner_node(runner), b, k);
            drive_of(runner, b, k) == match rk {
                NodeResult::Running(c) => (
                    BehaviorRunner { tree: runner.tree, current_tick: Some(c) },
                    None::<bool>,
                    bk,
                ),
                NodeResult::Success => (
                    BehaviorRunner { tree: runner.tree, current_tick: None },
                    Some(true),
                    bk,
                ),
                NodeResult::Failure => (
                    BehaviorRunner { tree: runner.tree, current_tick: None },
                    Some(false),
                    bk,
                ),
            }
        }),
    decreases k,
{
    let n = runner_node(runner);
    let (r1, b1) = tick_of(n, b);
    if k > 1 {
        assert(run_of(n, b, 1).0 is Running);
        assert(run_of(n, b, 1) == tick_of(n, b));
        let next = BehaviorRunner { tree: runner.tree, current_tick: Some(r1->Running_0) };
        assert(runner_node(next) == node_of(r1->Running_0));
        assert forall|i: nat| 1 <= i < k - 1 implies #[trigger] run_of(
            runner_node(next),
            b1,
            i,
        ).0 is Running by {
            lemma_run_shift(n, b, i);
        }
        lemma_runner_transparent(next, b1, (k - 1) as nat);
        lemma_run_shift(n, b, (k - 1) as nat);
    }
}

/// Determinism: what a runner does is a function of its tree, its saved
/// continuation and the context alone, so two runners in the same state,
/// driven with the same context, report the same verdicts at every step and
/// leave the context in the same states.  In particular, repeated full runs
/// from idle over one shared tree replay the same sequence of results.
pub proof fn lemma_runner_deterministic<B, L: BehaviorNode<B>>(
    r1: BehaviorRunner<L>,
    r2: BehaviorRunner<L>,
    b1: B,
    b2: B,
    k: nat,
)
    requires
        k >= 1,
        r1.tree == r2.tree,
        r1.current_tick == r2.current_tick,
        b1 == b2,
    ensures
        drive_of(r1, b1, k) == drive_of(r2, b2, k),
{
    assert(r1 == r2);
}

} // verus!
