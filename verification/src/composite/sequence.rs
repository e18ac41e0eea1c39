//! `Sequence`: the ordered logical AND over child nodes.

use vstd::prelude::*;
use std::sync::Arc;
use crate::Behavior;
use crate::BehaviorArc;
use crate::BehaviorNode;
use crate::NodeResult;
use crate::semantics::lemma_run_frozen;
use crate::semantics::lemma_run_shift;
use crate::semantics::lemma_run_split;
use crate::semantics::lemma_run_same_tick;
use crate::semantics::lemma_stops_shift;
use crate::semantics::lemma_terminates_has_stop;
use crate::semantics::node_of;
use crate::semantics::run_of;
use crate::semantics::seq_scan_of;
use crate::semantics::stops_at;
use crate::semantics::tick_of;

verus! {

/// Ticks its children in order.  A failing child fails the sequence at once;
/// later children are not ticked.  A running child suspends the sequence, which
/// resumes at that child on the next tick.  The sequence succeeds once every
/// child has succeeded.
#[derive(Debug)]
pub struct Sequence<L> {
    /// The children, in execution order, fixed at construction.
    pub sub: Arc<Vec<BehaviorArc<L>>>,
}

/// The continuation of a suspended [`Sequence`]: the children, the slot of the
/// child that was running, and that child's own continuation.  Constructed by
/// the engine when a child of a sequence suspends.
#[derive(Debug)]
pub struct SequenceResume<L> {
    /// The children of the suspended sequence.
    pub seq: Arc<Vec<BehaviorArc<L>>>,
    /// The continuation of the child at slot `index`.
    pub resume: BehaviorArc<L>,
    /// The slot the scan was suspended at.
    pub index: usize,
}

impl<L> Sequence<L> {
    /// A sequence over `children`, ticked in the order given.
    pub fn new(children: Vec<BehaviorArc<L>>) -> (s: Self)
        ensures
            *s.sub == children,
    {
        Sequence { sub: Arc::new(children) }
    }

    /// This sequence as a shared behavior node.
    pub fn arc(self) -> (a: BehaviorArc<L>)
        ensures
            *a == Behavior::Sequence(self),
    {
        Arc::new(Behavior::Sequence(self))
    }

    /// The continuation node that resumes `seq` at slot `index` through `resume`.
    pub(crate) fn resume(
        seq: Arc<Vec<BehaviorArc<L>>>,
        index: usize,
        resume: BehaviorArc<L>,
    ) -> (a: BehaviorArc<L>)
        ensures
            *a == Behavior::SequenceResume(SequenceResume { seq, resume, index }),
    {
        Arc::new(Behavior::SequenceResume(SequenceResume { seq, resume, index }))
    }
}

/// The child of `s` at slot `i`.
pub open spec fn seq_child<L>(s: Sequence<L>, i: int) -> Behavior<L> {
    *s.sub@[i]
}

/// The continuation node that resumes `children` at slot `index` through `resume`.
pub open spec fn seq_resume_node<L>(
    children: Arc<Vec<BehaviorArc<L>>>,
    index: usize,
    resume: BehaviorArc<L>,
) -> Behavior<L> {
    Behavior::SequenceResume(SequenceResume { seq: children, resume, index })
}

/// A sequence with no children succeeds at once, leaving the context alone.
pub proof fn lemma_sequence_empty<B, L: BehaviorNode<B>>(s: Sequence<L>, b: B)
    requires
        s.sub@.len() == 0,
    ensures
        tick_of(Behavior::Sequence(s), b) == (NodeResult::<L>::Success, b),
{
    assert(seq_scan_of(s.sub, 0, b) == (NodeResult::<L>::Success, b));
}

/// While the resumed child's run fails, the suspended sequence fails with it,
/// at the same tick and in the same context: the later children contribute
/// nothing.
pub proof fn lemma_sequence_resume_fails<B, L: BehaviorNode<B>>(
    children: Arc<Vec<BehaviorArc<L>>>,
    index: usize,
    m: BehaviorArc<L>,
    b: B,
    k: nat,
)
    requires
        k >= 1,
        run_of(*m, b, k).0 is Failure,
    ensures
        run_of(seq_resume_node(children, index, m), b, k) == (
            NodeResult::<L>::Failure,
            run_of(*m, b, k).1,
        ),
    decreases k,
{
    let (r, b1) = tick_of(node_of(m), b);
    if k > 1 && r is Running {
        lemma_sequence_resume_fails(children, index, r->Running_0, b1, (k - 1) as nat);
    }
}

/// While the resumed child's run keeps running, the suspended sequence keeps
/// running too, its continuation resuming the same slot through the child's
/// new continuation.
pub proof fn lemma_sequence_resume_running<B, L: BehaviorNode<B>>(
    children: Arc<Vec<BehaviorArc<L>>>,
    index: usize,
    m: BehaviorArc<L>,
    b: B,
    k: nat,
)
    requires
        k >= 1,
        run_of(*m, b, k).0 is Running,
    ensures
        run_of(seq_resume_node(children, index, m), b, k) == (
            NodeResult::<L>::Running(
                Arc::new(seq_resume_node(children, index, run_of(*m, b, k).0->Running_0)),
            ),
            run_of(*m, b, k).1,
        ),
    decreases k,
{
    let (r, b1) = tick_of(node_of(m), b);
    if k > 1 && r is Running {
        lemma_sequence_resume_running(children, index, r->Running_0, b1, (k - 1) as nat);
    }
}

/// When the resumed child's run succeeds, exactly at tick `j`, the suspended
/// sequence spends that tick scanning the children after `index`, from the
/// context the child ended in.
pub proof fn lemma_sequence_resume_succeeds<B, L: BehaviorNode<B>>(
    children: Arc<Vec<BehaviorArc<L>>>,
    index: usize,
    m: BehaviorArc<L>,
    b: B,
    j: nat,
)
    requires
        stops_at(*m, b, j),
        run_of(*m, b, j).0 is Success,
    ensures
        run_of(seq_resume_node(children, index, m), b, j) == seq_scan_of(
            children,
            index + 1,
            run_of(*m, b, j).1,
        ),
    decreases j,
{
    let (r, b1) = tick_of(node_of(m), b);
    if j == 1 {
    } else {
        if !(r is Running) {
            assert(run_of(node_of(m), b, 1) == tick_of(node_of(m), b));
            lemma_run_frozen(node_of(m), b, 1, (j - 1) as nat);
            assert(false);
        }
        lemma_stops_shift(node_of(m), b, j);
        lemma_sequence_resume_succeeds(children, index, r->Running_0, b1, (j - 1) as nat);
    }
}

/// The whole run of a suspended sequence whose resumed child succeeds exactly
/// at tick `j`: at `j` the scan of the later children gives the result; if it
/// suspends again and ticks remain, the run goes on from the scan's
/// continuation.
pub proof fn lemma_sequence_resume_succeeds_run<B, L: BehaviorNode<B>>(
    children: Arc<Vec<BehaviorArc<L>>>,
    index: usize,
    m: BehaviorArc<L>,
    b: B,
    j: nat,
    k: nat,
)
    requires
        stops_at(*m, b, j),
        run_of(*m, b, j).0 is Success,
        k >= j,
    ensures
        ({
            let (rs, bs) = seq_scan_of(children, index + 1, run_of(node_of(m), b, j).1);
            run_of(seq_resume_node(children, index, m), b, k) == if k == j {
                (rs, bs)
            } else {
                match rs {
                    NodeResult::Running(c2) => run_of(*c2, bs, (k - j) as nat),
                    _ => (rs, bs),
                }
            }
        }),
{
    lemma_sequence_resume_succeeds(children, index, m, b, j);
    let n = seq_resume_node(children, index, m);
    let (rs, bs) = seq_scan_of(children, index + 1, run_of(node_of(m), b, j).1);
    if k > j {
        if rs is Running {
            lemma_run_split(n, b, j, (k - j) as nat);
        } else {
            lemma_run_frozen(n, b, j, k);
        }
    }
}

/// A fresh sequence with at least one child runs exactly as the resume node
/// that starts at slot 0 with the first child itself.
pub proof fn lemma_sequence_fresh_as_resume<B, L: BehaviorNode<B>>(s: Sequence<L>, b: B, k: nat)
    requires
        k >= 1,
        s.sub@.len() >= 1,
    ensures
        run_of(Behavior::Sequence(s), b, k) == run_of(
            seq_resume_node(s.sub, 0, s.sub@[0]),
            b,
            k,
        ),
{
    let m = Behavior::Sequence(s);
    let n = seq_resume_node(s.sub, 0, s.sub@[0]);
    let (r0, b0) = tick_of(node_of(s.sub@[0]), b);
    assert(tick_of(m, b) == seq_scan_of(s.sub, 0, b));
    match r0 {
        NodeResult::Success => {
            assert(tick_of(m, b) == seq_scan_of(s.sub, 1, b0));
            assert(tick_of(n, b) == seq_scan_of(s.sub, 1, b0));
        },
        NodeResult::Failure => {},
        NodeResult::Running(c) => {},
    }
    assert(tick_of(m, b) == tick_of(n, b));
    lemma_run_same_tick(m, n, b, k);
}

/// The AND law, completeness: if the first child's run succeeds, exactly at
/// tick `ka`, and the second child's run from the context the first ended in
/// succeeds, exactly at tick `kb`, then the two-child sequence succeeds, at
/// tick `ka + kb - 1`, in the context the second child ended in.  (The second
/// child's first tick happens inside the sequence's tick `ka`.)
pub proof fn lemma_sequence_and_complete<B, L: BehaviorNode<B>>(
    s: Sequence<L>,
    b: B,
    ka: nat,
    kb: nat,
)
    requires
        s.sub@.len() == 2,
        stops_at(seq_child(s, 0), b, ka),
        run_of(seq_child(s, 0), b, ka).0 is Success,
        stops_at(seq_child(s, 1), run_of(seq_child(s, 0), b, ka).1, kb),
        run_of(seq_child(s, 1), run_of(seq_child(s, 0), b, ka).1, kb).0 is Success,
    ensures
        run_of(Behavior::Sequence(s), b, (ka + kb - 1) as nat) == (
            NodeResult::<L>::Success,
            run_of(seq_child(s, 1), run_of(seq_child(s, 0), b, ka).1, kb).1,
        ),
{
    let bA = run_of(seq_child(s, 0), b, ka).1;
    let k = (ka + kb - 1) as nat;
    lemma_sequence_fresh_as_resume(s, b, k);
    lemma_sequence_resume_succeeds_run(s.sub, 0, s.sub@[0], b, ka, k);
    let (rB, bB) = tick_of(seq_child(s, 1), bA);
    if kb == 1 {
        assert(run_of(seq_child(s, 1), bA, 1) == tick_of(seq_child(s, 1), bA));
        assert(seq_scan_of(s.sub, 2, bB) == (NodeResult::<L>::Success, bB));
        assert(seq_scan_of(s.sub, 1, bA) == (NodeResult::<L>::Success, bB));
    } else {
        if !(rB is Running) {
            assert(run_of(seq_child(s, 1), bA, 1) == tick_of(seq_child(s, 1), bA));
            lemma_run_frozen(seq_child(s, 1), bA, 1, (kb - 1) as nat);
            assert(false);
        }
        let cB = rB->Running_0;
        assert(seq_scan_of(s.sub, 1, bA) == (
            NodeResult::<L>::Running(Arc::new(seq_resume_node(s.sub, 1, cB))),
            bB,
        ));
        lemma_stops_shift(seq_child(s, 1), bA, kb);
        lemma_sequence_resume_succeeds_run(s.sub, 1, cB, bB, (kb - 1) as nat, (kb - 1) as nat);
        assert(seq_scan_of(s.sub, 2, run_of(node_of(cB), bB, (kb - 1) as nat).1) == (
            NodeResult::<L>::Success,
            run_of(node_of(cB), bB, (kb - 1) as nat).1,
        ));
    }
}

/// The AND law, short circuit: while the first child's run fails, the sequence
/// fails at the same tick, and the context is exactly the context the first
/// child failed in — the later children are never ticked.
pub proof fn lemma_sequence_short_circuit<B, L: BehaviorNode<B>>(s: Sequence<L>, b: B, k: nat)
    requires
        s.sub@.len() >= 1,
        k >= 1,
        run_of(seq_child(s, 0), b, k).0 is Failure,
    ensures
        run_of(Behavior::Sequence(s), b, k) == (
            NodeResult::<L>::Failure,
            run_of(seq_child(s, 0), b, k).1,
        ),
{
    lemma_sequence_fresh_as_resume(s, b, k);
    lemma_sequence_resume_fails(s.sub, 0, s.sub@[0], b, k);
}

/// The AND law, soundness: a two-child sequence whose run succeeded within `k`
/// ticks got there in only one way — the first child's run succeeded, exactly
/// at some tick `ka`, and the second child's run from the context the first
/// ended in succeeded, exactly at some tick `kb`, within the ticks that
/// remained; the sequence's final context is the second child's.
pub proof fn lemma_sequence_and_sound<B, L: BehaviorNode<B>>(s: Sequence<L>, b: B, k: nat) -> (t: (
    nat,
    nat,
))
    requires
        s.sub@.len() == 2,
        k >= 1,
        run_of(Behavior::Sequence(s), b, k).0 is Success,
    ensures
        ({
            let (ka, kb) = t;
            let bA = run_of(seq_child(s, 0), b, ka).1;
            &&& stops_at(seq_child(s, 0), b, ka)
            &&& run_of(seq_child(s, 0), b, ka).0 is Success
            &&& stops_at(seq_child(s, 1), bA, kb)
            &&& run_of(seq_child(s, 1), bA, kb).0 is Success
            &&& ka + kb - 1 <= k
            &&& run_of(seq_child(s, 1), bA, kb).1 == run_of(Behavior::Sequence(s), b, k).1
        }),
{
    lemma_sequence_fresh_as_resume(s, b, k);
    if run_of(seq_child(s, 0), b, k).0 is Running {
        lemma_sequence_resume_running(s.sub, 0, s.sub@[0], b, k);
        assert(false);
    }
    let ja = lemma_terminates_has_stop(seq_child(s, 0), b, k);
    if run_of(seq_child(s, 0), b, ja).0 is Failure {
        lemma_sequence_resume_fails(s.sub, 0, s.sub@[0], b, k);
        assert(false);
    }
    let bA = run_of(seq_child(s, 0), b, ja).1;
    lemma_sequence_resume_succeeds_run(s.sub, 0, s.sub@[0], b, ja, k);
    let (rB, bB) = tick_of(seq_child(s, 1), bA);
    match rB {
        NodeResult::Success => {
            assert(run_of(seq_child(s, 1), bA, 1) == tick_of(seq_child(s, 1), bA));
            assert(seq_scan_of(s.sub, 2, bB) == (NodeResult::<L>::Success, bB));
            assert(seq_scan_of(s.sub, 1, bA) == (NodeResult::<L>::Success, bB));
            (ja, 1nat)
        },
        NodeResult::Failure => {
            assert(seq_scan_of(s.sub, 1, bA) == (NodeResult::<L>::Failure, bB));
            assert(false);
            (ja, 1nat)
        },
        NodeResult::Running(cB) => {
            assert(seq_scan_of(s.sub, 1, bA) == (
                NodeResult::<L>::Running(Arc::new(seq_resume_node(s.sub, 1, cB))),
                bB,
            ));
            if k == ja {
                assert(false);
            }
            let krest = (k - ja) as nat;
            if run_of(node_of(cB), bB, krest).0 is Running {
                lemma_sequence_resume_running(s.sub, 1, cB, bB, krest);
                assert(false);
            }
            let jb = lemma_terminates_has_stop(node_of(cB), bB, krest);
            if run_of(node_of(cB), bB, jb).0 is Failure {
                lemma_sequence_resume_fails(s.sub, 1, cB, bB, krest);
                assert(false);
            }
            lemma_sequence_resume_succeeds_run(s.sub, 1, cB, bB, jb, krest);
            let b2 = run_of(node_of(cB), bB, jb).1;
            assert(seq_scan_of(s.sub, 2, b2) == (NodeResult::<L>::Success, b2));
            lemma_run_shift(seq_child(s, 1), bA, jb);
            if jb > 1 {
                lemma_run_shift(seq_child(s, 1), bA, (jb - 1) as nat);
            }
            (ja, jb + 1)
        },
    }
}

} // verus!
