//! A resumable behavior-tree interpreter.
//!
//! A behavior tree is an immutable, shared value: leaves are supplied by the
//! embedding application through the [`BehaviorNode`] capability, and the
//! composite nodes of [`composite`] combine them.  Ticking a node never mutates
//! the tree; a node that needs more than one tick returns a freshly built
//! continuation node inside [`NodeResult::Running`], and ticking that
//! continuation resumes the work exactly where it stopped.  A [`BehaviorRunner`]
//! holds the tree root and the latest continuation and drives one tick per call.
//!
//! The one-tick meaning of every node is the function [`semantics::tick_of`],
//! and the interpreter is proved equal to it; the laws of the combinators are
//! proved in the modules that define them.

use vstd::prelude::*;
use std::sync::Arc;

pub mod composite;
pub mod leaves;
pub mod semantics;

use crate::composite::Inverter;
use crate::composite::Repeated;
use crate::composite::Selector;
use crate::composite::SelectorResume;
use crate::composite::Sequence;
use crate::composite::SequenceResume;
use crate::composite::Succeeder;
use crate::semantics::proceed_of;
use crate::semantics::seq_scan_of;
use crate::semantics::sel_scan_of;
use crate::semantics::tick_of;

verus! {

/// The outcome of ticking a node once.
#[derive(Debug, Clone)]
pub enum NodeResult<L> {
    /// The node needs more ticks.
    ///
    /// This carries the node to tick next: a continuation that resumes the
    /// suspended work.
    Running(BehaviorArc<L>),
    /// The node succeeded.
    Success,
    /// The node failed.
    Failure,
}

/// A shared, immutable behavior node: one tree can back any number of runners.
pub type BehaviorArc<L> = Arc<Behavior<L>>;

/// A behavior node over leaves of type `L`: a leaf supplied by the embedding
/// application, a composite, or a continuation node built by the engine when a
/// composite suspends.
#[derive(Debug)]
pub enum Behavior<L> {
    /// A domain-specific leaf.
    Leaf(L),
    /// The ordered AND combinator.
    Sequence(Sequence<L>),
    /// A suspended [`Sequence`], mid-scan.
    SequenceResume(SequenceResume<L>),
    /// The ordered OR combinator.
    Selector(Selector<L>),
    /// A suspended [`Selector`], mid-scan.
    SelectorResume(SelectorResume<L>),
    /// The unconditional loop combinator.
    Repeated(Repeated<L>),
    /// The logical NOT combinator.
    Inverter(Inverter<L>),
    /// The always-success combinator.
    Succeeder(Succeeder<L>),
}

/// The capability every leaf implements: given the context, produce a tick
/// result, mutating the context as a side effect.
///
/// An implementation states what one tick means as the spec function
/// `spec_tick` and proves that `tick` computes it.  Leaves are therefore
/// deterministic: the result and the new context are a function of the leaf and
/// the old context alone.  Any memory of progress a leaf needs across ticks
/// must travel in the continuation it returns, never be written back into
/// itself: a leaf is immutable once built, like every other node.
pub trait BehaviorNode<B>: Sized {
    /// The mathematical meaning of one tick of this leaf: the result and the
    /// context after.
    spec fn spec_tick(&self, context: B) -> (NodeResult<Self>, B);

    /// Tick this leaf once against the context.
    fn tick(&self, context: &mut B) -> (r: NodeResult<Self>)
        ensures
            (r, *final(context)) == self.spec_tick(*old(context)),
    ;

    /// This leaf as a shared behavior node.
    fn arc(self) -> (a: BehaviorArc<Self>)
        ensures
            *a == Behavior::Leaf(self),
    {
        Arc::new(Behavior::Leaf(self))
    }
}

/// The leaf `l` as a shared behavior node.
///
/// The same as [`BehaviorNode::arc`], but usable where the context type cannot
/// be inferred, as with a leaf that is generic over every context.
pub fn leaf<L>(l: L) -> (a: BehaviorArc<L>)
    ensures
        *a == Behavior::<L>::Leaf(l),
{
    Arc::new(Behavior::Leaf(l))
}

/// Relies on Arc::clone: the clone shares the same allocation, so it holds the
/// same value.
#[verifier::external_body]
pub(crate) fn clone_arc<T>(v: &Arc<T>) -> (res: Arc<T>)
    ensures
        res == *v,
{
    v.clone()
}

impl<L> Behavior<L> {
    /// Tick this node once against the context.
    ///
    /// The result and the context after are exactly [`tick_of`] of this node
    /// and the context before: evaluation is a pure function of the two, and
    /// the node itself is never changed.
    pub fn tick<B>(&self, context: &mut B) -> (r: NodeResult<L>) where L: BehaviorNode<B>
        ensures
            (r, *final(context)) == tick_of(*self, *old(context)),
        decreases *self, 1int,
    {
        match self {
            Behavior::Leaf(l) => l.tick(context),
            Behavior::Sequence(s) => tick_sequence_from(&s.sub, 0, context),
            Behavior::SequenceResume(sr) => {
                match (&*sr.resume).tick(context) {
                    NodeResult::Failure => NodeResult::Failure,
                    NodeResult::Running(c) => NodeResult::Running(
                        Sequence::resume(clone_arc(&sr.seq), sr.index, c),
                    ),
                    NodeResult::Success => {
                        let len = sr.seq.len();
                        let next: usize = if sr.index < len {
                            sr.index + 1
                        } else {
                            len
                        };
                        proof {
                            if sr.index >= len {
                                // Both scan positions are past the end, so both
                                // scans succeed at once.
                                assert(seq_scan_of(
                                    (*self)->SequenceResume_0.seq,
                                    (*self)->SequenceResume_0.index + 1,
                                    tick_of(*(*self)->SequenceResume_0.resume, *old(context)).1,
                                ) == seq_scan_of(
                                    (*self)->SequenceResume_0.seq,
                                    next as int,
                                    tick_of(*(*self)->SequenceResume_0.resume, *old(context)).1,
                                ));
                            }
                        }
                        tick_sequence_from(&sr.seq, next, context)
                    },
                }
            },
            Behavior::Selector(s) => tick_selector_from(&s.sub, 0, context),
            Behavior::SelectorResume(sr) => {
                match (&*sr.resume).tick(context) {
                    NodeResult::Success => NodeResult::Success,
                    NodeResult::Running(c) => NodeResult::Running(
                        Selector::resume(clone_arc(&sr.seq), sr.index, c),
                    ),
                    NodeResult::Failure => {
                        let len = sr.seq.len();
                        let next: usize = if sr.index < len {
                            sr.index + 1
                        } else {
                            len
                        };
                        proof {
                            if sr.index >= len {
                                // Both scan positions are past the end, so both
                                // scans fail at once.
                                assert(sel_scan_of(
                                    (*self)->SelectorResume_0.seq,
                                    (*self)->SelectorResume_0.index + 1,
                                    tick_of(*(*self)->SelectorResume_0.resume, *old(context)).1,
                                ) == sel_scan_of(
                                    (*self)->SelectorResume_0.seq,
                                    next as int,
                                    tick_of(*(*self)->SelectorResume_0.resume, *old(context)).1,
                                ));
                            }
                        }
                        tick_selector_from(&sr.seq, next, context)
                    },
                }
            },
            Behavior::Repeated(rep) => {
                if let Some(res) = &rep.resume {
                    match (&**res).tick(context) {
                        NodeResult::Running(c) => {
                            return NodeResult::Running(
                                Repeated { child: clone_arc(&rep.child), resume: Some(c) }.arc(),
                            );
                        },
                        _ => {},
                    }
                }
                match (&*rep.child).tick(context) {
                    NodeResult::Running(c) => NodeResult::Running(
                        Repeated { child: clone_arc(&rep.child), resume: Some(c) }.arc(),
                    ),
                    _ => NodeResult::Running(
                        Repeated { child: clone_arc(&rep.child), resume: None }.arc(),
                    ),
                }
            },
            Behavior::Inverter(inv) => {
                match (&*inv.child).tick(context) {
                    NodeResult::Success => NodeResult::Failure,
                    NodeResult::Failure => NodeResult::Success,
                    NodeResult::Running(c) => NodeResult::Running(Inverter::new(c).arc()),
                }
            },
            Behavior::Succeeder(s) => {
                match &s.child {
                    None => NodeResult::Success,
                    Some(c) => {
                        match (&**c).tick(context) {
                            NodeResult::Running(cc) => NodeResult::Running(
                                Succeeder::new(cc).arc(),
                            ),
                            _ => NodeResult::Success,
                        }
                    },
                }
            },
        }
    }
}

/// Ticks the children of a sequence in order, starting at slot `i`.
fn tick_sequence_from<B, L: BehaviorNode<B>>(
    children: &Arc<Vec<BehaviorArc<L>>>,
    i: usize,
    context: &mut B,
) -> (r: NodeResult<L>)
    ensures
        (r, *final(context)) == seq_scan_of(*children, i as int, *old(context)),
    decreases children@, children@.len() - i,
{
    let v: &Vec<BehaviorArc<L>> = children;
    if i >= v.len() {
        NodeResult::Success
    } else {
        let child: &BehaviorArc<L> = &v[i];
        match (&**child).tick(context) {
            NodeResult::Success => tick_sequence_from(children, i + 1, context),
            NodeResult::Failure => NodeResult::Failure,
            NodeResult::Running(c) => NodeResult::Running(
                Sequence::resume(clone_arc(children), i, c),
            ),
        }
    }
}

/// Ticks the children of a selector in order, starting at slot `i`.
fn tick_selector_from<B, L: BehaviorNode<B>>(
    children: &Arc<Vec<BehaviorArc<L>>>,
    i: usize,
    context: &mut B,
) -> (r: NodeResult<L>)
    ensures
        (r, *final(context)) == sel_scan_of(*children, i as int, *old(context)),
    decreases children@, children@.len() - i,
{
    let v: &Vec<BehaviorArc<L>> = children;
    if i >= v.len() {
        NodeResult::Failure
    } else {
        let child: &BehaviorArc<L> = &v[i];
        match (&**child).tick(context) {
            NodeResult::Failure => tick_selector_from(children, i + 1, context),
            NodeResult::Success => NodeResult::Success,
            NodeResult::Running(c) => NodeResult::Running(
                Selector::resume(clone_arc(children), i, c),
            ),
        }
    }
}

/// Takes care of executing a behavior tree.
///
/// A runner is either idle, in which case the next tick starts at the tree
/// root, or suspended on the continuation the previous tick returned.  Dropping
/// the continuation is the whole reset operation.
#[derive(Debug)]
pub struct BehaviorRunner<L> {
    /// The root of the tree being driven; shared, never mutated.
    pub tree: BehaviorArc<L>,
    /// The continuation returned by the most recent running tick, if any.
    pub current_tick: Option<BehaviorArc<L>>,
}

impl<L> BehaviorRunner<L> {
    /// A runner over `tree`, idle: the first call of `proceed` ticks the root.
    pub fn new(tree: BehaviorArc<L>) -> (runner: Self)
        ensures
            runner.tree == tree,
            runner.current_tick is None,
    {
        BehaviorRunner { tree, current_tick: None }
    }

    /// Whether the runner is suspended mid-run.
    pub fn is_running(&self) -> (b: bool)
        ensures
            b == (self.current_tick is Some),
    {
        self.current_tick.is_some()
    }

    /// Ticks `node` and records the continuation when it keeps running.
    fn tick_node<B>(&mut self, node: &Behavior<L>, context: &mut B) -> (res: Option<bool>) where
        L: BehaviorNode<B>,
        ensures
            final(self).tree == old(self).tree,
            ({
                let (r, b1) = tick_of(*node, *old(context));
                &&& *final(context) == b1
                &&& match r {
                    NodeResult::Running(c) => final(self).current_tick == Some(c) && res is None,
                    NodeResult::Success => final(self).current_tick == old(self).current_tick
                        && res == Some(true),
                    NodeResult::Failure => final(self).current_tick == old(self).current_tick
                        && res == Some(false),
                }
            }),
    {
        match node.tick(context) {
            NodeResult::Running(nbp) => {
                self.current_tick = Some(nbp);
                None
            },
            NodeResult::Success => Some(true),
            NodeResult::Failure => Some(false),
        }
    }

    /// Drive the tree one tick: the saved continuation when suspended, the tree
    /// root when idle.
    ///
    /// Returns `None` while the tree is still running, `Some(true)` when it
    /// reached success and `Some(false)` when it reached failure; on a terminal
    /// result the runner goes idle, so the next call starts over at the root.
    pub fn proceed<B>(&mut self, context: &mut B) -> (res: Option<bool>) where
        L: BehaviorNode<B>,
        ensures
            ({
                let (next, out, b1) = proceed_of(*old(self), *old(context));
                &&& *final(self) == next
                &&& res == out
                &&& *final(context) == b1
            }),
    {
        let node: BehaviorArc<L> = match &self.current_tick {
            Some(bp) => clone_arc(bp),
            None => clone_arc(&self.tree),
        };
        self.current_tick = None;
        self.tick_node(&node, context)
    }
}

} // verus!
