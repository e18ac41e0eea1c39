//! A small ready-made leaf.
//!
//! Real leaves live in the embedding application; this one shows how the
//! [`BehaviorNode`] capability is implemented and proved, and gives tests a
//! leaf with predictable multi-tick behavior.

use vstd::prelude::*;
use crate::Behavior;
use crate::BehaviorNode;
use crate::NodeResult;

verus! {

/// A leaf that keeps running for `remaining` ticks and then reports the fixed
/// verdict `succeed`.  It never touches the context; its progress travels in
/// the continuation it returns, which is the same leaf with one tick less to
/// go.
#[derive(Debug, PartialEq, Eq, Structural, Clone, Copy)]
pub struct Countdown {
    /// How many running ticks remain before the verdict.
    pub remaining: u32,
    /// The verdict to report once no ticks remain.
    pub succeed: bool,
}

impl<B> BehaviorNode<B> for Countdown {
    open spec fn spec_tick(&self, context: B) -> (NodeResult<Countdown>, B) {
        if self.remaining == 0 {
            (
                if self.succeed {
                    NodeResult::Success
                } else {
                    NodeResult::Failure
                },
                context,
            )
        } else {
            (
                NodeResult::Running(
                    std::sync::Arc::new(
                        Behavior::Leaf(
                            Countdown {
                                remaining: (self.remaining - 1) as u32,
                                succeed: self.succeed,
                            },
                        ),
                    ),
                ),
                context,
            )
        }
    }

    fn tick(&self, context: &mut B) -> (r: NodeResult<Countdown>) {
        if self.remaining == 0 {
            if self.succeed {
                NodeResult::Success
            } else {
                NodeResult::Failure
            }
        } else {
            NodeResult::Running(
                crate::leaf(Countdown { remaining: self.remaining - 1, succeed: self.succeed }),
            )
        }
    }
}

} // verus!
