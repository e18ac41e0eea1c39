use simple_bt::composite::Inverter;
use simple_bt::composite::Repeated;
use simple_bt::composite::Selector;
use simple_bt::composite::Sequence;
use simple_bt::composite::Succeeder;
use simple_bt::leaves::Countdown;
use simple_bt::leaf;
use simple_bt::BehaviorArc;
use simple_bt::BehaviorNode;
use simple_bt::BehaviorRunner;
use simple_bt::NodeResult;

/// A leaf that bumps its slot of the context and reports a fixed verdict at
/// once: the context records how often each leaf was ticked.
struct Tally {
    slot: usize,
    succeed: bool,
}

impl BehaviorNode<Vec<u32>> for Tally {
    /// The descriptive twin of `tick` that the capability asks for; it is
    /// never called at runtime.
    fn spec_tick(&self, context: Vec<u32>) -> (NodeResult<Tally>, Vec<u32>) {
        let mut after = context;
        after[self.slot] += 1;
        let r = if self.succeed { NodeResult::Success } else { NodeResult::Failure };
        (r, after)
    }

    fn tick(&self, context: &mut Vec<u32>) -> NodeResult<Tally> {
        context[self.slot] += 1;
        if self.succeed {
            NodeResult::Success
        } else {
            NodeResult::Failure
        }
    }
}

fn drive(runner: &mut BehaviorRunner<Tally>, context: &mut Vec<u32>, max: usize) -> Option<bool> {
    let mut res = None;
    let mut ticks = 0;
    while res.is_none() && ticks < max {
        res = runner.proceed(context);
        ticks += 1;
    }
    res
}

#[test]
fn sequence_both_succeed() {
    let tree = Sequence::new(vec![
        Tally { slot: 0, succeed: true }.arc(),
        Tally { slot: 1, succeed: true }.arc(),
    ])
    .arc();
    let mut counts = vec![0u32, 0u32];
    let mut runner = BehaviorRunner::new(tree);
    let res = runner.proceed(&mut counts);
    assert_eq!(res, Some(true));
    assert_eq!(counts, vec![1, 1]);
}

#[test]
fn sequence_first_fails_second_never_ticked() {
    let tree = Sequence::new(vec![
        Tally { slot: 0, succeed: false }.arc(),
        Tally { slot: 1, succeed: true }.arc(),
    ])
    .arc();
    let mut counts = vec![0u32, 0u32];
    let mut runner = BehaviorRunner::new(tree);
    let res = runner.proceed(&mut counts);
    assert_eq!(res, Some(false));
    assert_eq!(counts, vec![1, 0]);
}

#[test]
fn sequence_second_fails() {
    let tree = Sequence::new(vec![
        Tally { slot: 0, succeed: true }.arc(),
        Tally { slot: 1, succeed: false }.arc(),
    ])
    .arc();
    let mut counts = vec![0u32, 0u32];
    let mut runner = BehaviorRunner::new(tree);
    assert_eq!(runner.proceed(&mut counts), Some(false));
    assert_eq!(counts, vec![1, 1]);
}

#[test]
fn sequence_empty_succeeds() {
    let tree = Sequence::<Tally>::new(vec![]).arc();
    let mut counts = vec![0u32];
    let mut runner = BehaviorRunner::new(tree);
    assert_eq!(runner.proceed(&mut counts), Some(true));
    assert_eq!(counts, vec![0]);
}

#[test]
fn selector_first_succeeds_second_never_ticked() {
    let tree = Selector::new(vec![
        Tally { slot: 0, succeed: true }.arc(),
        Tally { slot: 1, succeed: true }.arc(),
    ])
    .arc();
    let mut counts = vec![0u32, 0u32];
    let mut runner = BehaviorRunner::new(tree);
    assert_eq!(runner.proceed(&mut counts), Some(true));
    assert_eq!(counts, vec![1, 0]);
}

#[test]
fn selector_first_fails_second_succeeds() {
    let tree = Selector::new(vec![
        Tally { slot: 0, succeed: false }.arc(),
        Tally { slot: 1, succeed: true }.arc(),
    ])
    .arc();
    let mut counts = vec![0u32, 0u32];
    let mut runner = BehaviorRunner::new(tree);
    assert_eq!(runner.proceed(&mut counts), Some(true));
    assert_eq!(counts, vec![1, 1]);
}

#[test]
fn selector_all_fail() {
    let tree = Selector::new(vec![
        Tally { slot: 0, succeed: false }.arc(),
        Tally { slot: 1, succeed: false }.arc(),
    ])
    .arc();
    let mut counts = vec![0u32, 0u32];
    let mut runner = BehaviorRunner::new(tree);
    assert_eq!(runner.proceed(&mut counts), Some(false));
    assert_eq!(counts, vec![1, 1]);
}

#[test]
fn selector_empty_fails() {
    let tree = Selector::<Tally>::new(vec![]).arc();
    let mut counts = vec![0u32];
    let mut runner = BehaviorRunner::new(tree);
    assert_eq!(runner.proceed(&mut counts), Some(false));
}

#[test]
fn countdown_runs_then_reports() {
    let tree: BehaviorArc<Countdown> = leaf(Countdown { remaining: 2, succeed: true });
    let mut ctx = 0u8;
    let mut runner = BehaviorRunner::new(tree);
    assert_eq!(runner.proceed(&mut ctx), None);
    assert!(runner.is_running());
    assert_eq!(runner.proceed(&mut ctx), None);
    assert!(runner.is_running());
    assert_eq!(runner.proceed(&mut ctx), Some(true));
    assert!(!runner.is_running());
}

#[test]
fn sequence_resumes_across_ticks() {
    // The first child needs three ticks; the second finishes inside the third.
    let tree = Sequence::new(vec![
        leaf(Countdown { remaining: 2, succeed: true }),
        leaf(Countdown { remaining: 0, succeed: true }),
    ])
    .arc();
    let mut ctx = 0u8;
    let mut runner = BehaviorRunner::new(tree);
    assert_eq!(runner.proceed(&mut ctx), None);
    assert_eq!(runner.proceed(&mut ctx), None);
    assert_eq!(runner.proceed(&mut ctx), Some(true));
}

#[test]
fn repeated_never_terminates() {
    let tree = Repeated::new(leaf(Countdown { remaining: 1, succeed: true })).arc();
    let mut ctx = 0u8;
    let mut runner = BehaviorRunner::new(tree);
    for _ in 0..25 {
        assert_eq!(runner.proceed(&mut ctx), None);
        assert!(runner.is_running());
    }
}

#[test]
fn repeated_restarts_failing_child() {
    let tree = Repeated::new(leaf(Countdown { remaining: 0, succeed: false })).arc();
    let mut ctx = 0u8;
    let mut runner = BehaviorRunner::new(tree);
    for _ in 0..25 {
        assert_eq!(runner.proceed(&mut ctx), None);
    }
}

#[test]
fn inverter_swaps_verdicts() {
    let mut ctx = 0u8;
    let tree = Inverter::new(leaf(Countdown { remaining: 0, succeed: true })).arc();
    let mut runner = BehaviorRunner::new(tree);
    assert_eq!(runner.proceed(&mut ctx), Some(false));

    let tree = Inverter::new(leaf(Countdown { remaining: 0, succeed: false })).arc();
    let mut runner = BehaviorRunner::new(tree);
    assert_eq!(runner.proceed(&mut ctx), Some(true));
}

#[test]
fn inverter_involution_matches_plain_child() {
    for succeed in [false, true] {
        let child = || leaf(Countdown { remaining: 2, succeed });
        let plain = child();
        let doubled = Inverter::new(Inverter::new(child()).arc()).arc();
        let mut ctx = 0u8;
        let mut r1 = BehaviorRunner::new(plain);
        let mut r2 = BehaviorRunner::new(doubled);
        for _ in 0..2 {
            assert_eq!(r1.proceed(&mut ctx), None);
            assert_eq!(r2.proceed(&mut ctx), None);
        }
        assert_eq!(r1.proceed(&mut ctx), Some(succeed));
        assert_eq!(r2.proceed(&mut ctx), Some(succeed));
    }
}

#[test]
fn succeeder_absorbs_failure() {
    let mut ctx = 0u8;
    let tree = Succeeder::new(leaf(Countdown { remaining: 1, succeed: false })).arc();
    let mut runner = BehaviorRunner::new(tree);
    assert_eq!(runner.proceed(&mut ctx), None);
    assert_eq!(runner.proceed(&mut ctx), Some(true));
}

#[test]
fn succeeder_without_child_succeeds() {
    let mut ctx = 0u8;
    let tree = Succeeder::<Countdown>::default().arc();
    let mut runner = BehaviorRunner::new(tree);
    assert_eq!(runner.proceed(&mut ctx), Some(true));
}

#[test]
fn runner_restarts_after_verdict() {
    let tree = Sequence::new(vec![Tally { slot: 0, succeed: true }.arc()]).arc();
    let mut counts = vec![0u32];
    let mut runner = BehaviorRunner::new(tree);
    assert_eq!(runner.proceed(&mut counts), Some(true));
    assert_eq!(runner.proceed(&mut counts), Some(true));
    assert_eq!(counts, vec![2]);
}

#[test]
fn shared_tree_runs_deterministically() {
    let tree = Sequence::new(vec![
        leaf(Countdown { remaining: 1, succeed: true }),
        leaf(Countdown { remaining: 0, succeed: false }),
    ])
    .arc();
    let mut out1 = Vec::new();
    let mut out2 = Vec::new();
    {
        let mut runner = BehaviorRunner::new(tree.clone());
        let mut ctx = 0u8;
        for _ in 0..3 {
            out1.push(runner.proceed(&mut ctx));
        }
    }
    {
        let mut runner = BehaviorRunner::new(tree);
        let mut ctx = 0u8;
        for _ in 0..3 {
            out2.push(runner.proceed(&mut ctx));
        }
    }
    assert_eq!(out1, out2);
    assert_eq!(out1, vec![None, Some(false), None]);
}

#[test]
fn drive_helper_reports_first_verdict() {
    let tree = Selector::new(vec![
        Tally { slot: 0, succeed: false }.arc(),
        Tally { slot: 1, succeed: false }.arc(),
    ])
    .arc();
    let mut counts = vec![0u32, 0u32];
    let mut runner = BehaviorRunner::new(tree);
    assert_eq!(drive(&mut runner, &mut counts, 10), Some(false));
}

#[test]
fn selector_resumes_across_ticks() {
    // The first child fails after two running ticks; the second starts inside
    // the third tick and succeeds two ticks later.
    let tree = Selector::new(vec![
        leaf(Countdown { remaining: 2, succeed: false }),
        leaf(Countdown { remaining: 2, succeed: true }),
    ])
    .arc();
    let mut ctx = 0u8;
    let mut runner = BehaviorRunner::new(tree);
    assert_eq!(runner.proceed(&mut ctx), None);
    assert_eq!(runner.proceed(&mut ctx), None);
    assert_eq!(runner.proceed(&mut ctx), None);
    assert_eq!(runner.proceed(&mut ctx), None);
    assert_eq!(runner.proceed(&mut ctx), Some(true));
}

#[test]
fn nested_selector_of_inverted_sequence() {
    // Inverter(Countdown success) fails, so the selector falls through to its
    // second child, which succeeds.
    let tree = Selector::new(vec![
        Inverter::new(leaf(Countdown { remaining: 0, succeed: true })).arc(),
        leaf(Countdown { remaining: 1, succeed: true }),
    ])
    .arc();
    let mut ctx = 0u8;
    let mut runner = BehaviorRunner::new(tree);
    assert_eq!(runner.proceed(&mut ctx), None);
    assert_eq!(runner.proceed(&mut ctx), Some(true));
}

#[test]
fn sequence_of_succeeders_ignores_failures() {
    let tree = Sequence::new(vec![
        Succeeder::new(leaf(Countdown { remaining: 0, succeed: false })).arc(),
        Succeeder::new(leaf(Countdown { remaining: 0, succeed: false })).arc(),
    ])
    .arc();
    let mut ctx = 0u8;
    let mut runner = BehaviorRunner::new(tree);
    assert_eq!(runner.proceed(&mut ctx), Some(true));
}
