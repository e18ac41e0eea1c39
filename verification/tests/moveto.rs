use simple_bt::composite::Sequence;
use simple_bt::BehaviorNode;
use simple_bt::BehaviorRunner;
use simple_bt::NodeResult;

/// A two-dimensional position.
#[derive(Clone, Copy, Debug, PartialEq)]
struct Vec2 {
    x: f32,
    y: f32,
}

/// A leaf that moves the position a fixed fraction toward `goal` each tick and
/// succeeds once it is within a small error of it.
#[derive(Debug)]
struct MoveTo {
    part: f32,
    goal: Vec2,
}

impl BehaviorNode<Vec2> for MoveTo {
    /// The descriptive twin of `tick` that the capability asks for; it is
    /// never called at runtime.
    fn spec_tick(&self, position: Vec2) -> (NodeResult<MoveTo>, Vec2) {
        let mut after = position;
        let r = self.tick(&mut after);
        (r, after)
    }

    fn tick(&self, position: &mut Vec2) -> NodeResult<MoveTo> {
        let mx = (self.goal.x - position.x) * self.part.recip();
        let my = (self.goal.y - position.y) * self.part.recip();
        position.x += mx;
        position.y += my;

        const ERROR: f32 = 0.001;
        let dx = self.goal.x - position.x;
        let dy = self.goal.y - position.y;
        if (dx * dx + dy * dy).sqrt() < ERROR {
            NodeResult::Success
        } else {
            NodeResult::Running(
                MoveTo { part: self.part, goal: self.goal }.arc(),
            )
        }
    }
}

fn dist(a: Vec2, b: Vec2) -> f32 {
    let dx = a.x - b.x;
    let dy = a.y - b.y;
    (dx * dx + dy * dy).sqrt()
}

#[test]
fn moveto_passes_first_goal_and_ends_at_second() {
    let first = Vec2 { x: 0.0, y: 0.0 };
    let second = Vec2 { x: 5.0, y: 5.0 };
    let tree = Sequence::new(vec![
        MoveTo { part: 5.0, goal: first }.arc(),
        MoveTo { part: 5.0, goal: second }.arc(),
    ])
    .arc();

    let mut position = Vec2 { x: 5.0, y: 0.0 };
    let mut runner = BehaviorRunner::new(tree);
    let mut res = None;
    let mut closest_to_first = f32::MAX;
    while res.is_none() {
        res = runner.proceed(&mut position);
        let d = dist(position, first);
        if d < closest_to_first {
            closest_to_first = d;
        }
    }
    assert_eq!(res, Some(true));
    assert!(dist(position, second) < 0.001);
    // The tick in which the first leaf succeeds also starts the second, so the
    // closest position observed between ticks sits just outside the leaf's own
    // 0.001 acceptance distance.
    assert!(closest_to_first < 0.0013);
}

#[test]
fn test_seequence() {
    let tree = Sequence::new(vec![
        MoveTo { part: 5.0, goal: Vec2 { x: 0.0, y: 0.0 } }.arc(),
        MoveTo { part: 5.0, goal: Vec2 { x: 5.0, y: 5.0 } }.arc(),
    ])
    .arc();

    // Set some position
    let mut position = Vec2 { x: 5.0, y: 0.0 };

    // If a position is set, we will execute the action
    {
        let mut runner = BehaviorRunner::new(tree.clone());
        let mut res = None;
        while res.is_none() {
            res = runner.proceed(&mut position);
        }
        assert!(res.is_some_and(|v| v));
    }
}
