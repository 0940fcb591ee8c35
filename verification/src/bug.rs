//! The bug movement state machine: sweep to a screen edge, step down, sweep
//! back. Each bug runs it on its own; nothing couples the bugs of a row.

use vstd::prelude::*;

use crate::entity::{Body, Direction, Entity, MovementMode};
use crate::store::{EntityStore, Scene};
use crate::units::{offset, saturating_sum, Point, UNIT};

verus! {

/// How far a sweeping bug moves sideways in one frame.
pub const SWEEP_STEP: i64 = 2 * UNIT;

/// How far a descending bug moves down in one frame.
pub const DESCENT_STEP: i64 = 2 * UNIT;

/// A bug that has swept to the left of this line starts to descend.
pub const LEFT_EDGE: i64 = -300 * UNIT;

/// A bug that has swept to the right of this line starts to descend.
pub const RIGHT_EDGE: i64 = 300 * UNIT;

/// The count a descent starts with.
pub const DESCENT_STEPS: u32 = 12;

/// Sweeping in the given direction.
pub open spec fn sweep(direction: Direction) -> MovementMode {
    match direction {
        Direction::Left => MovementMode::SweepLeft,
        Direction::Right => MovementMode::SweepRight,
    }
}

/// One frame of a bug: it moves as its current mode says, and from where it
/// then stands the mode for the next frame is chosen.
pub open spec fn bug_step(position: Point, mode: MovementMode) -> (Point, MovementMode) {
    match mode {
        MovementMode::SweepLeft => {
            let x = saturating_sum(position.x as int, -SWEEP_STEP);
            (
                Point { x: x as i64, y: position.y },
                if x < LEFT_EDGE {
                    MovementMode::Descend {
                        remaining_steps: DESCENT_STEPS,
                        next_direction: Direction::Right,
                    }
                } else {
                    MovementMode::SweepLeft
                },
            )
        },
        MovementMode::SweepRight => {
            let x = saturating_sum(position.x as int, SWEEP_STEP as int);
            (
                Point { x: x as i64, y: position.y },
                if x > RIGHT_EDGE {
                    MovementMode::Descend {
                        remaining_steps: DESCENT_STEPS,
                        next_direction: Direction::Left,
                    }
                } else {
                    MovementMode::SweepRight
                },
            )
        },
        MovementMode::Descend { remaining_steps, next_direction } => {
            let y = saturating_sum(position.y as int, -DESCENT_STEP);
            (
                Point { x: position.x, y: y as i64 },
                if remaining_steps < 1 {
                    sweep(next_direction)
                } else {
                    MovementMode::Descend {
                        remaining_steps: (remaining_steps - 1) as u32,
                        next_direction,
                    }
                },
            )
        },
    }
}

/// One frame of any entity under the bug system: bugs step, the rest stay.
pub open spec fn bug_moved(e: Entity) -> Entity {
    match e.body {
        Body::Bug { movement_mode } => {
            let (position, next_mode) = bug_step(e.position, movement_mode);
            Entity { id: e.id, position, body: Body::Bug { movement_mode: next_mode } }
        },
        _ => e,
    }
}

/// The scene after the bug system has run.
pub open spec fn after_bug_movement(scene: Scene) -> Scene {
    Scene {
        entities: scene.entities.map_values(|e: Entity| bug_moved(e)),
        next_id: scene.next_id,
    }
}

/// Moves one bug by one frame and returns where it stands and what it does
/// next.
pub fn advance_bug(position: Point, mode: MovementMode) -> (next: (Point, MovementMode))
    ensures
        next == bug_step(position, mode),
{
    match mode {
        MovementMode::SweepLeft => {
            let x = offset(position.x, -SWEEP_STEP);
            let next_mode = if x < LEFT_EDGE {
                MovementMode::Descend {
                    remaining_steps: DESCENT_STEPS,
                    next_direction: Direction::Right,
                }
            } else {
                MovementMode::SweepLeft
            };
            (Point { x, y: position.y }, next_mode)
        },
        MovementMode::SweepRight => {
            let x = offset(position.x, SWEEP_STEP);
            let next_mode = if x > RIGHT_EDGE {
                MovementMode::Descend {
                    remaining_steps: DESCENT_STEPS,
                    next_direction: Direction::Left,
                }
            } else {
                MovementMode::SweepRight
            };
            (Point { x, y: position.y }, next_mode)
        },
        MovementMode::Descend { remaining_steps, next_direction } => {
            let y = offset(position.y, -DESCENT_STEP);
            let next_mode = if remaining_steps < 1 {
                match next_direction {
                    Direction::Left => MovementMode::SweepLeft,
                    Direction::Right => MovementMode::SweepRight,
                }
            } else {
                MovementMode::Descend { remaining_steps: remaining_steps - 1, next_direction }
            };
            (Point { x: position.x, y }, next_mode)
        },
    }
}

/// The bug system: every bug in the store moves by one frame.
pub fn bug_movement(store: &mut EntityStore)
    requires
        old(store).wf(),
    ensures
        final(store).wf(),
        final(store)@ == after_bug_movement(old(store)@),
{
    let ghost before = store@;
    let n = store.len();
    let mut i: usize = 0;
    while i < n
        invariant
            store.wf(),
            i <= n,
            n == before.entities.len(),
            store@.next_id == before.next_id,
            store@.entities.len() == n,
            forall|k: int| 0 <= k < i ==> #[trigger] store@.entities[k] == bug_moved(before.entities[k]),
            forall|k: int| i <= k < n ==> #[trigger] store@.entities[k] == before.entities[k],
        decreases n - i,
    {
        let e = store.entity_at(i);
        match e.body {
            Body::Bug { movement_mode } => {
                let (position, next_mode) = advance_bug(e.position, movement_mode);
                store.replace_at(i, position, Body::Bug { movement_mode: next_mode });
            },
            _ => {},
        }
        i += 1;
    }
    proof {
        assert(store@.entities =~= after_bug_movement(before).entities);
    }
}

} // verus!
