//! The simulation driver: the opening formation, and the fixed order in
//! which the systems run each frame.

use vstd::prelude::*;

use crate::bug::{after_bug_movement, bug_movement};
use crate::collision::{after_bug_zapper, bug_zapper};
use crate::entity::{Body, Entity, EntityId, MovementMode};
use crate::input::{snapshot_of, InputSnapshot, InputTracker, RawInput};
use crate::laser::{after_laser_movement, laser_movement};
use crate::player::{after_player, player};
use crate::store::{EntityStore, Scene};
use crate::units::{Point, UNIT};

verus! {

/// Rows of bugs in the opening formation.
pub const ROWS: u32 = 4;

/// Bugs in each row of the opening formation.
pub const COLUMNS: u32 = 20;

/// The distance between neighbouring bugs of the formation, along both axes.
pub const SPACING: i64 = 30 * UNIT;

/// The x of the leftmost column of the formation.
pub const FIRST_COLUMN_X: i64 = -300 * UNIT;

/// The y of the topmost row of the formation.
pub const TOP_ROW_Y: i64 = 200 * UNIT;

/// The y at which the ship starts; its x is zero.
pub const PLAYER_START_Y: i64 = -220 * UNIT;

/// The ship as it starts: centred at the bottom, at rest, with the first id.
pub open spec fn opening_player() -> Entity {
    Entity {
        id: EntityId(0),
        position: Point { x: 0, y: PLAYER_START_Y },
        body: Body::Player { velocity_x: 0 },
    }
}

/// The bug that opens at `row` and `column` of the formation, both counted
/// from zero. Even rows start sweeping left, odd rows right.
pub open spec fn opening_bug(row: int, column: int) -> Entity {
    Entity {
        id: EntityId((1 + row * COLUMNS + column) as u64),
        position: Point {
            x: (FIRST_COLUMN_X + column * SPACING) as i64,
            y: (TOP_ROW_Y - row * SPACING) as i64,
        },
        body: Body::Bug {
            movement_mode: if row % 2 == 0 {
                MovementMode::SweepLeft
            } else {
                MovementMode::SweepRight
            },
        },
    }
}

/// The scene a game starts from: the ship first, then the formation row by
/// row from the top, each row from the left.
pub open spec fn opening_scene() -> Scene {
    Scene {
        entities: Seq::new(
            (1 + ROWS * COLUMNS) as nat,
            |i: int|
                if i == 0 {
                    opening_player()
                } else {
                    opening_bug((i - 1) / (COLUMNS as int), (i - 1) % (COLUMNS as int))
                },
        ),
        next_id: (1 + ROWS * COLUMNS) as nat,
    }
}

/// One frame: player controller, bug movement, laser mover, collision
/// resolver, in this order.
pub open spec fn frame(scene: Scene, input: InputSnapshot) -> Scene {
    after_bug_zapper(after_laser_movement(after_bug_movement(after_player(scene, input))))
}

/// The scene after one frame for each of `inputs`, in order.
pub open spec fn run(scene: Scene, inputs: Seq<InputSnapshot>) -> Scene
    decreases inputs.len(),
{
    if inputs.len() == 0 {
        scene
    } else {
        frame(run(scene, inputs.drop_last()), inputs.last())
    }
}

/// Builds the store a game starts from.
pub fn setup() -> (store: EntityStore)
    ensures
        store.wf(),
        store@ == opening_scene(),
{
    let mut store = EntityStore::new();
    store.create(Point { x: 0, y: PLAYER_START_Y }, Body::Player { velocity_x: 0 });
    assert(store@.entities =~= opening_scene().entities.take(1));
    let mut row: u32 = 0;
    while row < ROWS
        invariant
            store.wf(),
            row <= ROWS,
            store@.next_id == 1 + row * COLUMNS,
            store@.entities == opening_scene().entities.take(1 + row * COLUMNS),
        decreases ROWS - row,
    {
        let y: i64 = TOP_ROW_Y - (row as i64) * SPACING;
        let movement_mode = if row % 2 == 0 {
            MovementMode::SweepLeft
        } else {
            MovementMode::SweepRight
        };
        let mut column: u32 = 0;
        while column < COLUMNS
            invariant
                store.wf(),
                row < ROWS,
                column <= COLUMNS,
                y == TOP_ROW_Y - row * SPACING,
                movement_mode == opening_bug(row as int, 0).body->movement_mode,
                store@.next_id == 1 + row * COLUMNS + column,
                store@.entities == opening_scene().entities.take(1 + row * COLUMNS + column),
            decreases COLUMNS - column,
        {
            let x: i64 = FIRST_COLUMN_X + (column as i64) * SPACING;
            let ghost index = 1 + row * COLUMNS + column;
            store.create(Point { x, y }, Body::Bug { movement_mode });
            proof {
                assert((index - 1) / (COLUMNS as int) == row && (index - 1) % (COLUMNS as int)
                    == column);
                assert(store@.entities =~= opening_scene().entities.take(index + 1));
            }
            column += 1;
        }
        row += 1;
    }
    assert(store@.entities =~= opening_scene().entities);
    store
}

/// Advances the store by one frame.
pub fn step(store: &mut EntityStore, input: InputSnapshot)
    requires
        old(store).wf(),
    ensures
        final(store).wf(),
        final(store)@ == frame(old(store)@, input),
{
    player(store, input);
    bug_movement(store);
    laser_movement(store);
    bug_zapper(store);
}

/// Advances the store by one frame for each of `inputs`, in order.
pub fn run_frames(store: &mut EntityStore, inputs: &Vec<InputSnapshot>)
    requires
        old(store).wf(),
    ensures
        final(store).wf(),
        final(store)@ == run(old(store)@, inputs@),
{
    let ghost start = store@;
    let n = inputs.len();
    let mut i: usize = 0;
    while i < n
        invariant
            store.wf(),
            i <= n,
            n == inputs@.len(),
            store@ == run(start, inputs@.take(i as int)),
        decreases n - i,
    {
        proof {
            assert(inputs@.take(i + 1).drop_last() =~= inputs@.take(i as int));
        }
        step(store, inputs[i]);
        i += 1;
    }
    proof {
        assert(inputs@.take(n as int) =~= inputs@);
    }
}

/// Advances the store by one frame from the raw key state: the tracker
/// turns it into the frame's snapshot, then the frame runs.
pub fn tick(store: &mut EntityStore, tracker: &mut InputTracker, raw: RawInput)
    requires
        old(store).wf(),
    ensures
        final(store).wf(),
        final(store)@ == frame(old(store)@, snapshot_of(old(tracker).fire_was_held, raw)),
        final(tracker).fire_was_held == raw.fire_held,
{
    let input = tracker.observe(raw);
    step(store, input);
}

} // verus!
