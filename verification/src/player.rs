//! The player controller: steering with damped velocity, and firing.

use vstd::prelude::*;

use crate::entity::{Body, Entity, EntityId};
use crate::input::InputSnapshot;
use crate::store::{EntityStore, Scene};
use crate::units::{clamp, clamp_to, offset, saturating_sum, Point, UNIT};

verus! {

/// What a held direction key adds to the speed each frame.
pub const ACCELERATION: i64 = UNIT;

/// The ship never moves faster than this, either way.
pub const MAX_VELOCITY: i64 = 16 * UNIT;

/// The leftmost place of the ship.
pub const LEFT_LIMIT: i64 = -320 * UNIT;

/// The rightmost place of the ship.
pub const RIGHT_LIMIT: i64 = 320 * UNIT;

/// A laser appears this far above the ship that fires it.
pub const MUZZLE_OFFSET: i64 = 24 * UNIT;

/// The change of speed that the held keys ask for; both together cancel.
pub open spec fn thrust(input: InputSnapshot) -> int {
    (if input.right_held {
        ACCELERATION as int
    } else {
        0
    }) - (if input.left_held {
        ACCELERATION as int
    } else {
        0
    })
}

/// The speed the ship moves with in this frame: the old speed plus the
/// thrust, held to the speed limit.
pub open spec fn driven_velocity(velocity: int, input: InputSnapshot) -> int {
    clamp(velocity + thrust(input), -MAX_VELOCITY, MAX_VELOCITY as int)
}

/// Three quarters of `velocity`, rounded toward zero.
pub open spec fn damped(velocity: int) -> int {
    if velocity >= 0 {
        3 * velocity / 4
    } else {
        -(3 * (-velocity) / 4)
    }
}

/// The speed the ship is left with after the frame. Damping comes after the
/// move.
pub open spec fn next_velocity(velocity: int, input: InputSnapshot) -> int {
    damped(driven_velocity(velocity, input))
}

/// Where the ship stands after the frame.
pub open spec fn next_x(x: int, velocity: int, input: InputSnapshot) -> int {
    clamp(x + driven_velocity(velocity, input), LEFT_LIMIT as int, RIGHT_LIMIT as int)
}

/// One frame of any entity under the player controller: players steer, the
/// rest stay.
pub open spec fn steered(e: Entity, input: InputSnapshot) -> Entity {
    match e.body {
        Body::Player { velocity_x } => Entity {
            id: e.id,
            position: Point {
                x: next_x(e.position.x as int, velocity_x as int, input) as i64,
                y: e.position.y,
            },
            body: Body::Player { velocity_x: next_velocity(velocity_x as int, input) as i64 },
        },
        _ => e,
    }
}

/// Where the laser of a ship at `position` appears.
pub open spec fn muzzle(position: Point) -> Point {
    Point { x: position.x, y: saturating_sum(position.y as int, MUZZLE_OFFSET as int) as i64 }
}

/// The lasers that the players among `ships` fire, oldest ship first, when
/// the first of them gets the id `next_id`. A ship for which no id is left
/// fires nothing.
pub open spec fn volley(ships: Seq<Entity>, next_id: nat) -> Seq<Entity>
    decreases ships.len(),
{
    if ships.len() == 0 {
        Seq::empty()
    } else {
        let earlier = volley(ships.drop_last(), next_id);
        let id = next_id + earlier.len();
        if ships.last().body is Player && id < u64::MAX {
            earlier.push(
                Entity {
                    id: EntityId(id as u64),
                    position: muzzle(ships.last().position),
                    body: Body::Laser,
                },
            )
        } else {
            earlier
        }
    }
}

/// The scene after the player controller has run: every player has steered,
/// and on a fire press each has fired one laser from where it then stands.
pub open spec fn after_player(scene: Scene, input: InputSnapshot) -> Scene {
    let ships = scene.entities.map_values(|e: Entity| steered(e, input));
    let lasers = if input.fire_pressed_this_frame {
        volley(ships, scene.next_id)
    } else {
        Seq::empty()
    };
    Scene { entities: ships + lasers, next_id: scene.next_id + lasers.len() }
}

/// Steers a ship at `x` with speed `velocity` through one frame. Returns its
/// new place and the speed it is left with.
pub fn steer(x: i64, velocity: i64, input: InputSnapshot) -> (next: (i64, i64))
    ensures
        next.0 == next_x(x as int, velocity as int, input),
        next.1 == next_velocity(velocity as int, input),
{
    let mut driven = clamp_to(velocity, -2 * MAX_VELOCITY, 2 * MAX_VELOCITY);
    if input.left_held {
        driven = driven - ACCELERATION;
    }
    if input.right_held {
        driven = driven + ACCELERATION;
    }
    let driven = clamp_to(driven, -MAX_VELOCITY, MAX_VELOCITY);
    let near = clamp_to(x, LEFT_LIMIT - MAX_VELOCITY, RIGHT_LIMIT + MAX_VELOCITY);
    let new_x = clamp_to(near + driven, LEFT_LIMIT, RIGHT_LIMIT);
    let new_velocity = if driven >= 0 {
        3 * driven / 4
    } else {
        -(3 * (-driven) / 4)
    };
    (new_x, new_velocity)
}

/// The player controller: every player in the store steers by `input`, and
/// on a fire press fires one laser.
pub fn player(store: &mut EntityStore, input: InputSnapshot)
    requires
        old(store).wf(),
    ensures
        final(store).wf(),
        final(store)@ == after_player(old(store)@, input),
{
    let ghost before = store@;
    let ghost ships = before.entities.map_values(|e: Entity| steered(e, input));
    let n = store.len();
    let mut i: usize = 0;
    while i < n
        invariant
            store.wf(),
            i <= n,
            n == before.entities.len(),
            ships == before.entities.map_values(|e: Entity| steered(e, input)),
            store@.entities.len() >= n,
            forall|k: int| 0 <= k < i ==> #[trigger] store@.entities[k] == ships[k],
            forall|k: int| i <= k < n ==> #[trigger] store@.entities[k] == before.entities[k],
            input.fire_pressed_this_frame ==> store@.entities.skip(n as int) == volley(
                ships.take(i as int),
                before.next_id,
            ),
            !input.fire_pressed_this_frame ==> store@.entities.len() == n,
            store@.next_id == before.next_id + store@.entities.len() - n,
        decreases n - i,
    {
        let e = store.entity_at(i);
        let ghost fired = store@.entities.skip(n as int);
        proof {
            assert(ships.take(i + 1).drop_last() =~= ships.take(i as int));
            assert(ships.take(i + 1).last() == ships[i as int]);
        }
        match e.body {
            Body::Player { velocity_x } => {
                let (new_x, new_velocity) = steer(e.position.x, velocity_x, input);
                let position = Point { x: new_x, y: e.position.y };
                store.replace_at(i, position, Body::Player { velocity_x: new_velocity });
                assert(store@.entities.skip(n as int) =~= fired);
                if input.fire_pressed_this_frame {
                    let shot = Point { x: new_x, y: offset(e.position.y, MUZZLE_OFFSET) };
                    let ghost grown = store@.entities;
                    store.create(shot, Body::Laser);
                    proof {
                        if store@.entities.len() > grown.len() {
                            assert(store@.entities.skip(n as int) =~= fired.push(
                                store@.entities.last(),
                            ));
                        } else {
                            assert(store@.entities.skip(n as int) =~= fired);
                        }
                    }
                }
            },
            _ => {},
        }
        i += 1;
    }
    proof {
        assert(ships.take(n as int) =~= ships);
        assert(store@.entities =~= after_player(before, input).entities);
    }
}

} // verus!
