//! What holds of the simulation over whole runs, proved from the systems'
//! own definitions.

use vstd::arithmetic::power::pow;
use vstd::math::abs;
use vstd::prelude::*;

use crate::bug::{
    after_bug_movement, bug_moved, bug_step, sweep, DESCENT_STEP, DESCENT_STEPS, LEFT_EDGE,
    RIGHT_EDGE, SWEEP_STEP,
};
use crate::collision::{after_bug_zapper, struck, unharmed};
use crate::entity::{Body, Direction, Entity, Kind, MovementMode};
use crate::input::{held_before, presses, snapshots, InputSnapshot, RawInput};
use crate::laser::{after_laser_movement, laser_moved, laser_step, stays, LASER_STEP, TOP_EDGE};
use crate::player::{
    after_player, damped, steered, thrust, volley, LEFT_LIMIT, MAX_VELOCITY, RIGHT_LIMIT,
};
use crate::simulation::{frame, run};
use crate::store::{
    lemma_filter_map_values, lemma_filter_twice, lemma_filter_wf, of_kind, Scene,
};
use crate::units::Point;

verus! {

/// The players of a scene, oldest first.
pub open spec fn players(scene: Scene) -> Seq<Entity> {
    scene.entities.filter(of_kind(Kind::Player))
}

/// The entity after one frame of steering for each of `inputs`, in order.
pub open spec fn steered_through(e: Entity, inputs: Seq<InputSnapshot>) -> Entity
    decreases inputs.len(),
{
    if inputs.len() == 0 {
        e
    } else {
        steered(steered_through(e, inputs.drop_last()), inputs.last())
    }
}

/// The ship is between the side limits and no faster than the speed limit.
pub open spec fn within_limits(e: Entity) -> bool {
    e.body matches Body::Player { velocity_x } ==> LEFT_LIMIT <= e.position.x <= RIGHT_LIMIT
        && -MAX_VELOCITY <= velocity_x <= MAX_VELOCITY
}

/// The lasers of a volley carry the ids from `next_id` on, in order, and
/// none beyond the last id there is.
proof fn lemma_volley_ids(ships: Seq<Entity>, next_id: nat)
    requires
        next_id <= u64::MAX,
    ensures
        next_id + volley(ships, next_id).len() <= u64::MAX,
        forall|k: int|
            0 <= k < volley(ships, next_id).len() ==> (#[trigger] volley(ships, next_id)[k]).id.0
                == next_id + k,
    decreases ships.len(),
{
    if ships.len() > 0 {
        lemma_volley_ids(ships.drop_last(), next_id);
    }
}

/// A frame keeps a scene well-formed: ids stay in ascending order, and no
/// id is ever handed out twice.
pub proof fn law_frame_keeps_ids_in_order(scene: Scene, input: InputSnapshot)
    requires
        scene.wf(),
    ensures
        frame(scene, input).wf(),
{
    let ships = scene.entities.map_values(|e: Entity| steered(e, input));
    let first = after_player(scene, input);
    if input.fire_pressed_this_frame {
        lemma_volley_ids(ships, scene.next_id);
    }
    assert(first.wf()) by {
        assert forall|i: int, j: int| 0 <= i < j < first.entities.len()
            implies (#[trigger] first.entities[i]).id.0 < (#[trigger] first.entities[j]).id.0 by {
            if j < ships.len() {
                assert(scene.entities[i].id.0 < scene.entities[j].id.0);
            } else if i < ships.len() {
                assert(scene.entities[i].id.0 < scene.next_id);
            }
        }
    }
    let second = after_bug_movement(first);
    assert(second.wf()) by {
        assert forall|i: int, j: int| 0 <= i < j < second.entities.len()
            implies (#[trigger] second.entities[i]).id.0 < (#[trigger] second.entities[j]).id.0 by {
            assert(first.entities[i].id.0 < first.entities[j].id.0);
        }
    }
    let kept = Scene { entities: second.entities.filter(stays()), next_id: second.next_id };
    lemma_filter_wf(second, stays());
    let third = after_laser_movement(second);
    assert(third.wf()) by {
        assert forall|i: int, j: int| 0 <= i < j < third.entities.len()
            implies (#[trigger] third.entities[i]).id.0 < (#[trigger] third.entities[j]).id.0 by {
            assert(kept.entities[i].id.0 < kept.entities[j].id.0);
        }
    }
    lemma_filter_wf(third, unharmed(third.entities));
}

/// A run keeps a scene well-formed.
pub proof fn law_run_keeps_ids_in_order(scene: Scene, inputs: Seq<InputSnapshot>)
    requires
        scene.wf(),
    ensures
        run(scene, inputs).wf(),
    decreases inputs.len(),
{
    if inputs.len() > 0 {
        law_run_keeps_ids_in_order(scene, inputs.drop_last());
        law_frame_keeps_ids_in_order(run(scene, inputs.drop_last()), inputs.last());
    }
}

/// No entity of a volley is a player.
proof fn lemma_volley_is_lasers(ships: Seq<Entity>, next_id: nat)
    ensures
        volley(ships, next_id).filter(of_kind(Kind::Player)) == Seq::<Entity>::empty(),
    decreases ships.len(),
{
    reveal(Seq::filter);
    if ships.len() > 0 {
        lemma_volley_is_lasers(ships.drop_last(), next_id);
        let earlier = volley(ships.drop_last(), next_id);
        let fired = volley(ships, next_id);
        if fired.len() > earlier.len() {
            earlier.lemma_filter_push(fired.last(), of_kind(Kind::Player));
        }
    }
}

/// A change that leaves players alone and makes no player leaves the
/// players of a sequence as they were.
proof fn lemma_players_untouched(entities: Seq<Entity>, change: spec_fn(Entity) -> Entity)
    requires
        forall|i: int|
            0 <= i < entities.len() ==> change(#[trigger] entities[i]).body.kind()
                == entities[i].body.kind(),
        forall|i: int|
            0 <= i < entities.len() && (#[trigger] entities[i]).body is Player ==> change(
                entities[i],
            ) == entities[i],
    ensures
        entities.map_values(change).filter(of_kind(Kind::Player)) == entities.filter(
            of_kind(Kind::Player),
        ),
{
    let is_player = of_kind(Kind::Player);
    lemma_filter_map_values(entities, change, is_player);
    let kept = entities.filter(is_player);
    assert forall|k: int| 0 <= k < kept.len() implies change(#[trigger] kept[k]) == kept[k] by {
        entities.lemma_filter_pred(is_player, k);
        assert(kept.contains(kept[k]));
        entities.lemma_filter_contains_rev(is_player, kept[k]);
        let i = choose|i: int| 0 <= i < entities.len() && entities[i] == kept[k];
        assert(entities[i].body is Player);
    }
    assert(kept.map_values(change) =~= kept);
}

/// Only the player controller acts on players: after a frame the players
/// are the players from before, in the same order, each steered once.
pub proof fn law_frame_steers_players(scene: Scene, input: InputSnapshot)
    ensures
        players(frame(scene, input)) == players(scene).map_values(
            |e: Entity| steered(e, input),
        ),
{
    let is_player = of_kind(Kind::Player);
    let steer = |e: Entity| steered(e, input);
    // The player controller.
    let ships = scene.entities.map_values(steer);
    let first = after_player(scene, input);
    let lasers = if input.fire_pressed_this_frame {
        volley(ships, scene.next_id)
    } else {
        Seq::<Entity>::empty()
    };
    assert(first.entities == ships + lasers);
    Seq::filter_distributes_over_add(ships, lasers, is_player);
    if input.fire_pressed_this_frame {
        lemma_volley_is_lasers(ships, scene.next_id);
    } else {
        reveal(Seq::filter);
    }
    assert(lasers.filter(is_player) == Seq::<Entity>::empty());
    assert(ships.filter(is_player) + lasers.filter(is_player) =~= ships.filter(is_player));
    lemma_filter_map_values(scene.entities, steer, is_player);
    assert(players(first) == players(scene).map_values(steer));
    // Bug movement.
    let second = after_bug_movement(first);
    lemma_players_untouched(first.entities, |e: Entity| bug_moved(e));
    assert(players(second) == players(first));
    // The laser mover.
    let third = after_laser_movement(second);
    lemma_filter_twice(second.entities, stays(), is_player);
    lemma_players_untouched(second.entities.filter(stays()), |e: Entity| laser_moved(e));
    assert(players(third) == players(second));
    // The collision resolver.
    let untouched = unharmed(third.entities);
    assert forall|i: int|
        0 <= i < third.entities.len() && is_player(#[trigger] third.entities[i])
        implies untouched(third.entities[i]) by {}
    lemma_filter_twice(third.entities, untouched, is_player);
}

/// Over a whole run each player follows its inputs and nothing else.
pub proof fn law_run_steers_players(scene: Scene, inputs: Seq<InputSnapshot>)
    ensures
        players(run(scene, inputs)) == players(scene).map_values(
            |e: Entity| steered_through(e, inputs),
        ),
    decreases inputs.len(),
{
    let crew = players(scene);
    let through = crew.map_values(|e: Entity| steered_through(e, inputs));
    if inputs.len() == 0 {
        assert(through =~= crew);
    } else {
        let earlier = run(scene, inputs.drop_last());
        law_run_steers_players(scene, inputs.drop_last());
        law_frame_steers_players(earlier, inputs.last());
        let so_far = crew.map_values(|e: Entity| steered_through(e, inputs.drop_last()));
        assert(so_far.map_values(|e: Entity| steered(e, inputs.last())) =~= through);
    }
}

/// After any frame every ship is between the side limits and within the
/// speed limit, wherever and however fast it was before. So if the ships
/// start within the limits, they are within them before and after every
/// frame of a run.
pub proof fn law_players_within_limits(scene: Scene, inputs: Seq<InputSnapshot>)
    requires
        inputs.len() > 0 || forall|i: int|
            0 <= i < scene.entities.len() ==> within_limits(#[trigger] scene.entities[i]),
    ensures
        forall|i: int|
            0 <= i < run(scene, inputs).entities.len() ==> within_limits(
                #[trigger] run(scene, inputs).entities[i],
            ),
{
    if inputs.len() > 0 {
        let earlier = run(scene, inputs.drop_last());
        let after = run(scene, inputs);
        let is_player = of_kind(Kind::Player);
        law_frame_steers_players(earlier, inputs.last());
        assert forall|i: int| 0 <= i < after.entities.len() implies within_limits(
            #[trigger] after.entities[i],
        ) by {
            let e = after.entities[i];
            if e.body is Player {
                after.entities.lemma_filter_contains(is_player, i);
                let k = choose|k: int| 0 <= k < players(after).len() && players(after)[k] == e;
                earlier.entities.lemma_filter_pred(is_player, k);
                assert(e == steered(players(earlier)[k], inputs.last()));
            }
        }
    }
}

/// The ship stands still within the side limits.
pub open spec fn at_rest(e: Entity) -> bool {
    &&& e.body == Body::Player { velocity_x: 0 }
    &&& LEFT_LIMIT <= e.position.x <= RIGHT_LIMIT
}

/// A ship at rest that gets no thrust stays where it is, at rest, however
/// many frames pass.
pub proof fn law_rest_is_kept(e: Entity, inputs: Seq<InputSnapshot>)
    requires
        at_rest(e),
        forall|i: int| 0 <= i < inputs.len() ==> thrust(#[trigger] inputs[i]) == 0,
    ensures
        steered_through(e, inputs) == e,
    decreases inputs.len(),
{
    if inputs.len() > 0 {
        law_rest_is_kept(e, inputs.drop_last());
        assert(thrust(inputs[inputs.len() - 1]) == 0);
    }
}

/// In a run without thrust, a ship that starts at rest is found unchanged
/// after every frame.
pub proof fn law_resting_player_stays(scene: Scene, inputs: Seq<InputSnapshot>, k: int)
    requires
        0 <= k < players(scene).len(),
        at_rest(players(scene)[k]),
        forall|i: int| 0 <= i < inputs.len() ==> thrust(#[trigger] inputs[i]) == 0,
    ensures
        players(run(scene, inputs)).len() == players(scene).len(),
        players(run(scene, inputs))[k] == players(scene)[k],
{
    law_run_steers_players(scene, inputs);
    law_rest_is_kept(players(scene)[k], inputs);
}

/// The speed left of `velocity` after damping it once in each of `frames`
/// frames.
pub open spec fn decayed(velocity: int, frames: nat) -> int
    decreases frames,
{
    if frames == 0 {
        velocity
    } else {
        damped(decayed(velocity, (frames - 1) as nat))
    }
}

/// Damping a speed within the limit leaves it within the limit.
proof fn lemma_decayed_in_range(velocity: int, frames: nat)
    requires
        -MAX_VELOCITY <= velocity <= MAX_VELOCITY,
    ensures
        -MAX_VELOCITY <= decayed(velocity, frames) <= MAX_VELOCITY,
    decreases frames,
{
    if frames > 0 {
        lemma_decayed_in_range(velocity, (frames - 1) as nat);
    }
}

/// Without thrust the speed of a ship is damped once per frame and changes
/// in no other way.
pub proof fn law_coasting_velocity(e: Entity, inputs: Seq<InputSnapshot>)
    requires
        e.body is Player,
        -MAX_VELOCITY <= e.body->velocity_x <= MAX_VELOCITY,
        forall|i: int| 0 <= i < inputs.len() ==> thrust(#[trigger] inputs[i]) == 0,
    ensures
        steered_through(e, inputs).body == (Body::Player {
            velocity_x: decayed(e.body->velocity_x as int, inputs.len()) as i64,
        }),
    decreases inputs.len(),
{
    if inputs.len() > 0 {
        law_coasting_velocity(e, inputs.drop_last());
        lemma_decayed_in_range(e.body->velocity_x as int, (inputs.len() - 1) as nat);
        assert(thrust(inputs[inputs.len() - 1]) == 0);
    }
}

/// Damping shrinks a speed geometrically and never turns it around: after
/// `frames` frames it has the sign it had or is zero, its size is at most
/// `(3/4)^frames` of what it was, and falls short of that by less than three
/// sub-units, which is all that rounding toward zero takes away.
pub proof fn law_decay_is_geometric(velocity: int, frames: nat)
    ensures
        velocity >= 0 ==> decayed(velocity, frames) >= 0,
        velocity <= 0 ==> decayed(velocity, frames) <= 0,
        pow(4, frames) * abs(decayed(velocity, frames)) <= pow(3, frames) * abs(velocity),
        pow(4, frames) * (abs(decayed(velocity, frames)) + 3)
            >= pow(3, frames) * (abs(velocity) + 3),
    decreases frames,
{
    reveal(pow);
    if frames > 0 {
        let before = decayed(velocity, (frames - 1) as nat);
        let after = decayed(velocity, frames);
        let p4 = pow(4, (frames - 1) as nat);
        let p3 = pow(3, (frames - 1) as nat);
        law_decay_is_geometric(velocity, (frames - 1) as nat);
        vstd::arithmetic::power::lemma_pow_positive(4, (frames - 1) as nat);
        vstd::arithmetic::power::lemma_pow_positive(3, (frames - 1) as nat);
        let a = abs(before) as int;
        let b = abs(after) as int;
        let v = abs(velocity) as int;
        assert(4 * b <= 3 * a && 4 * b + 3 >= 3 * a);
        assert(4 * p4 * b <= 3 * p3 * v) by (nonlinear_arith)
            requires
                4 * b <= 3 * a,
                p4 * a <= p3 * v,
                p4 > 0,
                p3 > 0,
        ;
        assert(4 * p4 * (b + 3) >= 3 * p3 * (v + 3)) by (nonlinear_arith)
            requires
                4 * b + 3 >= 3 * a,
                p4 * (a + 3) >= p3 * (v + 3),
                p4 > 0,
                p3 > 0,
        ;
    }
}

/// The frames a ship at full speed needs at most to come to rest once the
/// thrust has ended.
pub const COASTING_FRAMES: u32 = 49;

/// A speed within the limit has decayed to nothing after forty-nine frames,
/// and stays nothing.
pub proof fn law_decay_comes_to_rest(velocity: int, frames: nat)
    requires
        -MAX_VELOCITY <= velocity <= MAX_VELOCITY,
        frames >= COASTING_FRAMES,
    ensures
        decayed(velocity, frames) == 0,
    decreases frames,
{
    if frames == COASTING_FRAMES {
        law_decay_is_geometric(velocity, 49);
        let left = abs(decayed(velocity, 49)) as int;
        let size = abs(velocity) as int;
        assert(pow(3, 49) == 239299329230617529590083
            && pow(4, 49) == 316912650057057350374175801344) by {
            reveal_with_fuel(pow, 50);
        }
        assert(239299329230617529590083 * size < 316912650057057350374175801344) by (nonlinear_arith)
            requires
                0 <= size <= 1048576,
        ;
        assert(left < 1) by (nonlinear_arith)
            requires
                316912650057057350374175801344 * left <= 239299329230617529590083 * size,
                239299329230617529590083 * size < 316912650057057350374175801344,
                left >= 0,
        ;
    } else {
        law_decay_comes_to_rest(velocity, (frames - 1) as nat);
    }
}

/// A bug sweeping left turns to descend, with the full count and bound to
/// come back sweeping right, in the very frame in which its step takes it
/// left of the left edge; until then it keeps sweeping left. The same holds
/// mirrored at the right edge.
pub proof fn law_sweep_turns_at_edge(position: Point)
    ensures
        bug_step(position, MovementMode::SweepLeft).1 == if position.x - SWEEP_STEP < LEFT_EDGE {
            MovementMode::Descend {
                remaining_steps: DESCENT_STEPS,
                next_direction: Direction::Right,
            }
        } else {
            MovementMode::SweepLeft
        },
        bug_step(position, MovementMode::SweepRight).1 == if position.x + SWEEP_STEP > RIGHT_EDGE {
            MovementMode::Descend {
                remaining_steps: DESCENT_STEPS,
                next_direction: Direction::Left,
            }
        } else {
            MovementMode::SweepRight
        },
{
}

/// Where a bug stands and what it does after `frames` frames.
pub open spec fn bug_after(position: Point, mode: MovementMode, frames: nat) -> (
    Point,
    MovementMode,
)
    decreases frames,
{
    if frames == 0 {
        (position, mode)
    } else {
        let earlier = bug_after(position, mode, (frames - 1) as nat);
        bug_step(earlier.0, earlier.1)
    }
}

/// A descent with `remaining_steps` on its count moves the bug straight down
/// for `remaining_steps + 1` frames, counting down by one per frame, and the
/// last of these frames switches to sweeping in `next_direction`. A descent
/// begun at an edge, with twelve on its count, thus takes thirteen frames.
pub proof fn law_descent_ends_in_sweep(
    position: Point,
    remaining_steps: u32,
    next_direction: Direction,
    frames: nat,
)
    requires
        frames <= remaining_steps + 1,
        position.y - frames * DESCENT_STEP >= i64::MIN,
    ensures
        bug_after(
            position,
            MovementMode::Descend { remaining_steps, next_direction },
            frames,
        ) == (
            Point { x: position.x, y: (position.y - frames * DESCENT_STEP) as i64 },
            if frames <= remaining_steps {
                MovementMode::Descend {
                    remaining_steps: (remaining_steps - frames) as u32,
                    next_direction,
                }
            } else {
                sweep(next_direction)
            },
        ),
    decreases frames,
{
    if frames > 0 {
        let earlier = (frames - 1) as nat;
        assert(earlier * DESCENT_STEP == frames * DESCENT_STEP - DESCENT_STEP
            && earlier * DESCENT_STEP >= 0) by (nonlinear_arith)
            requires
                earlier == frames - 1,
                DESCENT_STEP > 0,
        ;
        law_descent_ends_in_sweep(position, remaining_steps, next_direction, earlier);
    } else {
        assert(frames * DESCENT_STEP == 0) by (nonlinear_arith)
            requires
                frames == 0,
        ;
    }
}

/// Where a laser is after `frames` frames, or `None` once it has left the
/// screen.
pub open spec fn laser_after(position: Point, frames: nat) -> Option<Point>
    decreases frames,
{
    if frames == 0 {
        Some(position)
    } else {
        match laser_after(position, (frames - 1) as nat) {
            Some(earlier) => laser_step(earlier),
            None => None,
        }
    }
}

/// A laser rises by one step per frame for as long as that keeps it at or
/// below the top edge, and is gone from the first frame that would take it
/// higher. Fired from height zero it is on the top edge after sixty frames
/// and gone after the sixty-first.
pub proof fn law_laser_flight(position: Point, frames: nat)
    requires
        frames > 0 || position.y <= TOP_EDGE,
    ensures
        laser_after(position, frames) == if position.y + frames * LASER_STEP <= TOP_EDGE {
            Some(Point { x: position.x, y: (position.y + frames * LASER_STEP) as i64 })
        } else {
            None
        },
    decreases frames,
{
    if frames > 1 || (frames == 1 && position.y <= TOP_EDGE) {
        assert((frames - 1) * LASER_STEP == frames * LASER_STEP - LASER_STEP) by (nonlinear_arith);
        law_laser_flight(position, (frames - 1) as nat);
    } else if frames == 1 {
        assert(laser_after(position, 0) == Some(position));
        assert(frames * LASER_STEP == LASER_STEP) by (nonlinear_arith)
            requires
                frames == 1,
        ;
    } else {
        assert(frames * LASER_STEP == 0) by (nonlinear_arith)
            requires
                frames == 0,
        ;
    }
}

/// The collision resolver takes out exactly the entities that are struck:
/// after it has run, a struck entity's id is gone from the scene, and every
/// other entity is still there as it was.
pub proof fn law_zapper_removes_the_struck(scene: Scene, i: int)
    requires
        scene.wf(),
        0 <= i < scene.entities.len(),
    ensures
        struck(scene.entities[i], scene.entities) ==> !after_bug_zapper(scene).contains(
            scene.entities[i].id,
        ),
        !struck(scene.entities[i], scene.entities) ==> after_bug_zapper(scene).entities.contains(
            scene.entities[i],
        ),
{
    let e = scene.entities[i];
    let keep = unharmed(scene.entities);
    let after = after_bug_zapper(scene);
    if struck(e, scene.entities) {
        assert forall|k: int| 0 <= k < after.entities.len()
            implies (#[trigger] after.entities[k]).id != e.id by {
            let kept = after.entities[k];
            scene.entities.lemma_filter_pred(keep, k);
            assert(after.entities.contains(kept));
            scene.entities.lemma_filter_contains_rev(keep, kept);
            let j = choose|j: int| 0 <= j < scene.entities.len() && scene.entities[j] == kept;
            if j < i {
                assert(scene.entities[j].id.0 < scene.entities[i].id.0);
            } else if i < j {
                assert(scene.entities[i].id.0 < scene.entities[j].id.0);
            }
        }
    } else {
        scene.entities.lemma_filter_contains(keep, i);
    }
}

/// While the fire key stays down it counts as pressed at most once, in the
/// frame in which it went down: no later frame of the hold sees a press.
pub proof fn law_hold_is_one_press(fire_was_held: bool, raws: Seq<RawInput>, from: int, to: int)
    requires
        0 <= from <= to < raws.len(),
        forall|k: int| from <= k <= to ==> (#[trigger] raws[k]).fire_held,
    ensures
        snapshots(fire_was_held, raws)[from].fire_pressed_this_frame == !held_before(
            fire_was_held,
            raws,
            from,
        ),
        forall|k: int|
            from < k <= to ==> !(#[trigger] snapshots(fire_was_held, raws)[k])
                .fire_pressed_this_frame,
{
    let seen = snapshots(fire_was_held, raws);
    assert forall|k: int| from < k <= to implies !(#[trigger] seen[k]).fire_pressed_this_frame by {
        assert(raws[k - 1].fire_held);
    }
}

/// The number of lasers fired in the course of a run. Ids are handed out in
/// order, and in a frame only the volley of the player controller gets any.
pub open spec fn fired_during(scene: Scene, inputs: Seq<InputSnapshot>) -> int {
    run(scene, inputs).next_id - scene.next_id
}

/// While ids last, a volley holds one laser for each player.
proof fn lemma_volley_len(ships: Seq<Entity>, next_id: nat)
    requires
        next_id + ships.filter(of_kind(Kind::Player)).len() <= u64::MAX,
    ensures
        volley(ships, next_id).len() == ships.filter(of_kind(Kind::Player)).len(),
    decreases ships.len(),
{
    reveal(Seq::filter);
    if ships.len() > 0 {
        ships.drop_last().lemma_filter_len(of_kind(Kind::Player));
        lemma_volley_len(ships.drop_last(), next_id);
    }
}

/// A frame fires one laser per player if fire was pressed in it, and none
/// if not, as long as the store has ids left.
pub proof fn law_frame_fires_once(scene: Scene, input: InputSnapshot)
    requires
        input.fire_pressed_this_frame ==> scene.next_id + players(scene).len() <= u64::MAX,
    ensures
        frame(scene, input).next_id == scene.next_id + if input.fire_pressed_this_frame {
            players(scene).len()
        } else {
            0
        },
{
    let steer = |e: Entity| steered(e, input);
    let ships = scene.entities.map_values(steer);
    lemma_filter_map_values(scene.entities, steer, of_kind(Kind::Player));
    if input.fire_pressed_this_frame {
        lemma_volley_len(ships, scene.next_id);
    }
}

/// Holding the fire key fires once: over a run the players fire exactly one
/// laser each for every time the key goes down, however long it is held,
/// as long as the store has ids left.
pub proof fn law_one_laser_per_press(scene: Scene, fire_was_held: bool, raws: Seq<RawInput>)
    requires
        scene.next_id + presses(fire_was_held, raws) * players(scene).len() <= u64::MAX,
    ensures
        fired_during(scene, snapshots(fire_was_held, raws)) == presses(fire_was_held, raws)
            * players(scene).len(),
    decreases raws.len(),
{
    let inputs = snapshots(fire_was_held, raws);
    let crew = players(scene).len();
    if raws.len() == 0 {
        assert(presses(fire_was_held, raws) * crew == 0) by (nonlinear_arith)
            requires
                presses(fire_was_held, raws) == 0,
        ;
    } else {
        let shorter = raws.drop_last();
        let earlier = presses(fire_was_held, shorter);
        let all = presses(fire_was_held, raws);
        assert(inputs.drop_last() =~= snapshots(fire_was_held, shorter));
        assert(earlier * crew <= all * crew
            && (all == earlier + 1 ==> all * crew == earlier * crew + crew)) by (nonlinear_arith)
            requires
                earlier <= all,
                crew >= 0,
        ;
        law_one_laser_per_press(scene, fire_was_held, shorter);
        let before = run(scene, snapshots(fire_was_held, shorter));
        law_run_steers_players(scene, snapshots(fire_was_held, shorter));
        assert(players(before).len() == crew);
        if inputs.last().fire_pressed_this_frame {
            assert(all == earlier + 1);
        } else {
            assert(all == earlier);
        }
        law_frame_fires_once(before, inputs.last());
    }
}

} // verus!
