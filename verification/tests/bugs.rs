use invaders::bug::{
    advance_bug, bug_movement, DESCENT_STEP, DESCENT_STEPS, LEFT_EDGE, RIGHT_EDGE, SWEEP_STEP,
};
use invaders::entity::{Body, Direction, MovementMode};
use invaders::store::EntityStore;
use invaders::units::{Point, UNIT};

fn descend(remaining_steps: u32, next_direction: Direction) -> MovementMode {
    MovementMode::Descend { remaining_steps, next_direction }
}

#[test]
fn bug_constants_are_in_sub_units() {
    assert_eq!(SWEEP_STEP, 2 * 65536);
    assert_eq!(DESCENT_STEP, 2 * 65536);
    assert_eq!(LEFT_EDGE, -300 * 65536);
    assert_eq!(RIGHT_EDGE, 300 * 65536);
    assert_eq!(DESCENT_STEPS, 12);
}

#[test]
fn sweep_left_moves_two_units_left() {
    let (p, m) = advance_bug(Point::from_units(0, 200), MovementMode::SweepLeft);
    assert_eq!(p, Point::from_units(-2, 200));
    assert_eq!(m, MovementMode::SweepLeft);
}

#[test]
fn sweep_right_moves_two_units_right() {
    let (p, m) = advance_bug(Point::from_units(0, 170), MovementMode::SweepRight);
    assert_eq!(p, Point::from_units(2, 170));
    assert_eq!(m, MovementMode::SweepRight);
}

#[test]
fn sweep_left_crossing_the_edge_turns_to_descend_in_the_same_frame() {
    let (p, m) = advance_bug(Point::from_units(-299, 200), MovementMode::SweepLeft);
    assert_eq!(p, Point::from_units(-301, 200));
    assert_eq!(m, descend(12, Direction::Right));
}

#[test]
fn sweep_left_reaching_the_edge_exactly_keeps_sweeping() {
    let (p, m) = advance_bug(Point::from_units(-298, 200), MovementMode::SweepLeft);
    assert_eq!(p, Point::from_units(-300, 200));
    assert_eq!(m, MovementMode::SweepLeft);
    let (p, m) = advance_bug(Point { x: -298 * UNIT - 1, y: 0 }, MovementMode::SweepLeft);
    assert_eq!(p, Point { x: -300 * UNIT - 1, y: 0 });
    assert_eq!(m, descend(12, Direction::Right));
}

#[test]
fn sweep_right_crossing_the_edge_turns_to_descend_in_the_same_frame() {
    let (p, m) = advance_bug(Point::from_units(299, 170), MovementMode::SweepRight);
    assert_eq!(p, Point::from_units(301, 170));
    assert_eq!(m, descend(12, Direction::Left));
    let (p, m) = advance_bug(Point::from_units(298, 170), MovementMode::SweepRight);
    assert_eq!(p, Point::from_units(300, 170));
    assert_eq!(m, MovementMode::SweepRight);
}

#[test]
fn descend_steps_down_and_counts() {
    let (p, m) = advance_bug(Point::from_units(-301, 200), descend(12, Direction::Right));
    assert_eq!(p, Point::from_units(-301, 198));
    assert_eq!(m, descend(11, Direction::Right));
    let (p, m) = advance_bug(p, descend(1, Direction::Left));
    assert_eq!(p, Point::from_units(-301, 196));
    assert_eq!(m, descend(0, Direction::Left));
}

#[test]
fn descend_with_nothing_left_still_steps_down_and_then_sweeps() {
    let (p, m) = advance_bug(Point::from_units(5, 100), descend(0, Direction::Right));
    assert_eq!(p, Point::from_units(5, 98));
    assert_eq!(m, MovementMode::SweepRight);
    let (p, m) = advance_bug(Point::from_units(5, 100), descend(0, Direction::Left));
    assert_eq!(p, Point::from_units(5, 98));
    assert_eq!(m, MovementMode::SweepLeft);
}

#[test]
fn full_descent_resumes_sweeping_in_next_direction() {
    let mut p = Point::from_units(-301, 200);
    let mut m = descend(12, Direction::Right);
    for k in 1..=12u32 {
        let next = advance_bug(p, m);
        p = next.0;
        m = next.1;
        assert_eq!(m, descend(12 - k, Direction::Right));
        assert_eq!(p, Point::from_units(-301, 200 - 2 * k as i32));
    }
    let (p, m) = advance_bug(p, m);
    assert_eq!(m, MovementMode::SweepRight);
    assert_eq!(p, Point::from_units(-301, 174));
    let (p, m) = advance_bug(p, m);
    assert_eq!(m, MovementMode::SweepRight);
    assert_eq!(p, Point::from_units(-299, 174));
}

#[test]
fn bug_cycles_through_all_three_modes() {
    let mut p = Point::from_units(296, 0);
    let mut m = MovementMode::SweepRight;
    let mut seen_descend = false;
    let mut seen_left = false;
    for _ in 0..40 {
        let next = advance_bug(p, m);
        p = next.0;
        m = next.1;
        match m {
            MovementMode::Descend { next_direction, .. } => {
                assert_eq!(next_direction, Direction::Left);
                seen_descend = true;
            }
            MovementMode::SweepLeft => seen_left = true,
            MovementMode::SweepRight => {}
        }
    }
    assert!(seen_descend && seen_left);
    assert_eq!(p.y, -26 * UNIT);
}

#[test]
fn bug_position_stops_at_the_end_of_the_range() {
    let (p, m) = advance_bug(Point { x: i64::MIN + 1, y: 0 }, MovementMode::SweepLeft);
    assert_eq!(p, Point { x: i64::MIN, y: 0 });
    assert_eq!(m, descend(12, Direction::Right));
    let (p, m) = advance_bug(Point { x: i64::MAX, y: 0 }, MovementMode::SweepRight);
    assert_eq!(p, Point { x: i64::MAX, y: 0 });
    assert_eq!(m, descend(12, Direction::Left));
    let (p, m) = advance_bug(Point { x: 0, y: i64::MIN + 7 }, descend(3, Direction::Left));
    assert_eq!(p, Point { x: 0, y: i64::MIN });
    assert_eq!(m, descend(2, Direction::Left));
}

#[test]
fn bug_movement_moves_each_bug_independently() {
    let mut store = EntityStore::new();
    store.create(Point::from_units(0, -220), Body::Player { velocity_x: 9 });
    store.create(Point::from_units(-299, 200), Body::Bug { movement_mode: MovementMode::SweepLeft });
    store.create(Point::from_units(0, 170), Body::Bug { movement_mode: MovementMode::SweepRight });
    store.create(Point::from_units(7, 7), Body::Laser);
    store.create(
        Point::from_units(50, 50),
        Body::Bug { movement_mode: descend(0, Direction::Left) },
    );
    bug_movement(&mut store);
    assert_eq!(store.len(), 5);
    assert_eq!(store.entity_at(0).position, Point::from_units(0, -220));
    assert_eq!(store.entity_at(0).body, Body::Player { velocity_x: 9 });
    assert_eq!(store.entity_at(1).position, Point::from_units(-301, 200));
    assert_eq!(
        store.entity_at(1).body,
        Body::Bug { movement_mode: descend(12, Direction::Right) }
    );
    assert_eq!(store.entity_at(2).position, Point::from_units(2, 170));
    assert_eq!(store.entity_at(2).body, Body::Bug { movement_mode: MovementMode::SweepRight });
    assert_eq!(store.entity_at(3).position, Point::from_units(7, 7));
    assert_eq!(store.entity_at(4).position, Point::from_units(50, 48));
    assert_eq!(store.entity_at(4).body, Body::Bug { movement_mode: MovementMode::SweepLeft });
}
