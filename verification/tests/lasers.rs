use invaders::entity::{Body, EntityId, Kind, MovementMode};
use invaders::laser::{advance_laser, laser_movement, LASER_STEP, TOP_EDGE};
use invaders::store::EntityStore;
use invaders::units::{Point, UNIT};

#[test]
fn laser_constants_are_in_sub_units() {
    assert_eq!(LASER_STEP, 4 * 65536);
    assert_eq!(TOP_EDGE, 240 * 65536);
}

#[test]
fn laser_rises_four_units_and_keeps_its_x() {
    assert_eq!(advance_laser(Point::from_units(17, -196)), Some(Point::from_units(17, -192)));
}

#[test]
fn laser_on_the_top_edge_is_still_alive() {
    assert_eq!(advance_laser(Point::from_units(0, 236)), Some(Point::from_units(0, 240)));
}

#[test]
fn laser_above_the_top_edge_is_gone() {
    assert_eq!(advance_laser(Point::from_units(0, 240)), None);
    assert_eq!(advance_laser(Point { x: 0, y: 236 * UNIT + 1 }), None);
    assert_eq!(advance_laser(Point { x: 0, y: i64::MAX }), None);
}

#[test]
fn laser_from_height_zero_lives_sixty_frames() {
    let mut store = EntityStore::new();
    let id = store.create(Point::from_units(33, 0), Body::Laser).unwrap();
    for frame in 1..=60 {
        laser_movement(&mut store);
        assert_eq!(store.position(id), Some(Point::from_units(33, 4 * frame)));
    }
    assert_eq!(store.position(id), Some(Point::from_units(33, 240)));
    laser_movement(&mut store);
    assert!(!store.contains(id));
    assert_eq!(store.len(), 0);
}

#[test]
fn laser_movement_leaves_other_kinds_alone() {
    let mut store = EntityStore::new();
    store.create(Point::from_units(0, 500), Body::Player { velocity_x: 3 });
    store.create(Point::from_units(0, 500), Body::Bug { movement_mode: MovementMode::SweepRight });
    store.create(Point::from_units(1, 238), Body::Laser);
    store.create(Point::from_units(2, 100), Body::Laser);
    store.create(Point::from_units(3, 236), Body::Laser);
    laser_movement(&mut store);
    assert_eq!(store.len(), 4);
    assert_eq!(store.entity_at(0).position, Point::from_units(0, 500));
    assert_eq!(store.entity_at(1).position, Point::from_units(0, 500));
    assert_eq!(store.ids(Kind::Laser), vec![EntityId(3), EntityId(4)]);
    assert_eq!(store.entity_at(2).position, Point::from_units(2, 104));
    assert_eq!(store.entity_at(3).position, Point::from_units(3, 240));
}
