use invaders::entity::{Body, Direction, Entity, EntityId, Kind, MovementMode, Sprite};
use invaders::store::EntityStore;
use invaders::units::{clamp_to, offset, Point, UNIT};

fn bug_body() -> Body {
    Body::Bug { movement_mode: MovementMode::SweepLeft }
}

#[test]
fn new_store_is_empty() {
    let store = EntityStore::new();
    assert_eq!(store.len(), 0);
    assert!(store.render_view().is_empty());
    assert!(store.ids(Kind::Player).is_empty());
}

#[test]
fn create_hands_out_ids_in_order() {
    let mut store = EntityStore::new();
    let a = store.create(Point::from_units(1, 2), Body::Laser);
    let b = store.create(Point::from_units(3, 4), bug_body());
    let c = store.create(Point::from_units(5, 6), Body::Player { velocity_x: 7 });
    assert_eq!(a, Some(EntityId(0)));
    assert_eq!(b, Some(EntityId(1)));
    assert_eq!(c, Some(EntityId(2)));
    assert_eq!(store.len(), 3);
    assert_eq!(
        store.entity_at(1),
        Entity { id: EntityId(1), position: Point::from_units(3, 4), body: bug_body() }
    );
}

#[test]
fn store_can_start_at_any_id() {
    let mut store = EntityStore::with_first_id(500);
    assert_eq!(store.len(), 0);
    assert_eq!(store.create(Point::from_units(0, 0), Body::Laser), Some(EntityId(500)));
    assert_eq!(store.create(Point::from_units(0, 0), Body::Laser), Some(EntityId(501)));
}

#[test]
fn create_fails_only_when_every_id_is_used() {
    let mut store = EntityStore::with_first_id(u64::MAX - 1);
    assert_eq!(store.create(Point::from_units(1, 1), Body::Laser), Some(EntityId(u64::MAX - 1)));
    assert_eq!(store.create(Point::from_units(2, 2), Body::Laser), None);
    assert_eq!(store.create(Point::from_units(3, 3), Body::Laser), None);
    assert_eq!(store.len(), 1);
    assert_eq!(store.entity_at(0).position, Point::from_units(1, 1));
}

#[test]
fn ids_are_never_reused() {
    let mut store = EntityStore::new();
    let a = store.create(Point::from_units(0, 0), Body::Laser).unwrap();
    store.destroy(a);
    let b = store.create(Point::from_units(0, 0), Body::Laser).unwrap();
    assert_ne!(a, b);
    assert_eq!(b, EntityId(1));
}

#[test]
fn get_and_position_find_live_entities_only() {
    let mut store = EntityStore::new();
    let a = store.create(Point::from_units(10, 20), Body::Laser).unwrap();
    assert!(store.contains(a));
    assert_eq!(store.find(a), Some(0));
    assert_eq!(store.position(a), Some(Point { x: 10 * UNIT, y: 20 * UNIT }));
    assert_eq!(
        store.get(a),
        Some(Entity { id: a, position: Point::from_units(10, 20), body: Body::Laser })
    );
    let missing = EntityId(99);
    assert!(!store.contains(missing));
    assert_eq!(store.find(missing), None);
    assert_eq!(store.position(missing), None);
    assert_eq!(store.get(missing), None);
}

#[test]
fn set_position_moves_one_entity() {
    let mut store = EntityStore::new();
    let a = store.create(Point::from_units(1, 1), Body::Laser).unwrap();
    let b = store.create(Point::from_units(2, 2), bug_body()).unwrap();
    assert!(store.set_position(b, Point::from_units(-7, 9)));
    assert_eq!(store.position(a), Some(Point::from_units(1, 1)));
    assert_eq!(store.position(b), Some(Point::from_units(-7, 9)));
    assert_eq!(store.get(b).unwrap().body, bug_body());
}

#[test]
fn set_position_of_missing_id_changes_nothing() {
    let mut store = EntityStore::new();
    let a = store.create(Point::from_units(1, 1), Body::Laser).unwrap();
    assert!(!store.set_position(EntityId(5), Point::from_units(3, 3)));
    assert_eq!(store.len(), 1);
    assert_eq!(store.position(a), Some(Point::from_units(1, 1)));
}

#[test]
fn destroy_removes_entity_and_keeps_order() {
    let mut store = EntityStore::new();
    let a = store.create(Point::from_units(1, 0), Body::Laser).unwrap();
    let b = store.create(Point::from_units(2, 0), Body::Laser).unwrap();
    let c = store.create(Point::from_units(3, 0), Body::Laser).unwrap();
    store.destroy(b);
    assert_eq!(store.len(), 2);
    assert!(!store.contains(b));
    assert_eq!(store.ids(Kind::Laser), vec![a, c]);
}

#[test]
fn destroy_is_idempotent() {
    let mut store = EntityStore::new();
    let a = store.create(Point::from_units(1, 0), Body::Laser).unwrap();
    let b = store.create(Point::from_units(2, 0), bug_body()).unwrap();
    store.destroy(a);
    store.destroy(a);
    assert_eq!(store.len(), 1);
    assert!(store.contains(b));
}

#[test]
fn destroy_of_unknown_id_is_a_no_op() {
    let mut store = EntityStore::new();
    let a = store.create(Point::from_units(1, 0), Body::Laser).unwrap();
    store.destroy(EntityId(1234));
    assert_eq!(store.len(), 1);
    assert!(store.contains(a));
}

#[test]
fn destroy_all_takes_duplicates_and_strangers() {
    let mut store = EntityStore::new();
    let a = store.create(Point::from_units(1, 0), Body::Laser).unwrap();
    let b = store.create(Point::from_units(2, 0), bug_body()).unwrap();
    let c = store.create(Point::from_units(3, 0), bug_body()).unwrap();
    store.destroy_all(&vec![c, EntityId(77), a, c, a]);
    assert_eq!(store.len(), 1);
    assert_eq!(store.entity_at(0).id, b);
}

#[test]
fn destroy_all_of_nothing_changes_nothing() {
    let mut store = EntityStore::new();
    store.create(Point::from_units(1, 0), Body::Laser);
    store.destroy_all(&Vec::new());
    assert_eq!(store.len(), 1);
}

#[test]
fn ids_lists_one_kind_oldest_first() {
    let mut store = EntityStore::new();
    let p = store.create(Point::from_units(0, 0), Body::Player { velocity_x: 0 }).unwrap();
    let b1 = store.create(Point::from_units(0, 0), bug_body()).unwrap();
    let l = store.create(Point::from_units(0, 0), Body::Laser).unwrap();
    let b2 = store.create(Point::from_units(0, 0), bug_body()).unwrap();
    assert_eq!(store.ids(Kind::Player), vec![p]);
    assert_eq!(store.ids(Kind::Bug), vec![b1, b2]);
    assert_eq!(store.ids(Kind::Laser), vec![l]);
}

#[test]
fn render_view_shows_kind_and_position_of_each_entity() {
    let mut store = EntityStore::new();
    store.create(Point::from_units(0, -220), Body::Player { velocity_x: 5 });
    store.create(
        Point::from_units(30, 200),
        Body::Bug {
            movement_mode: MovementMode::Descend {
                remaining_steps: 3,
                next_direction: Direction::Left,
            },
        },
    );
    store.create(Point::from_units(0, -196), Body::Laser);
    assert_eq!(
        store.render_view(),
        vec![
            Sprite { kind: Kind::Player, position: Point::from_units(0, -220) },
            Sprite { kind: Kind::Bug, position: Point::from_units(30, 200) },
            Sprite { kind: Kind::Laser, position: Point::from_units(0, -196) },
        ]
    );
}

#[test]
fn replace_at_keeps_the_id() {
    let mut store = EntityStore::new();
    store.create(Point::from_units(0, 0), Body::Laser);
    let id = store.create(Point::from_units(1, 1), Body::Player { velocity_x: 0 }).unwrap();
    store.replace_at(1, Point::from_units(4, 5), Body::Player { velocity_x: -3 });
    assert_eq!(
        store.entity_at(1),
        Entity { id, position: Point::from_units(4, 5), body: Body::Player { velocity_x: -3 } }
    );
    assert_eq!(store.entity_at(0).body, Body::Laser);
}

#[test]
fn body_knows_its_kind() {
    assert_eq!(Body::Player { velocity_x: 1 }.kind(), Kind::Player);
    assert_eq!(bug_body().kind(), Kind::Bug);
    assert_eq!(Body::Laser.kind(), Kind::Laser);
}

#[test]
fn point_from_units_scales_by_unit() {
    assert_eq!(UNIT, 65536);
    assert_eq!(Point::from_units(3, -2), Point { x: 196608, y: -131072 });
    assert_eq!(Point::new(5, 6), Point { x: 5, y: 6 });
    assert_eq!(
        Point::from_units(i32::MAX, i32::MIN),
        Point { x: 2147483647 * 65536, y: -2147483648 * 65536 }
    );
}

#[test]
fn clamp_to_limits_both_ways() {
    assert_eq!(clamp_to(5, -3, 3), 3);
    assert_eq!(clamp_to(-5, -3, 3), -3);
    assert_eq!(clamp_to(2, -3, 3), 2);
    assert_eq!(clamp_to(3, -3, 3), 3);
    assert_eq!(clamp_to(7, 4, 4), 4);
}

#[test]
fn offset_stops_at_the_ends_of_the_range() {
    assert_eq!(offset(10, -25), -15);
    assert_eq!(offset(i64::MAX, 1), i64::MAX);
    assert_eq!(offset(i64::MAX - 3, 10), i64::MAX);
    assert_eq!(offset(i64::MIN, -1), i64::MIN);
    assert_eq!(offset(i64::MIN + 3, -10), i64::MIN);
    assert_eq!(offset(i64::MIN, i64::MAX), -1);
}
