//! The laser mover: lasers fly straight up and end above the screen.

use vstd::prelude::*;

use crate::entity::{Body, Entity, EntityId};
use crate::store::{lemma_filter_agree, lemma_filter_map_values, spared, EntityStore, Scene};
use crate::units::{Point, UNIT};

verus! {

/// How far a laser rises in one frame.
pub const LASER_STEP: i64 = 4 * UNIT;

/// A laser that has risen above this line is gone.
pub const TOP_EDGE: i64 = 240 * UNIT;

/// One frame of a laser at `position`: where it then is, or `None` when the
/// step takes it above the top edge.
pub open spec fn laser_step(position: Point) -> Option<Point> {
    if position.y + LASER_STEP > TOP_EDGE {
        None
    } else {
        Some(Point { x: position.x, y: (position.y + LASER_STEP) as i64 })
    }
}

/// The entity is a laser whose next step takes it off the screen.
pub open spec fn leaving(e: Entity) -> bool {
    e.body is Laser && laser_step(e.position).is_none()
}

/// The test "this entity is not a laser that is about to leave the screen".
pub open spec fn stays() -> spec_fn(Entity) -> bool {
    |e: Entity| !leaving(e)
}

/// One frame of an entity that stays: lasers rise, the rest do not move.
pub open spec fn laser_moved(e: Entity) -> Entity {
    match (e.body, laser_step(e.position)) {
        (Body::Laser, Some(position)) => Entity { id: e.id, position, body: e.body },
        _ => e,
    }
}

/// The scene after the laser mover has run: the lasers that leave the screen
/// are destroyed, the others have risen.
pub open spec fn after_laser_movement(scene: Scene) -> Scene {
    Scene {
        entities: scene.entities.filter(stays()).map_values(|e: Entity| laser_moved(e)),
        next_id: scene.next_id,
    }
}

/// Among the first `bound` of `entities`, the one named `id` is a laser that
/// is about to leave the screen.
spec fn leaves(entities: Seq<Entity>, bound: int, id: EntityId) -> bool {
    exists|k: int| 0 <= k < bound && (#[trigger] entities[k]).id == id && leaving(entities[k])
}

/// Moves one laser by one frame. Returns where it then is, or `None` when
/// it has left the screen.
pub fn advance_laser(position: Point) -> (next: Option<Point>)
    ensures
        next == laser_step(position),
{
    if position.y > TOP_EDGE - LASER_STEP {
        None
    } else {
        Some(Point { x: position.x, y: position.y + LASER_STEP })
    }
}

/// The laser mover: every laser in the store rises by one step, and those
/// that leave the screen are destroyed.
pub fn laser_movement(store: &mut EntityStore)
    requires
        old(store).wf(),
    ensures
        final(store).wf(),
        final(store)@ == after_laser_movement(old(store)@),
{
    let ghost before = store@;
    let n = store.len();
    let mut gone: Vec<EntityId> = Vec::new();
    let mut i: usize = 0;
    while i < n
        invariant
            store.wf(),
            i <= n,
            n == before.entities.len(),
            before.wf(),
            store@.next_id == before.next_id,
            store@.entities.len() == n,
            forall|k: int|
                0 <= k < i ==> #[trigger] store@.entities[k] == laser_moved(before.entities[k]),
            forall|k: int| i <= k < n ==> #[trigger] store@.entities[k] == before.entities[k],
            forall|k: int|
                0 <= k < i && leaving(#[trigger] before.entities[k])
                    ==> gone@.contains(before.entities[k].id),
            forall|j: int|
                0 <= j < gone@.len() ==> leaves(before.entities, i as int, #[trigger] gone@[j]),
        decreases n - i,
    {
        let e = store.entity_at(i);
        match e.body {
            Body::Laser => {
                match advance_laser(e.position) {
                    Some(position) => {
                        store.replace_at(i, position, e.body);
                    },
                    None => {
                        let ghost earlier = gone@;
                        gone.push(e.id);
                        proof {
                            assert forall|j: int| 0 <= j < gone@.len() implies leaves(
                                before.entities,
                                i + 1,
                                #[trigger] gone@[j],
                            ) by {
                                if j < earlier.len() {
                                    assert(leaves(before.entities, i as int, earlier[j]));
                                } else {
                                    assert(before.entities[i as int].id == gone@[j]);
                                }
                            }
                            assert forall|k: int|
                                0 <= k < i + 1 && leaving(#[trigger] before.entities[k])
                                implies gone@.contains(before.entities[k].id) by {
                                let id = before.entities[k].id;
                                if k < i {
                                    let j = choose|j: int| 0 <= j < earlier.len() && earlier[j] == id;
                                    assert(gone@[j] == id);
                                } else {
                                    assert(gone@[earlier.len() as int] == id);
                                }
                            }
                        }
                    },
                }
            },
            _ => {},
        }
        i += 1;
    }
    let ghost risen = store@;
    store.destroy_all(&gone);
    proof {
        let doomed = gone@.to_set();
        assert(risen.entities =~= before.entities.map_values(|e: Entity| laser_moved(e)));
        // The listed ids are exactly those of the lasers that leave.
        assert forall|k: int| 0 <= k < n
            implies spared(doomed)(#[trigger] before.entities[k]) == stays()(before.entities[k]) by {
            let id = before.entities[k].id;
            if gone@.contains(id) {
                let j = choose|j: int| 0 <= j < gone@.len() && gone@[j] == id;
                assert(leaves(before.entities, n as int, gone@[j]));
                let m = choose|m: int|
                    0 <= m < n && (#[trigger] before.entities[m]).id == id && leaving(
                        before.entities[m],
                    );
                if m < k {
                    assert(before.entities[m].id.0 < before.entities[k].id.0);
                } else if k < m {
                    assert(before.entities[k].id.0 < before.entities[m].id.0);
                }
            }
        }
        lemma_filter_agree(before.entities, spared(doomed), stays());
        lemma_filter_map_values(before.entities, |e: Entity| laser_moved(e), spared(doomed));
    }
}

} // verus!
