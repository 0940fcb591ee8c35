//! The collision resolver: a laser and a bug that come close destroy each
//! other.

use vstd::prelude::*;

use crate::entity::{Entity, EntityId, Kind};
use crate::store::{lemma_filter_agree, spared, EntityStore, Scene};
use crate::units::{Point, UNIT};

verus! {

/// A laser and a bug closer than this destroy each other.
pub const HIT_RADIUS: i64 = 24 * UNIT;

/// The two points are less than the hit radius apart, by straight-line
/// distance.
pub open spec fn touching(a: Point, b: Point) -> bool {
    (a.x - b.x) * (a.x - b.x) + (a.y - b.y) * (a.y - b.y) < HIT_RADIUS * HIT_RADIUS
}

/// `laser` is a laser, `bug` is a bug, and the two touch.
pub open spec fn hits(laser: Entity, bug: Entity) -> bool {
    laser.body is Laser && bug.body is Bug && touching(laser.position, bug.position)
}

/// One of the two entities is a laser that hits the other, a bug.
pub open spec fn clash(a: Entity, b: Entity) -> bool {
    hits(a, b) || hits(b, a)
}

/// `e` clashes with at least one of `entities`.
pub open spec fn struck(e: Entity, entities: Seq<Entity>) -> bool {
    exists|k: int| 0 <= k < entities.len() && #[trigger] clash(e, entities[k])
}

/// The test "this entity clashes with none of `entities`".
pub open spec fn unharmed(entities: Seq<Entity>) -> spec_fn(Entity) -> bool {
    |e: Entity| !struck(e, entities)
}

/// The scene after the collision resolver has run. Every laser is held
/// against every bug as they stand when the pass begins, and each pair that
/// touches takes both of its members out: a laser may take several bugs with
/// it, and a bug several lasers.
pub open spec fn after_bug_zapper(scene: Scene) -> Scene {
    Scene { entities: scene.entities.filter(unharmed(scene.entities)), next_id: scene.next_id }
}

/// Whether two points are less than the hit radius apart.
pub fn touches(a: Point, b: Point) -> (near: bool)
    ensures
        near == touching(a, b),
{
    let dx: i128 = a.x as i128 - b.x as i128;
    let dy: i128 = a.y as i128 - b.y as i128;
    let r: i128 = HIT_RADIUS as i128;
    if dx <= -r || dx >= r {
        assert(dx * dx >= r * r) by (nonlinear_arith)
            requires
                dx <= -r || dx >= r,
                r >= 0,
        ;
        assert(dy * dy >= 0) by (nonlinear_arith);
        return false;
    }
    if dy <= -r || dy >= r {
        assert(dy * dy >= r * r) by (nonlinear_arith)
            requires
                dy <= -r || dy >= r,
                r >= 0,
        ;
        assert(dx * dx >= 0) by (nonlinear_arith);
        return false;
    }
    assert(0 <= dx * dx < r * r) by (nonlinear_arith)
        requires
            -r < dx < r,
    ;
    assert(0 <= dy * dy < r * r) by (nonlinear_arith)
        requires
            -r < dy < r,
    ;
    assert(r * r == 2473901162496);
    dx * dx + dy * dy < r * r
}

/// The one of `entities` that is named `id` is struck.
spec fn falls(entities: Seq<Entity>, id: EntityId) -> bool {
    exists|k: int|
        0 <= k < entities.len() && (#[trigger] entities[k]).id == id
            && struck(entities[k], entities)
}

/// The collision resolver: destroys every laser that touches a bug and
/// every bug that touches a laser.
pub fn bug_zapper(store: &mut EntityStore)
    requires
        old(store).wf(),
    ensures
        final(store).wf(),
        final(store)@ == after_bug_zapper(old(store)@),
{
    let ghost all = store@.entities;
    let n = store.len();
    let mut gone: Vec<EntityId> = Vec::new();
    let mut l: usize = 0;
    while l < n
        invariant
            store.wf(),
            store@.entities == all,
            l <= n,
            n == all.len(),
            forall|p: int, q: int|
                0 <= p < l && 0 <= q < n && #[trigger] hits(all[p], all[q])
                    ==> gone@.contains(all[p].id) && gone@.contains(all[q].id),
            forall|j: int| 0 <= j < gone@.len() ==> falls(all, #[trigger] gone@[j]),
        decreases n - l,
    {
        let laser = store.entity_at(l);
        if laser.body.kind() == Kind::Laser {
            let mut b: usize = 0;
            while b < n
                invariant
                    store.wf(),
                    store@.entities == all,
                    l < n,
                    b <= n,
                    n == all.len(),
                    laser == all[l as int],
                    laser.body is Laser,
                    forall|p: int, q: int|
                        0 <= p < l && 0 <= q < n && #[trigger] hits(all[p], all[q])
                            ==> gone@.contains(all[p].id) && gone@.contains(all[q].id),
                    forall|q: int|
                        0 <= q < b && #[trigger] hits(laser, all[q])
                            ==> gone@.contains(laser.id) && gone@.contains(all[q].id),
                    forall|j: int| 0 <= j < gone@.len() ==> falls(all, #[trigger] gone@[j]),
                decreases n - b,
            {
                let bug = store.entity_at(b);
                if bug.body.kind() == Kind::Bug && touches(laser.position, bug.position) {
                    let ghost earlier = gone@;
                    gone.push(bug.id);
                    gone.push(laser.id);
                    proof {
                        assert(hits(laser, bug));
                        assert(clash(all[b as int], all[l as int]));
                        assert(clash(all[l as int], all[b as int]));
                        assert(falls(all, bug.id));
                        assert(falls(all, laser.id));
                        assert(gone@[earlier.len() as int] == bug.id);
                        assert(gone@[earlier.len() as int + 1] == laser.id);
                        assert forall|id: EntityId| earlier.contains(id)
                            implies gone@.contains(id) by {
                            let j = choose|j: int| 0 <= j < earlier.len() && earlier[j] == id;
                            assert(gone@[j] == id);
                        }
                        assert forall|j: int| 0 <= j < gone@.len()
                            implies falls(all, #[trigger] gone@[j]) by {
                            if j < earlier.len() {
                                assert(gone@[j] == earlier[j]);
                            }
                        }
                    }
                }
                b += 1;
            }
        }
        l += 1;
    }
    store.destroy_all(&gone);
    proof {
        let doomed = gone@.to_set();
        let keep = unharmed(all);
        // The listed ids are exactly those of the struck.
        assert forall|k: int| 0 <= k < n
            implies spared(doomed)(#[trigger] all[k]) == keep(all[k]) by {
            if gone@.contains(all[k].id) {
                let j = choose|j: int| 0 <= j < gone@.len() && gone@[j] == all[k].id;
                assert(falls(all, gone@[j]));
                let m = choose|m: int|
                    0 <= m < n && (#[trigger] all[m]).id == all[k].id && struck(all[m], all);
                if m < k {
                    assert(all[m].id.0 < all[k].id.0);
                } else if k < m {
                    assert(all[k].id.0 < all[m].id.0);
                }
            }
            if struck(all[k], all) {
                let m = choose|m: int| 0 <= m < n && #[trigger] clash(all[k], all[m]);
                if hits(all[k], all[m]) {
                    assert(gone@.contains(all[k].id));
                } else {
                    assert(hits(all[m], all[k]));
                    assert(gone@.contains(all[k].id));
                }
            }
        }
        lemma_filter_agree(all, spared(doomed), keep);
    }
}

} // verus!
