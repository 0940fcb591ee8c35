//! The entity store: the one place that owns the live entities.
//!
//! Entities are kept in the order they were created. Every system of the
//! simulation is stated as a function on [`Scene`], the mathematical picture
//! of a store.

use vstd::prelude::*;

use crate::entity::{Body, Entity, EntityId, Kind, Sprite};
use crate::units::Point;

verus! {

/// The ids along `entities` grow strictly, so no id occurs twice.
pub open spec fn ids_ascend(entities: Seq<Entity>) -> bool {
    forall|i: int, j: int|
        0 <= i < j < entities.len() ==> (#[trigger] entities[i]).id.0 < (#[trigger] entities[j]).id.0
}

/// The test "this entity's id is not among `ids`".
pub open spec fn spared(ids: Set<EntityId>) -> spec_fn(Entity) -> bool {
    |e: Entity| !ids.contains(e.id)
}

/// The test "this entity is of kind `kind`".
pub open spec fn of_kind(kind: Kind) -> spec_fn(Entity) -> bool {
    |e: Entity| e.body.kind() == kind
}

/// What a store holds: the live entities, oldest first, and the id that the
/// next entity to be created will get.
pub struct Scene {
    pub entities: Seq<Entity>,
    pub next_id: nat,
}

impl Scene {
    /// The scene of a store nothing was ever created in.
    pub open spec fn empty() -> Scene {
        Scene { entities: Seq::empty(), next_id: 0 }
    }

    /// Ids grow along the sequence and every one of them was handed out
    /// before `next_id`.
    pub open spec fn wf(self) -> bool {
        &&& self.next_id <= u64::MAX
        &&& ids_ascend(self.entities)
        &&& forall|i: int|
            0 <= i < self.entities.len() ==> (#[trigger] self.entities[i]).id.0 < self.next_id
    }

    /// An entity with this id is alive.
    pub open spec fn contains(self, id: EntityId) -> bool {
        exists|i: int| 0 <= i < self.entities.len() && (#[trigger] self.entities[i]).id == id
    }

    /// Where the entity with this id stands in the sequence, if it is alive.
    pub open spec fn index_of(self, id: EntityId) -> int {
        choose|i: int| 0 <= i < self.entities.len() && (#[trigger] self.entities[i]).id == id
    }

    /// The entity with this id, if it is alive.
    pub open spec fn get(self, id: EntityId) -> Option<Entity> {
        if self.contains(id) {
            Some(self.entities[self.index_of(id)])
        } else {
            None
        }
    }

    /// The scene after creating one entity, which gets the id `next_id`.
    pub open spec fn with_new(self, position: Point, body: Body) -> Scene {
        Scene {
            entities: self.entities.push(
                Entity { id: EntityId(self.next_id as u64), position, body },
            ),
            next_id: self.next_id + 1,
        }
    }

    /// The scene after destroying every entity whose id is in `ids`.
    pub open spec fn without(self, ids: Set<EntityId>) -> Scene {
        Scene {
            entities: self.entities.filter(spared(ids)),
            next_id: self.next_id,
        }
    }

    /// The scene after moving the entity `id`, if it is alive, to `position`.
    pub open spec fn with_position(self, id: EntityId, position: Point) -> Scene {
        Scene {
            entities: self.entities.map_values(
                |e: Entity|
                    if e.id == id {
                        Entity { id: e.id, position, body: e.body }
                    } else {
                        e
                    },
            ),
            next_id: self.next_id,
        }
    }

    /// The ids of the live entities of one kind, oldest first.
    pub open spec fn ids_of(self, kind: Kind) -> Seq<EntityId> {
        self.entities.filter(of_kind(kind)).map_values(|e: Entity| e.id)
    }

    /// What a renderer is shown: one sprite per live entity, oldest first.
    pub open spec fn sprites(self) -> Seq<Sprite> {
        self.entities.map_values(|e: Entity| e.sprite())
    }
}

/// In a well-formed scene an id names at most one entity: the one found at
/// any index that carries it.
pub proof fn lemma_index_of(scene: Scene, index: int)
    requires
        scene.wf(),
        0 <= index < scene.entities.len(),
    ensures
        scene.contains(scene.entities[index].id),
        scene.index_of(scene.entities[index].id) == index,
        scene.get(scene.entities[index].id) == Some(scene.entities[index]),
{
    let id = scene.entities[index].id;
    let found = scene.index_of(id);
    assert(scene.entities[found].id == id);
    if found < index {
        assert(scene.entities[found].id.0 < scene.entities[index].id.0);
    } else if index < found {
        assert(scene.entities[index].id.0 < scene.entities[found].id.0);
    }
}

/// Dropping entities keeps a scene well-formed.
pub proof fn lemma_filter_wf(scene: Scene, keep: spec_fn(Entity) -> bool)
    requires
        scene.wf(),
    ensures
        (Scene { entities: scene.entities.filter(keep), next_id: scene.next_id }).wf(),
    decreases scene.entities.len(),
{
    reveal(Seq::filter);
    let s = scene.entities;
    if s.len() > 0 {
        let shorter = Scene { entities: s.drop_last(), next_id: scene.next_id };
        lemma_filter_wf(shorter, keep);
        let kept = s.drop_last().filter(keep);
        if keep(s.last()) {
            let out = kept.push(s.last());
            assert forall|i: int, j: int| 0 <= i < j < out.len()
                implies (#[trigger] out[i]).id.0 < (#[trigger] out[j]).id.0 by {
                if j == kept.len() {
                    s.drop_last().lemma_filter_contains_rev(keep, kept[i]);
                    let k = choose|k: int| 0 <= k < s.drop_last().len() && s.drop_last()[k] == kept[i];
                    assert(s[k].id.0 < s[s.len() - 1].id.0);
                }
            }
        }
    }
}

/// Two tests that agree on every entity of a sequence keep the same entities.
pub proof fn lemma_filter_agree(
    entities: Seq<Entity>,
    keep: spec_fn(Entity) -> bool,
    other: spec_fn(Entity) -> bool,
)
    requires
        forall|i: int| 0 <= i < entities.len() ==> keep(#[trigger] entities[i]) == other(entities[i]),
    ensures
        entities.filter(keep) == entities.filter(other),
    decreases entities.len(),
{
    reveal(Seq::filter);
    if entities.len() > 0 {
        let shorter = entities.drop_last();
        assert forall|i: int| 0 <= i < shorter.len()
            implies keep(#[trigger] shorter[i]) == other(shorter[i]) by {
            assert(shorter[i] == entities[i]);
        }
        lemma_filter_agree(shorter, keep, other);
        assert(entities.last() == entities[entities.len() - 1]);
    }
}

/// A change that no test result depends on can be made before or after the
/// test is applied.
pub proof fn lemma_filter_map_values(
    entities: Seq<Entity>,
    change: spec_fn(Entity) -> Entity,
    keep: spec_fn(Entity) -> bool,
)
    requires
        forall|i: int|
            0 <= i < entities.len() ==> keep(change(#[trigger] entities[i])) == keep(entities[i]),
    ensures
        entities.map_values(change).filter(keep) == entities.filter(keep).map_values(change),
    decreases entities.len(),
{
    reveal(Seq::filter);
    let changed = entities.map_values(change);
    if entities.len() > 0 {
        let shorter = entities.drop_last();
        assert forall|i: int| 0 <= i < shorter.len()
            implies keep(change(#[trigger] shorter[i])) == keep(shorter[i]) by {
            assert(shorter[i] == entities[i]);
        }
        lemma_filter_map_values(shorter, change, keep);
        assert(changed.drop_last() =~= shorter.map_values(change));
        assert(changed.last() == change(entities.last()));
        assert(entities.last() == entities[entities.len() - 1]);
        let kept = shorter.filter(keep);
        if keep(entities.last()) {
            let last = entities.last();
            assert(kept.push(last).map_values(change) =~= kept.map_values(change).push(change(last)));
        }
    } else {
        assert(changed.filter(keep) =~= entities.filter(keep).map_values(change));
    }
}

/// Applying a test after a weaker one gives what the stronger test alone
/// gives.
pub proof fn lemma_filter_twice(
    entities: Seq<Entity>,
    first: spec_fn(Entity) -> bool,
    second: spec_fn(Entity) -> bool,
)
    requires
        forall|i: int|
            0 <= i < entities.len() && second(#[trigger] entities[i]) ==> first(entities[i]),
    ensures
        entities.filter(first).filter(second) == entities.filter(second),
    decreases entities.len(),
{
    reveal(Seq::filter);
    if entities.len() > 0 {
        let shorter = entities.drop_last();
        assert forall|i: int| 0 <= i < shorter.len() && second(#[trigger] shorter[i])
            implies first(shorter[i]) by {
            assert(shorter[i] == entities[i]);
        }
        lemma_filter_twice(shorter, first, second);
        assert(entities.last() == entities[entities.len() - 1]);
        if first(entities.last()) {
            shorter.filter(first).lemma_filter_push(entities.last(), second);
        }
    }
}

/// Destroying an id that is not alive changes nothing.
pub proof fn law_destroy_absent(scene: Scene, id: EntityId)
    requires
        !scene.contains(id),
    ensures
        scene.without(set![id]) == scene,
{
    let everything = |e: Entity| true;
    lemma_filter_agree(scene.entities, spared(set![id]), everything);
    assert(scene.entities.filter(everything) == scene.entities) by {
        lemma_filter_all(scene.entities, everything);
    }
}

/// Destroying an entity takes its id out of the scene, so destroying it a
/// second time changes nothing.
pub proof fn law_destroy_twice(scene: Scene, id: EntityId)
    ensures
        !scene.without(set![id]).contains(id),
        scene.without(set![id]).without(set![id]) == scene.without(set![id]),
{
    let once = scene.without(set![id]);
    assert forall|i: int| 0 <= i < once.entities.len()
        implies (#[trigger] once.entities[i]).id != id by {
        scene.entities.lemma_filter_pred(spared(set![id]), i);
    }
    law_destroy_absent(once, id);
}

/// A test that every entity passes keeps the whole sequence.
proof fn lemma_filter_all(entities: Seq<Entity>, keep: spec_fn(Entity) -> bool)
    requires
        forall|i: int| 0 <= i < entities.len() ==> keep(#[trigger] entities[i]),
    ensures
        entities.filter(keep) == entities,
    decreases entities.len(),
{
    reveal(Seq::filter);
    if entities.len() > 0 {
        let shorter = entities.drop_last();
        assert forall|i: int| 0 <= i < shorter.len() implies keep(#[trigger] shorter[i]) by {
            assert(shorter[i] == entities[i]);
        }
        lemma_filter_all(shorter, keep);
        assert(entities.last() == entities[entities.len() - 1]);
        assert(shorter.push(entities.last()) =~= entities);
    }
}

/// The entity store. Its entities live in a vector in creation order; ids
/// come from a counter and are never handed out twice.
pub struct EntityStore {
    entities: Vec<Entity>,
    next_id: u64,
}

impl View for EntityStore {
    type V = Scene;

    closed spec fn view(&self) -> Scene {
        Scene { entities: self.entities@, next_id: self.next_id as nat }
    }
}

impl EntityStore {
    /// The invariant of a store: its scene is well-formed.
    pub open spec fn wf(&self) -> bool {
        self@.wf()
    }

    /// An empty store.
    pub fn new() -> (store: EntityStore)
        ensures
            store.wf(),
            store@ == Scene::empty(),
    {
        EntityStore { entities: Vec::new(), next_id: 0 }
    }

    /// An empty store whose first entity will get the id `first_id`.
    pub fn with_first_id(first_id: u64) -> (store: EntityStore)
        ensures
            store.wf(),
            store@ == (Scene { entities: Seq::empty(), next_id: first_id as nat }),
    {
        EntityStore { entities: Vec::new(), next_id: first_id }
    }

    /// The number of live entities.
    pub fn len(&self) -> (n: usize)
        ensures
            n == self@.entities.len(),
    {
        self.entities.len()
    }

    /// The `index`-th live entity, counting from the oldest.
    pub fn entity_at(&self, index: usize) -> (e: Entity)
        requires
            index < self@.entities.len(),
        ensures
            e == self@.entities[index as int],
    {
        self.entities[index]
    }

    /// Creates an entity and returns its id. Only a store that has handed
    /// out every id there is returns `None`, and stays as it was.
    pub fn create(&mut self, position: Point, body: Body) -> (id: Option<EntityId>)
        requires
            old(self).wf(),
        ensures
            final(self).wf(),
            old(self)@.next_id < u64::MAX ==> id == Some(EntityId(old(self)@.next_id as u64))
                && final(self)@ == old(self)@.with_new(position, body),
            old(self)@.next_id == u64::MAX ==> id.is_none() && final(self)@ == old(self)@,
    {
        if self.next_id == u64::MAX {
            return None;
        }
        let id = EntityId(self.next_id);
        self.entities.push(Entity { id, position, body });
        self.next_id = self.next_id + 1;
        Some(id)
    }

    /// Where in creation order the entity `id` stands, if it is alive.
    pub fn find(&self, id: EntityId) -> (found: Option<usize>)
        requires
            self.wf(),
        ensures
            found.is_some() == self@.contains(id),
            found matches Some(index) ==> index == self@.index_of(id),
    {
        let n = self.entities.len();
        let mut i: usize = 0;
        while i < n
            invariant
                self.wf(),
                i <= n,
                n == self.entities@.len(),
                forall|k: int| 0 <= k < i ==> (#[trigger] self.entities@[k]).id != id,
            decreases n - i,
        {
            if self.entities[i].id == id {
                proof {
                    lemma_index_of(self@, i as int);
                }
                return Some(i);
            }
            i += 1;
        }
        None
    }

    /// Whether the entity `id` is alive.
    pub fn contains(&self, id: EntityId) -> (alive: bool)
        requires
            self.wf(),
        ensures
            alive == self@.contains(id),
    {
        self.find(id).is_some()
    }

    /// The entity `id`, if it is alive.
    pub fn get(&self, id: EntityId) -> (e: Option<Entity>)
        requires
            self.wf(),
        ensures
            e == self@.get(id),
    {
        match self.find(id) {
            Some(index) => Some(self.entities[index]),
            None => None,
        }
    }

    /// The position of the entity `id`, if it is alive.
    pub fn position(&self, id: EntityId) -> (p: Option<Point>)
        requires
            self.wf(),
        ensures
            p == match self@.get(id) {
                Some(e) => Some(e.position),
                None => None,
            },
    {
        match self.find(id) {
            Some(index) => Some(self.entities[index].position),
            None => None,
        }
    }

    /// Moves the entity `id` to `position` and says whether it was alive;
    /// if it was not, nothing changes.
    pub fn set_position(&mut self, id: EntityId, position: Point) -> (alive: bool)
        requires
            old(self).wf(),
        ensures
            final(self).wf(),
            alive == old(self)@.contains(id),
            final(self)@ == old(self)@.with_position(id, position),
    {
        match self.find(id) {
            Some(index) => {
                let e = self.entities[index];
                self.entities[index] = Entity { id: e.id, position, body: e.body };
                proof {
                    let before = old(self)@;
                    assert forall|k: int| 0 <= k < before.entities.len() && k != index
                        implies (#[trigger] before.entities[k]).id != id by {
                        lemma_index_of(before, k);
                    }
                    assert(self@.entities =~= before.with_position(id, position).entities);
                }
                true
            },
            None => {
                proof {
                    let before = old(self)@;
                    assert(self@.entities =~= before.with_position(id, position).entities);
                }
                false
            },
        }
    }

    /// Destroys the entity `id`. Destroying an id that is not alive changes
    /// nothing.
    pub fn destroy(&mut self, id: EntityId)
        requires
            old(self).wf(),
        ensures
            final(self).wf(),
            final(self)@ == old(self)@.without(set![id]),
    {
        let mut ids: Vec<EntityId> = Vec::new();
        ids.push(id);
        proof {
            assert(ids@[0] == id);
            assert(ids@.to_set() =~= set![id]);
        }
        self.destroy_all(&ids);
    }

    /// Destroys every entity whose id is listed in `ids`. Ids that are not
    /// alive, or listed more than once, do no harm.
    pub fn destroy_all(&mut self, ids: &Vec<EntityId>)
        requires
            old(self).wf(),
        ensures
            final(self).wf(),
            final(self)@ == old(self)@.without(ids@.to_set()),
    {
        let ghost before = self@;
        let ghost keep = spared(ids@.to_set());
        let mut kept: Vec<Entity> = Vec::new();
        let n = self.entities.len();
        let mut i: usize = 0;
        proof {
            reveal(Seq::filter);
            assert(before.entities.take(0).filter(keep) =~= Seq::<Entity>::empty());
        }
        while i < n
            invariant
                i <= n,
                n == self.entities@.len(),
                self.entities@ == before.entities,
                keep == spared(ids@.to_set()),
                kept@ == before.entities.take(i as int).filter(keep),
            decreases n - i,
        {
            let e = self.entities[i];
            proof {
                before.entities.lemma_take_succ_push(i as int);
                before.entities.take(i as int).lemma_filter_push(e, keep);
            }
            if !listed(ids, e.id) {
                kept.push(e);
            }
            i += 1;
        }
        proof {
            assert(before.entities.take(n as int) =~= before.entities);
            lemma_filter_wf(before, keep);
        }
        self.entities = kept;
    }

    /// The ids of the live entities of one kind, oldest first.
    pub fn ids(&self, kind: Kind) -> (ids: Vec<EntityId>)
        ensures
            ids@ == self@.ids_of(kind),
    {
        let ghost wanted = of_kind(kind);
        let mut ids: Vec<EntityId> = Vec::new();
        let n = self.entities.len();
        let mut i: usize = 0;
        proof {
            reveal(Seq::filter);
            assert(self.entities@.take(0).filter(wanted) =~= Seq::<Entity>::empty());
        }
        while i < n
            invariant
                i <= n,
                n == self.entities@.len(),
                wanted == of_kind(kind),
                ids@ =~= self.entities@.take(i as int).filter(wanted).map_values(|e: Entity| e.id),
            decreases n - i,
        {
            let e = self.entities[i];
            proof {
                self.entities@.lemma_take_succ_push(i as int);
                self.entities@.take(i as int).lemma_filter_push(e, wanted);
            }
            if e.body.kind() == kind {
                ids.push(e.id);
            }
            i += 1;
        }
        proof {
            assert(self.entities@.take(n as int) =~= self.entities@);
        }
        ids
    }

    /// What a renderer is shown: kind and position of each live entity,
    /// oldest first.
    pub fn render_view(&self) -> (sprites: Vec<Sprite>)
        ensures
            sprites@ == self@.sprites(),
    {
        let mut sprites: Vec<Sprite> = Vec::new();
        let n = self.entities.len();
        let mut i: usize = 0;
        while i < n
            invariant
                i <= n,
                n == self.entities@.len(),
                sprites@ =~= self.entities@.take(i as int).map_values(|e: Entity| e.sprite()),
            decreases n - i,
        {
            let e = self.entities[i];
            sprites.push(Sprite { kind: e.body.kind(), position: e.position });
            i += 1;
        }
        proof {
            assert(self.entities@.take(n as int) =~= self.entities@);
        }
        sprites
    }

    /// Overwrites position and state of the `index`-th live entity. Its id stays.
    pub fn replace_at(&mut self, index: usize, position: Point, body: Body)
        requires
            old(self).wf(),
            index < old(self)@.entities.len(),
        ensures
            final(self).wf(),
            final(self)@.next_id == old(self)@.next_id,
            final(self)@.entities == old(self)@.entities.update(
                index as int,
                Entity { id: old(self)@.entities[index as int].id, position, body },
            ),
    {
        let id = self.entities[index].id;
        self.entities[index] = Entity { id, position, body };
    }
}

/// Whether `id` occurs in `ids`.
fn listed(ids: &Vec<EntityId>, id: EntityId) -> (found: bool)
    ensures
        found == ids@.to_set().contains(id),
{
    let n = ids.len();
    let mut i: usize = 0;
    while i < n
        invariant
            i <= n,
            n == ids@.len(),
            forall|k: int| 0 <= k < i ==> ids@[k] != id,
        decreases n - i,
    {
        if ids[i] == id {
            assert(ids@.contains(id));
            return true;
        }
        i += 1;
    }
    false
}

} // verus!
