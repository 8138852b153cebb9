//! The mathematical model of the entity store: what a store holds, and what
//! each operation makes of it.

use vstd::prelude::*;
use crate::components::{Components, Entity, EntityId, Filter};

verus! {

/// What a store holds, as a mathematical value: the entities in the order in
/// which they were spawned, and the identifier that the next spawn gives out.
pub struct StoreView {
    pub entities: Seq<Entity>,
    pub next_id: int,
}

/// Whether `f` leaves the identifier of every entity that it keeps as it is.
pub open spec fn keeps_ids(f: spec_fn(Entity) -> Option<Entity>) -> bool {
    forall|e: Entity| (#[trigger] f(e)) is Some ==> f(e).unwrap().id == e.id
}

impl StoreView {
    /// Identifiers rise along the sequence, so none occurs twice, and all lie
    /// below the next one to be given out.
    pub open spec fn wf(self) -> bool {
        &&& 0 <= self.next_id <= u64::MAX
        &&& forall|i: int|
            0 <= i < self.entities.len() ==> (#[trigger] self.entities[i]).id.0 < self.next_id
        &&& forall|i: int, j: int|
            0 <= i < j < self.entities.len() ==> (#[trigger] self.entities[i]).id.0 < (
            #[trigger] self.entities[j]).id.0
    }

    /// Whether an entity with the identifier `id` is alive.
    pub open spec fn contains(self, id: EntityId) -> bool {
        exists|i: int| 0 <= i < self.entities.len() && (#[trigger] self.entities[i]).id == id
    }

    /// Where the entity with the identifier `id` stands in the sequence.
    pub open spec fn index_of(self, id: EntityId) -> int {
        choose|i: int| 0 <= i < self.entities.len() && (#[trigger] self.entities[i]).id == id
    }

    /// The components of the entity `id`, if it is alive.
    pub open spec fn get(self, id: EntityId) -> Option<Components> {
        if self.contains(id) {
            Some(self.entities[self.index_of(id)].components)
        } else {
            None
        }
    }

    /// The store in which the entity `id`, if alive, has the components `c`,
    /// and every other entity is as before.
    pub open spec fn set(self, id: EntityId, c: Components) -> StoreView {
        StoreView {
            entities: self.entities.map_values(
                |e: Entity|
                    if e.id == id {
                        Entity { id, components: c }
                    } else {
                        e
                    },
            ),
            next_id: self.next_id,
        }
    }

    /// The store after a spawn of an entity with the components `c`.
    pub open spec fn spawn(self, c: Components) -> StoreView {
        StoreView {
            entities: self.entities.push(
                Entity { id: EntityId(self.next_id as u64), components: c },
            ),
            next_id: self.next_id + 1,
        }
    }

    /// The store after one spawn for each member of `components`, in order.
    pub open spec fn spawn_all(self, components: Seq<Components>) -> StoreView
        decreases components.len(),
    {
        if components.len() == 0 {
            self
        } else {
            self.spawn_all(components.drop_last()).spawn(components.last())
        }
    }

    /// The store without the entity `id`. Its identifier is not given out
    /// again.
    pub open spec fn despawn(self, id: EntityId) -> StoreView {
        StoreView {
            entities: self.entities.filter(|e: Entity| e.id != id),
            next_id: self.next_id,
        }
    }

    /// The store in which every entity is replaced by what `f` makes of it,
    /// and removed where `f` gives `None`.
    pub open spec fn filter_map(self, f: spec_fn(Entity) -> Option<Entity>) -> StoreView {
        StoreView { entities: self.entities.filter_map(f), next_id: self.next_id }
    }

    /// The entities that `filter` selects, in store order.
    pub open spec fn matching(self, filter: Filter) -> Seq<Entity> {
        self.entities.filter(|e: Entity| e.components.matches(&filter))
    }

    /// The identifiers of the entities that `filter` selects, each once.
    pub open spec fn query(self, filter: Filter) -> Seq<EntityId> {
        self.matching(filter).map_values(|e: Entity| e.id)
    }

    /// How many entities `filter` selects.
    pub open spec fn count(self, filter: Filter) -> nat {
        self.matching(filter).len()
    }

    /// The one entity that `filter` selects. There is none where the filter
    /// selects no entity, and none where it selects several.
    pub open spec fn single(self, filter: Filter) -> Option<EntityId> {
        if self.matching(filter).len() == 1 {
            Some(self.matching(filter)[0].id)
        } else {
            None
        }
    }

    /// Whether some entity is marked as player.
    pub open spec fn has_player(self) -> bool {
        exists|i: int|
            0 <= i < self.entities.len() && (#[trigger] self.entities[i]).components.player
    }
}

} // verus!
