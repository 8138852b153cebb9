//! The entity store: every entity of the simulation with its components.

use vstd::prelude::*;
use crate::algebra::{lemma_filter_drops_one, lemma_filter_keeps_all, lemma_filter_take_next};
use crate::components::{Components, Entity, EntityId, Filter};
use crate::model::StoreView;

verus! {

/// The entities of the simulation. Each has an identifier of its own and a
/// fixed set of component slots.
#[derive(Clone, Debug, PartialEq, Eq)]
pub struct EntityStore {
    entities: Vec<Entity>,
    next_id: u64,
}

impl View for EntityStore {
    type V = StoreView;

    closed spec fn view(&self) -> StoreView {
        StoreView { entities: self.entities@, next_id: self.next_id as int }
    }
}

impl EntityStore {
    /// An empty store.
    pub fn new() -> (store: EntityStore)
        ensures
            store@.entities.len() == 0,
            store@.next_id == 0,
            store@.wf(),
    {
        EntityStore { entities: Vec::new(), next_id: 0 }
    }

    /// Number of entities alive.
    pub fn len(&self) -> (n: usize)
        ensures
            n == self@.entities.len(),
    {
        self.entities.len()
    }

    /// Whether no entity is alive.
    pub fn is_empty(&self) -> (b: bool)
        ensures
            b == (self@.entities.len() == 0),
    {
        self.entities.len() == 0
    }

    /// The entities alive, in the order in which they were spawned.
    pub fn entities(&self) -> (all: &Vec<Entity>)
        ensures
            all@ == self@.entities,
    {
        &self.entities
    }

    /// Whether the store is well formed. Every store that [`EntityStore::new`]
    /// made and that only the functions of this crate have changed is.
    pub fn is_well_formed(&self) -> (b: bool)
        ensures
            b == self@.wf(),
    {
        let n = self.entities.len();
        let mut i: usize = 0;
        while i < n
            invariant
                n == self.entities@.len(),
                i <= n,
                forall|j: int| 0 <= j < i ==> (#[trigger] self.entities@[j]).id.0 < self.next_id,
                forall|j: int, k: int|
                    0 <= j < k < i ==> (#[trigger] self.entities@[j]).id.0 < (
                    #[trigger] self.entities@[k]).id.0,
            decreases n - i,
        {
            if self.entities[i].id.0 >= self.next_id {
                return false;
            }
            if i > 0 && self.entities[i - 1].id.0 >= self.entities[i].id.0 {
                assert(!(self@.entities[i - 1].id.0 < self@.entities[i as int].id.0));
                return false;
            }
            assert forall|j: int, k: int| 0 <= j < k < i + 1 implies (#[trigger] self.entities@[j]).id.0
                < (#[trigger] self.entities@[k]).id.0 by {
                if k == i && j < i - 1 {
                    assert(self.entities@[j].id.0 < self.entities@[i - 1].id.0);
                }
            }
            i = i + 1;
        }
        true
    }

    /// How many identifiers are left to give out: so many entities can still
    /// be spawned.
    pub fn ids_left(&self) -> (n: u64)
        ensures
            n == u64::MAX - self@.next_id,
    {
        u64::MAX - self.next_id
    }

    /// Whether another entity can be spawned: the identifiers are not used up.
    pub fn can_spawn(&self) -> (b: bool)
        ensures
            b == (self@.next_id < u64::MAX),
    {
        self.next_id < u64::MAX
    }

    /// Creates an entity with the components `c` and returns its identifier,
    /// which no entity had before.
    pub fn spawn(&mut self, c: Components) -> (id: EntityId)
        requires
            old(self)@.wf(),
            old(self)@.next_id < u64::MAX,
        ensures
            final(self)@ == old(self)@.spawn(c),
            final(self)@.wf(),
            id.0 == old(self)@.next_id,
            !old(self)@.contains(id),
    {
        let id = EntityId(self.next_id);
        self.next_id = self.next_id + 1;
        self.entities.push(Entity { id, components: c });
        id
    }

    /// Position of the entity `id` among the entities.
    fn find(&self, id: EntityId) -> (at: Option<usize>)
        requires
            self@.wf(),
        ensures
            match at {
                Some(i) => i < self.entities@.len() && self.entities@[i as int].id == id
                    && self@.contains(id) && self@.index_of(id) == i,
                None => !self@.contains(id),
            },
    {
        let mut i: usize = 0;
        while i < self.entities.len()
            invariant
                self@.wf(),
                i <= self.entities@.len(),
                forall|j: int| 0 <= j < i ==> (#[trigger] self.entities@[j]).id != id,
            decreases self.entities@.len() - i,
        {
            if self.entities[i].id.0 == id.0 {
                proof {
                    assert(self@.entities[i as int].id == id);
                    let j = self@.index_of(id);
                    assert(self@.entities[j].id == id);
                    if j < i {
                        assert(self@.entities[j].id.0 < self@.entities[i as int].id.0);
                    } else if i < j {
                        assert(self@.entities[i as int].id.0 < self@.entities[j].id.0);
                    }
                }
                return Some(i);
            }
            i = i + 1;
        }
        None
    }

    /// Whether an entity with the identifier `id` is alive.
    pub fn contains(&self, id: EntityId) -> (b: bool)
        requires
            self@.wf(),
        ensures
            b == self@.contains(id),
    {
        self.find(id).is_some()
    }

    /// The components of the entity `id`, or `None` if no such entity is
    /// alive.
    pub fn get(&self, id: EntityId) -> (c: Option<Components>)
        requires
            self@.wf(),
        ensures
            c == self@.get(id),
    {
        match self.find(id) {
            Some(i) => Some(self.entities[i].components),
            None => None,
        }
    }

    /// Gives the entity `id` the components `c` and returns `true`. Where no
    /// such entity is alive, changes nothing and returns `false`.
    pub fn set(&mut self, id: EntityId, c: Components) -> (found: bool)
        requires
            old(self)@.wf(),
        ensures
            found == old(self)@.contains(id),
            final(self)@ == old(self)@.set(id, c),
            final(self)@.wf(),
    {
        match self.find(id) {
            Some(i) => {
                self.entities.set(i, Entity { id, components: c });
                assert(self@.entities =~= old(self)@.set(id, c).entities);
                true
            },
            None => {
                assert(self@.entities =~= old(self)@.set(id, c).entities);
                false
            },
        }
    }

    /// Removes the entity `id` and returns `true`. Where no such entity is
    /// alive, changes nothing and returns `false`.
    pub fn despawn(&mut self, id: EntityId) -> (found: bool)
        requires
            old(self)@.wf(),
        ensures
            found == old(self)@.contains(id),
            final(self)@ == old(self)@.despawn(id),
            final(self)@.wf(),
    {
        match self.find(id) {
            Some(i) => {
                proof {
                    lemma_filter_drops_one(self.entities@, |e: Entity| e.id != id, i as int);
                }
                self.entities.remove(i);
                true
            },
            None => {
                proof {
                    lemma_filter_keeps_all(self.entities@, |e: Entity| e.id != id);
                }
                false
            },
        }
    }

    /// The identifiers of the entities that `filter` selects. Each selected
    /// entity occurs once, in store order.
    pub fn query(&self, filter: &Filter) -> (ids: Vec<EntityId>)
        ensures
            ids@ == self@.query(*filter),
    {
        let ghost pred = |e: Entity| e.components.matches(filter);
        let mut ids: Vec<EntityId> = Vec::new();
        let mut i: usize = 0;
        proof {
            reveal(Seq::filter);
            assert(self.entities@.take(0).filter(pred) =~= Seq::<Entity>::empty());
        }
        while i < self.entities.len()
            invariant
                i <= self.entities@.len(),
                pred == (|e: Entity| e.components.matches(filter)),
                ids@ =~= self.entities@.take(i as int).filter(pred).map_values(|e: Entity| e.id),
            decreases self.entities@.len() - i,
        {
            proof {
                lemma_filter_take_next(self.entities@, pred, i as int);
            }
            if self.entities[i].components.matches(filter) {
                ids.push(self.entities[i].id);
            }
            i = i + 1;
        }
        assert(self.entities@.take(i as int) =~= self.entities@);
        ids
    }

    /// How many entities `filter` selects.
    pub fn count(&self, filter: &Filter) -> (n: usize)
        ensures
            n == self@.count(*filter),
    {
        self.query(filter).len()
    }

    /// The one entity that `filter` selects. Returns `None` where the filter
    /// selects no entity, and where it selects more than one.
    pub fn single(&self, filter: &Filter) -> (id: Option<EntityId>)
        ensures
            id == self@.single(*filter),
    {
        let ids = self.query(filter);
        if ids.len() == 1 {
            Some(ids[0])
        } else {
            None
        }
    }

    /// Puts `entities` in the place of the entities alive.
    pub(crate) fn replace_entities(&mut self, entities: Vec<Entity>)
        requires
            (StoreView { entities: entities@, next_id: old(self)@.next_id }).wf(),
        ensures
            final(self)@ == (StoreView { entities: entities@, next_id: old(self)@.next_id }),
            final(self)@.wf(),
    {
        self.entities = entities;
    }
}

} // verus!
