//! Lemmas on the model of the entity store: what `get` and the filters
//! answer after each operation.

use vstd::prelude::*;
use crate::components::{Components, Entity, EntityId, Filter};
use crate::model::{keeps_ids, StoreView};

verus! {

/// A filter that every entity passes keeps the whole sequence.
pub proof fn lemma_filter_keeps_all(s: Seq<Entity>, pred: spec_fn(Entity) -> bool)
    requires
        forall|i: int| 0 <= i < s.len() ==> pred(#[trigger] s[i]),
    ensures
        s.filter(pred) == s,
    decreases s.len(),
{
    reveal(Seq::filter);
    if s.len() > 0 {
        lemma_filter_keeps_all(s.drop_last(), pred);
        assert(s.drop_last().push(s.last()) =~= s);
    }
}

/// A filter that only the entity at `i` fails removes that entity.
pub proof fn lemma_filter_drops_one(s: Seq<Entity>, pred: spec_fn(Entity) -> bool, i: int)
    requires
        0 <= i < s.len(),
        forall|j: int| 0 <= j < s.len() ==> (pred(#[trigger] s[j]) <==> j != i),
    ensures
        s.filter(pred) == s.remove(i),
    decreases s.len(),
{
    reveal(Seq::filter);
    if i == s.len() - 1 {
        lemma_filter_keeps_all(s.drop_last(), pred);
        assert(s.remove(i) =~= s.drop_last());
    } else {
        lemma_filter_drops_one(s.drop_last(), pred, i);
        assert(s.drop_last().remove(i).push(s.last()) =~= s.remove(i));
    }
}

/// The entities that a filter selects from the first `k + 1` are those it
/// selects from the first `k`, and the next one if it passes.
pub proof fn lemma_filter_take_next(s: Seq<Entity>, pred: spec_fn(Entity) -> bool, k: int)
    requires
        0 <= k < s.len(),
    ensures
        s.take(k + 1).filter(pred) == if pred(s[k]) {
            s.take(k).filter(pred).push(s[k])
        } else {
            s.take(k).filter(pred)
        },
{
    reveal(Seq::filter);
    assert(s.take(k + 1).drop_last() =~= s.take(k));
}

/// Two filters that agree on every entity of `s` select the same entities.
pub proof fn lemma_filter_agree(
    s: Seq<Entity>,
    p: spec_fn(Entity) -> bool,
    q: spec_fn(Entity) -> bool,
)
    requires
        forall|i: int| 0 <= i < s.len() ==> p(#[trigger] s[i]) == q(s[i]),
    ensures
        s.filter(p) == s.filter(q),
    decreases s.len(),
{
    reveal(Seq::filter);
    if s.len() > 0 {
        lemma_filter_agree(s.drop_last(), p, q);
    }
}

/// What `p` selects is what `p` and `q` select together with what `p`
/// selects and `q` does not.
pub proof fn lemma_filter_split(
    s: Seq<Entity>,
    p: spec_fn(Entity) -> bool,
    q: spec_fn(Entity) -> bool,
)
    ensures
        s.filter(p).len() == s.filter(|e: Entity| p(e) && q(e)).len() + s.filter(
            |e: Entity| p(e) && !q(e),
        ).len(),
    decreases s.len(),
{
    reveal(Seq::filter);
    if s.len() > 0 {
        lemma_filter_split(s.drop_last(), p, q);
    }
}

/// Where `g` changes no entity in a way that `pred` sees, selecting after `g`
/// gives what `g` makes of the selected entities.
pub proof fn lemma_filter_map_values(
    s: Seq<Entity>,
    g: spec_fn(Entity) -> Entity,
    pred: spec_fn(Entity) -> bool,
)
    requires
        forall|i: int| 0 <= i < s.len() ==> pred(g(#[trigger] s[i])) == pred(s[i]),
    ensures
        s.map_values(g).filter(pred) == s.filter(pred).map_values(g),
    decreases s.len(),
{
    reveal(Seq::filter);
    if s.len() == 0 {
        assert(s.map_values(g).filter(pred) =~= s.filter(pred).map_values(g));
    } else {
        lemma_filter_map_values(s.drop_last(), g, pred);
        assert(s.map_values(g).drop_last() =~= s.drop_last().map_values(g));
        assert(s.map_values(g).last() == g(s.last()));
        assert(s.map_values(g).filter(pred) =~= s.filter(pred).map_values(g));
    }
}

/// Running `f` and then `g` over a sequence is running over it the function
/// that does both.
pub proof fn lemma_filter_map_twice(
    s: Seq<Entity>,
    f: spec_fn(Entity) -> Option<Entity>,
    g: spec_fn(Entity) -> Option<Entity>,
    both: spec_fn(Entity) -> Option<Entity>,
)
    requires
        forall|e: Entity|
            #[trigger] both(e) == match f(e) {
                Some(x) => g(x),
                None => None,
            },
    ensures
        s.filter_map(f).filter_map(g) == s.filter_map(both),
    decreases s.len(),
{
    if s.len() == 0 {
        assert(s.filter_map(f).filter_map(g) =~= s.filter_map(both));
    } else {
        let rest = s.drop_last();
        lemma_filter_map_twice(rest, f, g, both);
        match f(s.last()) {
            Some(x) => {
                let once = rest.filter_map(f).push(x);
                assert(s.filter_map(f) =~= once);
                assert(once.drop_last() =~= rest.filter_map(f));
                assert(s.filter_map(f).filter_map(g) =~= s.filter_map(both));
            },
            None => {},
        }
    }
}

/// Selecting after `f` selects as many entities as selecting, before `f`,
/// those that `f` keeps, if `f` changes no entity in a way that `pred` sees.
pub proof fn lemma_filter_map_count(
    s: Seq<Entity>,
    f: spec_fn(Entity) -> Option<Entity>,
    pred: spec_fn(Entity) -> bool,
)
    requires
        forall|e: Entity| (#[trigger] f(e)) is Some ==> pred(f(e).unwrap()) == pred(e),
    ensures
        s.filter_map(f).filter(pred).len() == s.filter(|e: Entity| pred(e) && f(e) is Some).len(),
    decreases s.len(),
{
    reveal(Seq::filter);
    if s.len() > 0 {
        let rest = s.drop_last();
        lemma_filter_map_count(rest, f, pred);
        match f(s.last()) {
            Some(x) => {
                assert(s.filter_map(f) =~= rest.filter_map(f).push(x));
                rest.filter_map(f).lemma_filter_push(x, pred);
            },
            None => {},
        }
    }
}

impl StoreView {
    /// An alive entity is found by its identifier: the entity at `i` is the
    /// one that `get` returns for its identifier.
    pub proof fn lemma_get_at(self, i: int)
        requires
            self.wf(),
            0 <= i < self.entities.len(),
        ensures
            self.contains(self.entities[i].id),
            self.index_of(self.entities[i].id) == i,
            self.get(self.entities[i].id) == Some(self.entities[i].components),
    {
        let id = self.entities[i].id;
        let j = self.index_of(id);
        assert(self.entities[j].id == id);
        if j < i {
            assert(self.entities[j].id.0 < self.entities[i].id.0);
        } else if i < j {
            assert(self.entities[i].id.0 < self.entities[j].id.0);
        }
    }

    /// The entity that `single` returns is alive and is selected by the
    /// filter.
    pub proof fn lemma_single_is_selected(self, filter: Filter)
        requires
            self.wf(),
            self.single(filter) is Some,
        ensures
            self.contains(self.single(filter).unwrap()),
            self.get(self.single(filter).unwrap()) is Some,
            self.get(self.single(filter).unwrap()).unwrap().matches(&filter),
    {
        let pred = |e: Entity| e.components.matches(&filter);
        let m = self.entities.filter(pred);
        let first = m[0];
        self.entities.lemma_filter_pred(pred, 0);
        assert(m.contains(first));
        self.entities.lemma_filter_contains_rev(pred, first);
        let i = choose|i: int| 0 <= i < self.entities.len() && self.entities[i] == first;
        self.lemma_get_at(i);
    }

    /// A filter that asks for the player mark selects nothing in a store
    /// without a player.
    pub proof fn lemma_no_player_no_match(self, filter: Filter)
        requires
            !self.has_player(),
            filter.player,
        ensures
            self.matching(filter).len() == 0,
            self.single(filter) is None,
    {
        let pred = |e: Entity| e.components.matches(&filter);
        let m = self.entities.filter(pred);
        if m.len() > 0 {
            let first = m[0];
            self.entities.lemma_filter_pred(pred, 0);
            assert(m.contains(first));
            self.entities.lemma_filter_contains_rev(pred, first);
            let i = choose|i: int| 0 <= i < self.entities.len() && self.entities[i] == first;
            assert(self.entities[i].components.player);
        }
    }

    /// In a store that ends with the entity `e`, `get` finds `e` under its
    /// own identifier, and under any other identifier what the store without
    /// `e` holds.
    pub proof fn lemma_get_push(self, e: Entity, other: EntityId)
        requires
            (StoreView { entities: self.entities.push(e), next_id: self.next_id }).wf(),
        ensures
            self.wf(),
            !self.contains(e.id),
            (StoreView { entities: self.entities.push(e), next_id: self.next_id }).get(other) == if other
                == e.id {
                Some(e.components)
            } else {
                self.get(other)
            },
    {
        let pushed = StoreView { entities: self.entities.push(e), next_id: self.next_id };
        let n = self.entities.len() as int;
        assert(pushed.entities[n] == e);
        assert forall|i: int| 0 <= i < n implies (#[trigger] self.entities[i]).id.0 < e.id.0 by {
            assert(pushed.entities[i] == self.entities[i]);
            assert(pushed.entities[i].id.0 < pushed.entities[n].id.0);
        }
        assert(self.wf()) by {
            assert forall|i: int| 0 <= i < n implies (#[trigger] self.entities[i]).id.0 < self.next_id by {
                assert(pushed.entities[i] == self.entities[i]);
            }
            assert forall|i: int, j: int| 0 <= i < j < n implies (#[trigger] self.entities[i]).id.0 < (
            #[trigger] self.entities[j]).id.0 by {
                assert(pushed.entities[i] == self.entities[i]);
                assert(pushed.entities[j] == self.entities[j]);
            }
        }
        if other == e.id {
            pushed.lemma_get_at(n);
        } else if self.contains(other) {
            let i = self.index_of(other);
            assert(pushed.entities[i] == self.entities[i]);
            pushed.lemma_get_at(i);
        } else if pushed.contains(other) {
            let j = pushed.index_of(other);
            assert(j < n);
            assert(self.entities[j] == pushed.entities[j]);
        }
    }

    /// After a spawn, `get` finds the new entity under the identifier that was
    /// given out, and under any other identifier what was there before.
    pub proof fn lemma_get_spawn(self, c: Components, other: EntityId)
        requires
            self.wf(),
            self.next_id < u64::MAX,
        ensures
            self.spawn(c).wf(),
            self.spawn(c).get(other) == if other.0 == self.next_id {
                Some(c)
            } else {
                self.get(other)
            },
    {
        let e = Entity { id: EntityId(self.next_id as u64), components: c };
        assert(self.spawn(c).wf());
        (StoreView { entities: self.entities, next_id: self.next_id + 1 }).lemma_get_push(e, other);
    }

    /// After `set`, `get` finds the new components under the identifier that
    /// was set, if that entity is alive, and under any other identifier what
    /// was there before.
    pub proof fn lemma_get_set(self, id: EntityId, c: Components, other: EntityId)
        requires
            self.wf(),
        ensures
            self.set(id, c).wf(),
            self.set(id, c).entities.len() == self.entities.len(),
            self.set(id, c).contains(other) == self.contains(other),
            self.set(id, c).get(other) == if other == id && self.contains(id) {
                Some(c)
            } else {
                self.get(other)
            },
    {
        let after = self.set(id, c);
        assert forall|i: int| 0 <= i < self.entities.len() implies (#[trigger] after.entities[i]).id
            == self.entities[i].id by {}
        if self.contains(other) {
            let i = self.index_of(other);
            assert(after.entities[i].id == other);
            after.lemma_get_at(i);
            self.lemma_get_at(i);
        } else if after.contains(other) {
            let j = after.index_of(other);
            assert(self.entities[j].id == other);
        }
    }

    /// A function that keeps identifiers keeps the store well formed, and
    /// leaves no identifier above the last one that was there before.
    pub proof fn lemma_filter_map_wf(self, f: spec_fn(Entity) -> Option<Entity>)
        requires
            self.wf(),
            keeps_ids(f),
        ensures
            self.filter_map(f).wf(),
            forall|k: int|
                0 <= k < self.filter_map(f).entities.len() ==> (#[trigger] self.filter_map(
                    f,
                ).entities[k]).id.0 <= self.entities.last().id.0,
        decreases self.entities.len(),
    {
        if self.entities.len() > 0 {
            let rest = StoreView { entities: self.entities.drop_last(), next_id: self.next_id };
            let last = self.entities.last();
            assert(forall|i: int| 0 <= i < rest.entities.len() ==> rest.entities[i] == self.entities[i]);
            rest.lemma_filter_map_wf(f);
            let kept = rest.filter_map(f).entities;
            assert forall|k: int| 0 <= k < kept.len() implies (#[trigger] kept[k]).id.0 < last.id.0 by {
                assert(kept[k].id.0 <= rest.entities.last().id.0);
                assert(rest.entities.last() == self.entities[self.entities.len() - 2]);
            }
            if f(last) is Some {
                assert(self.filter_map(f).entities =~= kept.push(f(last).unwrap()));
            } else {
                assert(self.filter_map(f).entities =~= kept);
            }
        }
    }

    /// After `filter_map` with a function that keeps identifiers, `get` finds
    /// under an identifier what the function makes of the entity that was
    /// there before.
    pub proof fn lemma_get_filter_map(self, f: spec_fn(Entity) -> Option<Entity>, other: EntityId)
        requires
            self.wf(),
            keeps_ids(f),
        ensures
            self.filter_map(f).wf(),
            self.filter_map(f).get(other) == match self.get(other) {
                Some(c) => match f(Entity { id: other, components: c }) {
                    Some(e) => Some(e.components),
                    None => None,
                },
                None => None,
            },
        decreases self.entities.len(),
    {
        self.lemma_filter_map_wf(f);
        if self.entities.len() > 0 {
            let rest = StoreView { entities: self.entities.drop_last(), next_id: self.next_id };
            let last = self.entities.last();
            assert(rest.entities.push(last) =~= self.entities);
            rest.lemma_get_push(last, other);
            rest.lemma_get_filter_map(f, other);
            let kept = rest.filter_map(f);
            if f(last) is Some {
                assert(self.filter_map(f).entities =~= kept.entities.push(f(last).unwrap()));
                kept.lemma_get_push(f(last).unwrap(), other);
            } else {
                assert(self.filter_map(f).entities =~= kept.entities);
            }
        }
    }

    /// `set` does not change what a filter selects, if the new components
    /// pass the filter exactly when the old ones did.
    pub proof fn lemma_query_set(self, id: EntityId, c: Components, filter: Filter)
        requires
            self.wf(),
            self.get(id) is Some ==> self.get(id).unwrap().matches(&filter) == c.matches(&filter),
        ensures
            self.set(id, c).query(filter) == self.query(filter),
            self.set(id, c).count(filter) == self.count(filter),
            self.set(id, c).single(filter) == self.single(filter),
    {
        let g = |e: Entity|
            if e.id == id {
                Entity { id, components: c }
            } else {
                e
            };
        let pred = |e: Entity| e.components.matches(&filter);
        assert forall|i: int| 0 <= i < self.entities.len() implies pred(g(#[trigger] self.entities[i]))
            == pred(self.entities[i]) by {
            self.lemma_get_at(i);
        }
        lemma_filter_map_values(self.entities, g, pred);
        let before = self.entities.filter(pred);
        let after = self.set(id, c).matching(filter);
        assert(after == before.map_values(g));
        assert(after.map_values(|e: Entity| e.id) =~= before.map_values(|e: Entity| e.id));
        if before.len() == 1 {
            assert(after[0].id == before[0].id);
        }
    }

    /// A spawn adds the new entity to what a filter selects if its components
    /// pass the filter, and changes nothing of it otherwise.
    pub proof fn lemma_query_spawn(self, c: Components, filter: Filter)
        ensures
            self.spawn(c).matching(filter) == if c.matches(&filter) {
                self.matching(filter).push(self.spawn(c).entities.last())
            } else {
                self.matching(filter)
            },
            self.spawn(c).count(filter) == self.count(filter) + if c.matches(&filter) {
                1int
            } else {
                0int
            },
    {
        self.entities.lemma_filter_push(
            self.spawn(c).entities.last(),
            |e: Entity| e.components.matches(&filter),
        );
    }
}

} // verus!
