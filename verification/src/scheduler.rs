//! The scheduler: runs the systems in their fixed order, once per tick.

use vstd::prelude::*;
use crate::components::{EntityId, Filter, Speed};
use crate::model::StoreView;
use crate::resources::{InputSnapshot, Materials, WindowBounds};
use crate::store::EntityStore;
use crate::systems::{
    after_laser_movement, after_player_fire, after_player_movement, laser_movement,
    lemma_laser_movement_flight, lemma_laser_movement_wf, lemma_player_fire_flight,
    lemma_player_fire_wf, lemma_player_movement_flight, lemma_player_movement_wf, player_bundle,
    player_fire, player_movement, player_spawn,
};
use crate::units::clamp;

verus! {

/// Runs the systems on a store. It holds what does not change from tick to
/// tick: the time step, the size of the window and the image handles.
#[derive(Clone, Copy, Debug, PartialEq, Eq)]
pub struct Scheduler {
    /// Time that one tick stands for, in sixtieths of a second.
    pub timestep: u32,
    pub bounds: WindowBounds,
    pub materials: Materials,
}

impl Scheduler {
    /// The store after the startup stage has run on `s`.
    pub open spec fn after_startup(self, s: StoreView) -> StoreView {
        s.spawn(player_bundle(self.materials, self.bounds))
    }

    /// The store after one tick with the keys `input`: the movement system,
    /// then the firing system, then the projectile system.
    pub open spec fn after_tick(self, s: StoreView, input: InputSnapshot) -> StoreView {
        after_laser_movement(
            after_player_fire(
                after_player_movement(s, input, self.timestep),
                input,
                self.materials,
            ),
            self.timestep,
            self.bounds,
        )
    }

    /// The store after one tick for each snapshot of `inputs`, in order.
    pub open spec fn after_run(self, s: StoreView, inputs: Seq<InputSnapshot>) -> StoreView
        decreases inputs.len(),
    {
        if inputs.len() == 0 {
            s
        } else {
            self.after_tick(self.after_run(s, inputs.drop_last()), inputs.last())
        }
    }

    /// A tick keeps the store well formed and gives out one identifier at
    /// most.
    pub proof fn lemma_tick_wf(self, s: StoreView, input: InputSnapshot)
        requires
            s.wf(),
            s.next_id < u64::MAX,
        ensures
            self.after_tick(s, input).wf(),
            s.next_id <= self.after_tick(s, input).next_id <= s.next_id + 1,
    {
        let moved = after_player_movement(s, input, self.timestep);
        lemma_player_movement_wf(s, input, self.timestep);
        lemma_player_fire_wf(moved, input, self.materials);
        let fired = after_player_fire(moved, input, self.materials);
        lemma_laser_movement_wf(fired, self.timestep, self.bounds);
    }

    /// What one tick does to a projectile at the height `y`: it rises by its
    /// speed times the time step, and is gone if that takes it above the
    /// window. Neither the keys nor any other entity have a say in it.
    pub proof fn lemma_tick_projectile(
        self,
        s: StoreView,
        input: InputSnapshot,
        id: EntityId,
        y: int,
        v: Speed,
    )
        requires
            s.wf(),
            s.next_id < u64::MAX,
            s.get(id) is Some,
            s.get(id).unwrap().flies_at(y, v),
        ensures
            ({
                let risen = clamp(y + v.travel(self.timestep));
                let after = self.after_tick(s, input);
                if risen > self.bounds.height {
                    !after.contains(id)
                } else {
                    after.get(id) is Some && after.get(id).unwrap().flies_at(risen, v)
                }
            }),
    {
        let moved = after_player_movement(s, input, self.timestep);
        lemma_player_movement_wf(s, input, self.timestep);
        lemma_player_movement_flight(s, input, self.timestep, id);
        assert(moved.get(id).unwrap().flies_at(y, v));
        let i = s.index_of(id);
        assert(s.entities[i].id.0 < s.next_id);
        let fired = after_player_fire(moved, input, self.materials);
        lemma_player_fire_wf(moved, input, self.materials);
        lemma_player_fire_flight(moved, input, self.materials, id);
        assert(fired.get(id).unwrap().flies_at(y, v));
        lemma_laser_movement_flight(fired, self.timestep, self.bounds, id);
    }

    /// An entity that is no moving projectile outlasts a tick, and is none
    /// after it.
    pub proof fn lemma_tick_bystander(self, s: StoreView, input: InputSnapshot, id: EntityId)
        requires
            s.wf(),
            s.next_id < u64::MAX,
            s.contains(id),
            !s.get(id).unwrap().matches(&Filter::projectiles()),
        ensures
            self.after_tick(s, input).contains(id),
            !self.after_tick(s, input).get(id).unwrap().matches(&Filter::projectiles()),
    {
        let moved = after_player_movement(s, input, self.timestep);
        lemma_player_movement_wf(s, input, self.timestep);
        lemma_player_movement_flight(s, input, self.timestep, id);
        let i = s.index_of(id);
        assert(s.entities[i].id.0 < s.next_id);
        let fired = after_player_fire(moved, input, self.materials);
        lemma_player_fire_wf(moved, input, self.materials);
        lemma_player_fire_flight(moved, input, self.materials, id);
        lemma_laser_movement_flight(fired, self.timestep, self.bounds, id);
    }

    /// An entity that is gone stays gone: a tick gives its identifier to no
    /// other entity.
    pub proof fn lemma_tick_absent(self, s: StoreView, input: InputSnapshot, id: EntityId)
        requires
            s.wf(),
            s.next_id < u64::MAX,
            id.0 < s.next_id,
            !s.contains(id),
        ensures
            !self.after_tick(s, input).contains(id),
    {
        let moved = after_player_movement(s, input, self.timestep);
        lemma_player_movement_wf(s, input, self.timestep);
        lemma_player_movement_flight(s, input, self.timestep, id);
        let fired = after_player_fire(moved, input, self.materials);
        lemma_player_fire_wf(moved, input, self.materials);
        lemma_player_fire_flight(moved, input, self.materials, id);
        lemma_laser_movement_flight(fired, self.timestep, self.bounds, id);
    }

    /// A scheduler for ticks of `timestep` sixtieths of a second in a window
    /// of the size `bounds`.
    pub fn new(timestep: u32, bounds: WindowBounds, materials: Materials) -> (scheduler: Scheduler)
        ensures
            scheduler == (Scheduler { timestep, bounds, materials }),
    {
        Scheduler { timestep, bounds, materials }
    }

    /// Runs the startup stage: spawns the player. Returns the player's
    /// identifier.
    pub fn startup(&self, store: &mut EntityStore) -> (id: EntityId)
        requires
            old(store)@.wf(),
            old(store)@.next_id < u64::MAX,
        ensures
            final(store)@ == self.after_startup(old(store)@),
            final(store)@.wf(),
            id.0 == old(store)@.next_id,
    {
        player_spawn(store, &self.materials, &self.bounds)
    }

    /// Runs one tick with the keys `input`.
    pub fn tick(&self, store: &mut EntityStore, input: &InputSnapshot)
        requires
            old(store)@.wf(),
            old(store)@.next_id < u64::MAX,
        ensures
            final(store)@ == self.after_tick(old(store)@, *input),
            final(store)@.wf(),
    {
        player_movement(store, input, self.timestep);
        player_fire(store, input, &self.materials);
        laser_movement(store, self.timestep, &self.bounds);
    }

    /// Runs one tick for each snapshot of `inputs`, in order.
    pub fn run(&self, store: &mut EntityStore, inputs: &Vec<InputSnapshot>)
        requires
            old(store)@.wf(),
            old(store)@.next_id + inputs@.len() <= u64::MAX,
        ensures
            final(store)@ == self.after_run(old(store)@, inputs@),
            final(store)@.wf(),
    {
        let mut i: usize = 0;
        while i < inputs.len()
            invariant
                i <= inputs@.len(),
                store@.wf(),
                store@ == self.after_run(old(store)@, inputs@.take(i as int)),
                store@.next_id <= old(store)@.next_id + i,
                old(store)@.next_id + inputs@.len() <= u64::MAX,
            decreases inputs@.len() - i,
        {
            proof {
                self.lemma_tick_wf(store@, inputs@[i as int]);
                assert(inputs@.take(i + 1).drop_last() =~= inputs@.take(i as int));
            }
            self.tick(store, &inputs[i]);
            i = i + 1;
        }
        assert(inputs@.take(i as int) =~= inputs@);
    }
}

} // verus!
