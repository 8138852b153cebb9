//! The systems: each reads and changes the entities of one kind, once per
//! tick.

use vstd::prelude::*;
use crate::components::{Components, Entity, EntityId, Filter, Speed, Transform};
use crate::model::StoreView;
use crate::resources::{InputSnapshot, Key, KeyState, Materials, WindowBounds};
use crate::store::EntityStore;
use crate::units::{
    clamp, height_after, shift, DEFAULT_SPEED, LASER_DEPTH, LASER_OFFSET_Y, PLAYER_BOTTOM_MARGIN,
    PLAYER_DEPTH,
};

verus! {

/// Whether a shot leaves in this tick: the weapon is armed and the fire key is
/// down.
pub open spec fn fires(ready: bool, fire: KeyState) -> bool {
    ready && fire.held
}

/// Whether the weapon is armed after this tick. A release of the fire key
/// arms it, whatever it was. Otherwise a shot disarms it, and without a shot
/// it stays as it was.
pub open spec fn armed_after(ready: bool, fire: KeyState) -> bool {
    fire.just_released || (ready && !fire.held)
}

/// The components of a projectile fired from the position `from`.
pub open spec fn laser_bundle(from: Transform, materials: Materials) -> Components {
    Components {
        transform: Some(
            Transform { x: from.x, y: clamp(from.y + LASER_OFFSET_Y) as i64, z: LASER_DEPTH },
        ),
        speed: Some(Speed(DEFAULT_SPEED)),
        material: Some(materials.laser),
        ready_to_fire: None,
        player: false,
        laser: true,
    }
}

/// The store after the firing system has run on `s`.
///
/// Without exactly one shooter nothing changes. Otherwise the shooter's weapon
/// is armed as [`armed_after`] says, and where a shot [`fires`] one projectile
/// is spawned at the shooter's position, raised by [`LASER_OFFSET_Y`].
pub open spec fn after_player_fire(
    s: StoreView,
    input: InputSnapshot,
    materials: Materials,
) -> StoreView {
    match s.single(Filter::shooter()) {
        None => s,
        Some(id) => {
            let c = s.get(id).unwrap();
            let ready = c.ready_to_fire.unwrap();
            let rearmed = s.set(
                id,
                Components { ready_to_fire: Some(armed_after(ready, input.fire)), ..c },
            );
            if fires(ready, input.fire) {
                rearmed.spawn(laser_bundle(c.transform.unwrap(), materials))
            } else {
                rearmed
            }
        },
    }
}

/// Fires the player's weapon, disarms it and arms it again.
///
/// A shot leaves when the weapon is armed and the fire key is down; the shot
/// disarms the weapon. A release of the fire key arms it again. So one
/// press gives one projectile, however long the key is held. A store without
/// a player is left as it is.
pub fn player_fire(store: &mut EntityStore, input: &InputSnapshot, materials: &Materials)
    requires
        old(store)@.wf(),
        old(store)@.next_id < u64::MAX,
    ensures
        final(store)@ == after_player_fire(old(store)@, *input, *materials),
        final(store)@.wf(),
        !old(store)@.has_player() ==> final(store)@ == old(store)@,
{
    proof {
        if !store@.has_player() {
            store@.lemma_no_player_no_match(Filter::shooter());
        }
    }
    match store.single(&Filter::shooter()) {
        None => {},
        Some(id) => {
            proof {
                store@.lemma_single_is_selected(Filter::shooter());
            }
            let mut c = store.get(id).unwrap();
            let from = c.transform.unwrap();
            let mut ready = c.ready_to_fire.unwrap();
            let mut shot: Option<Components> = None;
            if ready && input.is_held(Key::Fire) {
                shot = Some(
                    Components {
                        transform: Some(
                            Transform {
                                x: from.x,
                                y: shift(from.y, LASER_OFFSET_Y),
                                z: LASER_DEPTH,
                            },
                        ),
                        speed: Some(Speed::default()),
                        material: Some(materials.laser),
                        ready_to_fire: None,
                        player: false,
                        laser: true,
                    },
                );
                ready = false;
            }
            if input.just_released(Key::Fire) {
                ready = true;
            }
            c.ready_to_fire = Some(ready);
            store.set(id, c);
            match shot {
                Some(laser) => {
                    store.spawn(laser);
                },
                None => {},
            }
        },
    }
}

/// The components with which the player starts in a window of the size
/// `bounds`: at the middle of the bottom edge, raised by
/// [`PLAYER_BOTTOM_MARGIN`], with the default speed and an armed weapon.
pub open spec fn player_bundle(materials: Materials, bounds: WindowBounds) -> Components {
    Components {
        transform: Some(
            Transform {
                x: 0,
                y: (-(bounds.height / 2) + PLAYER_BOTTOM_MARGIN) as i64,
                z: PLAYER_DEPTH,
            },
        ),
        speed: Some(Speed(DEFAULT_SPEED)),
        material: Some(materials.player_materials),
        ready_to_fire: Some(true),
        player: true,
        laser: false,
    }
}

/// Spawns the player and returns its identifier. This runs once, before the
/// first tick.
pub fn player_spawn(
    store: &mut EntityStore,
    materials: &Materials,
    bounds: &WindowBounds,
) -> (id: EntityId)
    requires
        old(store)@.wf(),
        old(store)@.next_id < u64::MAX,
    ensures
        final(store)@ == old(store)@.spawn(player_bundle(*materials, *bounds)),
        final(store)@.wf(),
        id.0 == old(store)@.next_id,
        final(store)@.get(id) == Some(player_bundle(*materials, *bounds)),
        final(store)@.count(Filter::players()) == old(store)@.count(Filter::players()) + 1,
{
    let bottom: i64 = -((bounds.height / 2) as i64);
    let id = store.spawn(
        Components {
            transform: Some(Transform { x: 0, y: bottom + PLAYER_BOTTOM_MARGIN, z: PLAYER_DEPTH }),
            speed: Some(Speed::default()),
            material: Some(materials.player_materials),
            ready_to_fire: Some(true),
            player: true,
            laser: false,
        },
    );
    proof {
        store@.lemma_get_at(store@.entities.len() - 1);
        old(store)@.entities.lemma_filter_len_push(
            |e: Entity| e.components.matches(&Filter::players()),
            store@.entities.last(),
        );
    }
    id
}

/// The store after the movement system has run on `s`.
///
/// Without exactly one steered entity nothing changes. Otherwise that entity
/// moves along x by its speed times the time step, in the direction of the
/// held keys, and nothing else changes.
pub open spec fn after_player_movement(
    s: StoreView,
    input: InputSnapshot,
    timestep: u32,
) -> StoreView {
    match s.single(Filter::steered()) {
        None => s,
        Some(id) => {
            let c = s.get(id).unwrap();
            let t = c.transform.unwrap();
            let x = clamp(t.x + input.direction() * c.speed.unwrap().travel(timestep));
            s.set(id, Components { transform: Some(Transform { x: x as i64, ..t }), ..c })
        },
    }
}

/// Moves the player to the left or to the right, as the held keys say. The
/// player is not kept inside the window. A store without a player is left as
/// it is.
pub fn player_movement(store: &mut EntityStore, input: &InputSnapshot, timestep: u32)
    requires
        old(store)@.wf(),
    ensures
        final(store)@ == after_player_movement(old(store)@, *input, timestep),
        final(store)@.wf(),
        !old(store)@.has_player() ==> final(store)@ == old(store)@,
{
    proof {
        if !store@.has_player() {
            store@.lemma_no_player_no_match(Filter::steered());
        }
    }
    match store.single(&Filter::steered()) {
        None => {},
        Some(id) => {
            proof {
                store@.lemma_single_is_selected(Filter::steered());
            }
            let mut c = store.get(id).unwrap();
            let t = c.transform.unwrap();
            let distance = c.speed.unwrap().distance(timestep);
            let direction = input.direction();
            let step: i64 = if direction < 0 {
                -distance
            } else if direction > 0 {
                distance
            } else {
                0
            };
            c.transform = Some(Transform { x: shift(t.x, step), y: t.y, z: t.z });
            store.set(id, c);
        },
    }
}

/// What one tick makes of one entity. A projectile rises by its speed times
/// the time step, and is gone (`None`) if that takes it above the window. Any
/// other entity stays as it is.
pub open spec fn advance(e: Entity, timestep: u32, bounds: WindowBounds) -> Option<Entity> {
    if e.components.matches(&Filter::projectiles()) {
        let t = e.components.transform.unwrap();
        let y = clamp(t.y + e.components.speed.unwrap().travel(timestep));
        if y > bounds.height {
            None
        } else {
            Some(
                Entity {
                    id: e.id,
                    components: Components {
                        transform: Some(Transform { y: y as i64, ..t }),
                        ..e.components
                    },
                },
            )
        }
    } else {
        Some(e)
    }
}

/// The store after the projectile system has run on `s`: every entity is
/// what [`advance`] makes of it, in the same order.
pub open spec fn after_laser_movement(
    s: StoreView,
    timestep: u32,
    bounds: WindowBounds,
) -> StoreView {
    s.filter_map(|e: Entity| advance(e, timestep, bounds))
}

/// Moves every projectile up, and removes in the same tick each one that has
/// left the window at the top. Each projectile is visited once, and nothing
/// else is touched.
pub fn laser_movement(store: &mut EntityStore, timestep: u32, bounds: &WindowBounds)
    requires
        old(store)@.wf(),
    ensures
        final(store)@ == after_laser_movement(old(store)@, timestep, *bounds),
        final(store)@.wf(),
{
    let ghost f = |e: Entity| advance(e, timestep, *bounds);
    let filter = Filter::projectiles();
    let mut kept: Vec<Entity> = Vec::new();
    let mut i: usize = 0;
    while i < store.len()
        invariant
            store@ == old(store)@,
            i <= store@.entities.len(),
            filter == Filter::projectiles(),
            f == (|e: Entity| advance(e, timestep, *bounds)),
            kept@ == store@.entities.take(i as int).filter_map(f),
        decreases store@.entities.len() - i,
    {
        let e = store.entities()[i];
        proof {
            store@.entities.lemma_filter_map_take_succ(f, i as int);
        }
        if e.components.matches(&filter) {
            let t = e.components.transform.unwrap();
            let y = shift(t.y, e.components.speed.unwrap().distance(timestep));
            if y <= bounds.height as i64 {
                let mut c = e.components;
                c.transform = Some(Transform { x: t.x, y, z: t.z });
                kept.push(Entity { id: e.id, components: c });
            }
        } else {
            kept.push(e);
        }
        i = i + 1;
    }
    proof {
        assert(store@.entities.take(i as int) =~= store@.entities);
        store@.lemma_filter_map_wf(f);
    }
    store.replace_entities(kept);
}

/// The store after the projectile system has run `ticks` times on `s`.
pub open spec fn after_laser_ticks(
    s: StoreView,
    timestep: u32,
    bounds: WindowBounds,
    ticks: nat,
) -> StoreView
    decreases ticks,
{
    if ticks == 0 {
        s
    } else {
        after_laser_movement(
            after_laser_ticks(s, timestep, bounds, (ticks - 1) as nat),
            timestep,
            bounds,
        )
    }
}

/// Whether one of the first `ticks` ticks takes an entity with the
/// components `c` above the window. Only a moving projectile can cross: it
/// does at tick `j` if its height plus `j` times its speed times the time
/// step is above the window's height.
pub open spec fn crosses(c: Components, timestep: u32, bounds: WindowBounds, ticks: nat) -> bool {
    &&& c.matches(&Filter::projectiles())
    &&& exists|j: nat|
        1 <= j <= ticks && #[trigger] height_after(
            c.transform.unwrap().y as int,
            c.speed.unwrap().travel(timestep),
            j,
        ) > bounds.height
}

/// How many of the lasers of `s` cross within the first `ticks` ticks, each
/// taken by itself.
pub open spec fn crossed(s: StoreView, timestep: u32, bounds: WindowBounds, ticks: nat) -> nat {
    s.entities.filter(
        |e: Entity| e.components.laser && crosses(e.components, timestep, bounds, ticks),
    ).len()
}

/// The movement system keeps the store well formed and gives out no
/// identifier.
pub proof fn lemma_player_movement_wf(s: StoreView, input: InputSnapshot, timestep: u32)
    requires
        s.wf(),
    ensures
        after_player_movement(s, input, timestep).wf(),
        after_player_movement(s, input, timestep).next_id == s.next_id,
        after_player_movement(s, input, timestep).entities.len() == s.entities.len(),
{
}

/// The firing system keeps the store well formed and gives out one
/// identifier at most.
pub proof fn lemma_player_fire_wf(s: StoreView, input: InputSnapshot, materials: Materials)
    requires
        s.wf(),
        s.next_id < u64::MAX,
    ensures
        after_player_fire(s, input, materials).wf(),
        s.next_id <= after_player_fire(s, input, materials).next_id <= s.next_id + 1,
{
}

/// The projectile system keeps the store well formed and gives out no
/// identifier.
pub proof fn lemma_laser_movement_wf(s: StoreView, timestep: u32, bounds: WindowBounds)
    requires
        s.wf(),
    ensures
        after_laser_movement(s, timestep, bounds).wf(),
        after_laser_movement(s, timestep, bounds).next_id == s.next_id,
{
    s.lemma_filter_map_wf(|e: Entity| advance(e, timestep, bounds));
}

/// The movement system leaves a projectile at its height and speed, makes a
/// projectile of no other entity, and brings back no entity that is gone.
pub proof fn lemma_player_movement_flight(
    s: StoreView,
    input: InputSnapshot,
    timestep: u32,
    id: EntityId,
)
    requires
        s.wf(),
    ensures
        after_player_movement(s, input, timestep).contains(id) == s.contains(id),
        s.contains(id) ==> after_player_movement(s, input, timestep).get(id).unwrap().matches(
            &Filter::projectiles(),
        ) == s.get(id).unwrap().matches(&Filter::projectiles()),
        forall|y: int, v: Speed|
            s.get(id) is Some && #[trigger] s.get(id).unwrap().flies_at(y, v)
                ==> after_player_movement(s, input, timestep).get(id).unwrap().flies_at(y, v),
{
    match s.single(Filter::steered()) {
        None => {},
        Some(player) => {
            s.lemma_single_is_selected(Filter::steered());
            let c = s.get(player).unwrap();
            let t = c.transform.unwrap();
            let x = clamp(t.x + input.direction() * c.speed.unwrap().travel(timestep));
            s.lemma_get_set(
                player,
                Components { transform: Some(Transform { x: x as i64, ..t }), ..c },
                id,
            );
        },
    }
}

/// The firing system leaves a projectile at its height and speed, makes a
/// projectile of no entity that was there, and brings back no entity that is
/// gone.
pub proof fn lemma_player_fire_flight(
    s: StoreView,
    input: InputSnapshot,
    materials: Materials,
    id: EntityId,
)
    requires
        s.wf(),
        s.next_id < u64::MAX,
        id.0 < s.next_id,
    ensures
        after_player_fire(s, input, materials).contains(id) == s.contains(id),
        s.contains(id) ==> after_player_fire(s, input, materials).get(id).unwrap().matches(
            &Filter::projectiles(),
        ) == s.get(id).unwrap().matches(&Filter::projectiles()),
        forall|y: int, v: Speed|
            s.get(id) is Some && #[trigger] s.get(id).unwrap().flies_at(y, v) ==> after_player_fire(
                s,
                input,
                materials,
            ).get(id).unwrap().flies_at(y, v),
{
    match s.single(Filter::shooter()) {
        None => {},
        Some(player) => {
            s.lemma_single_is_selected(Filter::shooter());
            let c = s.get(player).unwrap();
            let ready = c.ready_to_fire.unwrap();
            let rearmed_c = Components { ready_to_fire: Some(armed_after(ready, input.fire)), ..c };
            let rearmed = s.set(player, rearmed_c);
            s.lemma_get_set(player, rearmed_c, id);
            rearmed.lemma_get_spawn(laser_bundle(c.transform.unwrap(), materials), id);
        },
    }
}

/// The projectile system moves a projectile at the height `y` to the height
/// `y` plus its step, cut to the coordinate range, and removes it if that is
/// above the window. It leaves every other entity as it is, and brings back
/// no entity that is gone.
pub proof fn lemma_laser_movement_flight(
    s: StoreView,
    timestep: u32,
    bounds: WindowBounds,
    id: EntityId,
)
    requires
        s.wf(),
    ensures
        !s.contains(id) ==> !after_laser_movement(s, timestep, bounds).contains(id),
        s.contains(id) && !s.get(id).unwrap().matches(&Filter::projectiles())
            ==> after_laser_movement(s, timestep, bounds).get(id) == s.get(id),
        forall|y: int, v: Speed|
            s.get(id) is Some && #[trigger] s.get(id).unwrap().flies_at(y, v) ==> {
                let risen = clamp(y + v.travel(timestep));
                let after = after_laser_movement(s, timestep, bounds);
                if risen > bounds.height {
                    !after.contains(id)
                } else {
                    after.get(id) is Some && after.get(id).unwrap().flies_at(risen, v)
                }
            },
{
    s.lemma_get_filter_map(|e: Entity| advance(e, timestep, bounds), id);
}

} // verus!
