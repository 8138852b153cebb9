//! Laws of the simulation, each proved of the systems' definitions.

use vstd::multiset::Multiset;
use vstd::prelude::*;
use crate::algebra::{
    lemma_filter_agree, lemma_filter_map_count, lemma_filter_map_twice, lemma_filter_split,
};
use crate::components::{Components, Entity, EntityId, Filter, Speed, Transform};
use crate::model::StoreView;
use crate::resources::{InputSnapshot, Materials, WindowBounds};
use crate::scheduler::Scheduler;
use crate::systems::{
    advance, after_laser_movement, after_laser_ticks, after_player_fire, after_player_movement,
    armed_after, crossed, crosses, fires, laser_bundle, lemma_player_movement_wf, player_bundle,
};
use crate::units::{
    clamp, height_after, lemma_height_at_start, lemma_rise_step, LASER_DEPTH, LASER_OFFSET_Y,
};

verus! {

/// While no entity is marked as player, the movement system and the firing
/// system leave the store exactly as it is, whatever the keys do.
pub proof fn law_no_player_no_change(
    s: StoreView,
    input: InputSnapshot,
    timestep: u32,
    materials: Materials,
)
    requires
        !s.has_player(),
    ensures
        after_player_movement(s, input, timestep) == s,
        after_player_fire(s, input, materials) == s,
{
    s.lemma_no_player_no_match(Filter::steered());
    s.lemma_no_player_no_match(Filter::shooter());
}

/// The startup stage, run on a store without a player, leaves exactly one
/// entity marked as player, and that entity's weapon is armed.
pub proof fn law_startup_gives_one_armed_player(scheduler: Scheduler, s: StoreView)
    requires
        s.wf(),
        s.next_id < u64::MAX,
        !s.has_player(),
    ensures
        scheduler.after_startup(s).count(Filter::players()) == 1,
        scheduler.after_startup(s).single(Filter::players()) == Some(EntityId(s.next_id as u64)),
        scheduler.after_startup(s).get(EntityId(s.next_id as u64)) is Some,
        scheduler.after_startup(s).get(EntityId(s.next_id as u64)).unwrap().ready_to_fire == Some(
            true,
        ),
{
    let bundle = player_bundle(scheduler.materials, scheduler.bounds);
    s.lemma_no_player_no_match(Filter::players());
    s.lemma_query_spawn(bundle, Filter::players());
    s.lemma_get_spawn(bundle, EntityId(s.next_id as u64));
}

/// One tick of the movement system moves the player along x by exactly its
/// speed times the time step: to the left if the left key is held, whether
/// or not the right key is held too; to the right if only the right key is
/// held; not at all if neither is. Nothing else about the player changes, and
/// no other entity changes.
///
/// This is stated for a move that ends on a coordinate. A move that would
/// end beyond the coordinate range stops at its end.
pub proof fn law_player_step(
    s: StoreView,
    input: InputSnapshot,
    timestep: u32,
    id: EntityId,
    player: Components,
    at: Transform,
    v: Speed,
)
    requires
        s.wf(),
        s.single(Filter::steered()) == Some(id),
        s.get(id) == Some(player),
        player.transform == Some(at),
        player.speed == Some(v),
        i64::MIN <= at.x + input.direction() * v.travel(timestep) <= i64::MAX,
    ensures
        input.left.held ==> after_player_movement(s, input, timestep).get(id) == Some(
            Components {
                transform: Some(Transform { x: (at.x - v.travel(timestep)) as i64, ..at }),
                ..player
            },
        ),
        !input.left.held && input.right.held ==> after_player_movement(s, input, timestep).get(id)
            == Some(
            Components {
                transform: Some(Transform { x: (at.x + v.travel(timestep)) as i64, ..at }),
                ..player
            },
        ),
        !input.left.held && !input.right.held ==> after_player_movement(s, input, timestep).get(id)
            == Some(player),
        after_player_movement(s, input, timestep).entities.len() == s.entities.len(),
        forall|other: EntityId|
            other != id ==> after_player_movement(s, input, timestep).get(other) == s.get(other),
{
    let step = v.travel(timestep);
    let x = clamp(at.x + input.direction() * step);
    if input.left.held {
        assert(input.direction() * step == -step) by (nonlinear_arith)
            requires
                input.direction() == -1,
        ;
    } else if input.right.held {
        assert(input.direction() * step == step) by (nonlinear_arith)
            requires
                input.direction() == 1,
        ;
    } else {
        assert(input.direction() * step == 0) by (nonlinear_arith)
            requires
                input.direction() == 0,
        ;
        assert(player == Components { transform: Some(Transform { x: at.x, ..at }), ..player });
    }
    let moved = Components { transform: Some(Transform { x: x as i64, ..at }), ..player };
    assert(after_player_movement(s, input, timestep) == s.set(id, moved));
    s.lemma_single_is_selected(Filter::steered());
    s.lemma_get_set(id, moved, id);
    assert forall|other: EntityId| other != id implies after_player_movement(s, input, timestep).get(
        other,
    ) == s.get(other) by {
        s.lemma_get_set(id, moved, other);
    }
}

/// One press of the fire key gives one projectile.
///
/// With the weapon armed, the tick in which the key goes down spawns exactly one
/// laser, at the player's x and 15 world units above the player's y, and
/// disarms the weapon. A further tick with the key still down changes nothing at
/// all. The tick in which the key goes up arms the weapon again and touches
/// nothing else.
///
/// This is stated for a player whose y, raised by 15 world units, is a
/// coordinate.
pub proof fn law_one_shot_per_press(
    s: StoreView,
    materials: Materials,
    id: EntityId,
    player: Components,
    at: Transform,
    press: InputSnapshot,
    hold: InputSnapshot,
    release: InputSnapshot,
)
    requires
        s.wf(),
        s.next_id < u64::MAX,
        s.single(Filter::shooter()) == Some(id),
        s.get(id) == Some(player),
        player.transform == Some(at),
        player.ready_to_fire == Some(true),
        at.y + LASER_OFFSET_Y <= i64::MAX,
        press.fire.held && !press.fire.just_released,
        hold.fire.held && !hold.fire.just_released,
        release.fire.just_released,
    ensures
        ({
            let pressed = after_player_fire(s, press, materials);
            let held = after_player_fire(pressed, hold, materials);
            let released = after_player_fire(held, release, materials);
            &&& pressed.entities.len() == s.entities.len() + 1
            &&& pressed.count(Filter::lasers()) == s.count(Filter::lasers()) + 1
            &&& pressed.entities.last().components == laser_bundle(at, materials)
            &&& pressed.entities.last().components.laser
            &&& pressed.entities.last().components.transform == Some(
                Transform { x: at.x, y: (at.y + LASER_OFFSET_Y) as i64, z: LASER_DEPTH },
            )
            &&& pressed.get(id) == Some(Components { ready_to_fire: Some(false), ..player })
            &&& held == pressed
            &&& released == pressed.set(id, player)
            &&& released.entities.len() == pressed.entities.len()
            &&& released.get(id) == Some(player)
            &&& forall|other: EntityId| other != id ==> released.get(other) == pressed.get(other)
        }),
{
    let cooling = Components { ready_to_fire: Some(false), ..player };
    let laser = laser_bundle(at, materials);
    s.lemma_single_is_selected(Filter::shooter());

    // The press.
    let rearmed = s.set(id, cooling);
    let pressed = after_player_fire(s, press, materials);
    assert(pressed == rearmed.spawn(laser));
    s.lemma_get_set(id, cooling, id);
    s.lemma_query_set(id, cooling, Filter::shooter());
    s.lemma_query_set(id, cooling, Filter::lasers());
    rearmed.lemma_query_spawn(laser, Filter::shooter());
    rearmed.lemma_query_spawn(laser, Filter::lasers());
    rearmed.lemma_get_spawn(laser, id);
    assert(pressed.single(Filter::shooter()) == Some(id));
    assert(pressed.get(id) == Some(cooling));

    // The key stays down.
    let held = after_player_fire(pressed, hold, materials);
    assert(held == pressed.set(id, cooling));
    assert(pressed.set(id, cooling).entities =~= pressed.entities) by {
        assert forall|i: int| 0 <= i < pressed.entities.len() && (#[trigger] pressed.entities[i]).id
            == id implies pressed.entities[i].components == cooling by {
            pressed.lemma_get_at(i);
        }
    }

    // The key goes up.
    let released = after_player_fire(held, release, materials);
    assert(player == Components { ready_to_fire: Some(true), ..cooling });
    assert(released == pressed.set(id, player));
    pressed.lemma_get_set(id, player, id);
    assert forall|other: EntityId| other != id implies released.get(other) == pressed.get(other) by {
        pressed.lemma_get_set(id, player, other);
    }
}

/// Only the firing system makes lasers, and it makes one at a time: the
/// movement system leaves their number as it is, the firing system adds one
/// where a shot leaves and none otherwise, and the projectile system adds
/// none.
pub proof fn law_lasers_come_from_shots(
    s: StoreView,
    input: InputSnapshot,
    timestep: u32,
    materials: Materials,
    bounds: WindowBounds,
)
    requires
        s.wf(),
        s.next_id < u64::MAX,
    ensures
        after_player_movement(s, input, timestep).count(Filter::lasers()) == s.count(
            Filter::lasers(),
        ),
        after_player_fire(s, input, materials).count(Filter::lasers()) == s.count(Filter::lasers())
            + match s.single(Filter::shooter()) {
            Some(id) => if fires(s.get(id).unwrap().ready_to_fire.unwrap(), input.fire) {
                1int
            } else {
                0int
            },
            None => 0int,
        },
        after_laser_movement(s, timestep, bounds).count(Filter::lasers()) <= s.count(
            Filter::lasers(),
        ),
{
    lemma_count_after_movement(s, input, timestep, Filter::lasers());
    match s.single(Filter::shooter()) {
        Some(id) => {
            s.lemma_single_is_selected(Filter::shooter());
            let c = s.get(id).unwrap();
            let ready = c.ready_to_fire.unwrap();
            let rearmed_c = Components { ready_to_fire: Some(armed_after(ready, input.fire)), ..c };
            s.lemma_query_set(id, rearmed_c, Filter::lasers());
            s.set(id, rearmed_c).lemma_query_spawn(
                laser_bundle(c.transform.unwrap(), materials),
                Filter::lasers(),
            );
        },
        None => {},
    }
    lemma_count_after_lasers(s, timestep, bounds, Filter::lasers());
}

/// No tick makes a player: a store with one player at most has one player at
/// most after any tick.
pub proof fn law_players_are_not_made(scheduler: Scheduler, s: StoreView, input: InputSnapshot)
    requires
        s.wf(),
        s.next_id < u64::MAX,
    ensures
        scheduler.after_tick(s, input).count(Filter::players()) <= s.count(Filter::players()),
{
    let moved = after_player_movement(s, input, scheduler.timestep);
    lemma_count_after_movement(s, input, scheduler.timestep, Filter::players());
    lemma_player_movement_wf(s, input, scheduler.timestep);
    match moved.single(Filter::shooter()) {
        Some(id) => {
            moved.lemma_single_is_selected(Filter::shooter());
            let c = moved.get(id).unwrap();
            let ready = c.ready_to_fire.unwrap();
            let rearmed_c = Components { ready_to_fire: Some(armed_after(ready, input.fire)), ..c };
            moved.lemma_query_set(id, rearmed_c, Filter::players());
            moved.set(id, rearmed_c).lemma_query_spawn(
                laser_bundle(c.transform.unwrap(), scheduler.materials),
                Filter::players(),
            );
        },
        None => {},
    }
    let fired = after_player_fire(moved, input, scheduler.materials);
    lemma_count_after_lasers(fired, scheduler.timestep, scheduler.bounds, Filter::players());
}

/// The movement system changes the position of an entity and nothing that a
/// filter looks at.
proof fn lemma_count_after_movement(
    s: StoreView,
    input: InputSnapshot,
    timestep: u32,
    filter: Filter,
)
    requires
        s.wf(),
    ensures
        after_player_movement(s, input, timestep).count(filter) == s.count(filter),
{
    match s.single(Filter::steered()) {
        Some(id) => {
            s.lemma_single_is_selected(Filter::steered());
            let c = s.get(id).unwrap();
            let t = c.transform.unwrap();
            let x = clamp(t.x + input.direction() * c.speed.unwrap().travel(timestep));
            s.lemma_query_set(
                id,
                Components { transform: Some(Transform { x: x as i64, ..t }), ..c },
                filter,
            );
        },
        None => {},
    }
}

/// The projectile system adds nothing to what a filter selects.
proof fn lemma_count_after_lasers(s: StoreView, timestep: u32, bounds: WindowBounds, filter: Filter)
    ensures
        after_laser_movement(s, timestep, bounds).count(filter) <= s.count(filter),
{
    let one = |e: Entity| advance(e, timestep, bounds);
    let pred = |e: Entity| e.components.matches(&filter);
    let kept = |e: Entity| one(e) is Some;
    lemma_filter_map_count(s.entities, one, pred);
    lemma_filter_split(s.entities, pred, kept);
    lemma_filter_agree(
        s.entities,
        |e: Entity| pred(e) && kept(e),
        |e: Entity| pred(e) && one(e) is Some,
    );
}

/// Where a projectile stands after the first `n` ticks of a run, with what
/// the proof by induction carries along: the store stays well formed, and its
/// next identifier stays above the projectile's.
proof fn lemma_run_projectile(
    scheduler: Scheduler,
    s: StoreView,
    inputs: Seq<InputSnapshot>,
    id: EntityId,
    y0: int,
    v: Speed,
    n: nat,
)
    requires
        s.wf(),
        s.next_id + inputs.len() <= u64::MAX,
        s.get(id) is Some,
        s.get(id).unwrap().flies_at(y0, v),
        n <= inputs.len(),
    ensures
        ({
            let after = scheduler.after_run(s, inputs.take(n as int));
            let step = v.travel(scheduler.timestep);
            &&& after.wf()
            &&& s.next_id <= after.next_id <= s.next_id + n
            &&& id.0 < s.next_id
            &&& after.contains(id) <==> forall|j: nat|
                1 <= j <= n ==> #[trigger] height_after(y0, step, j) <= scheduler.bounds.height
            &&& after.contains(id) ==> after.get(id).unwrap().flies_at(
                clamp(height_after(y0, step, n)),
                v,
            )
        }),
    decreases n,
{
    let step = v.travel(scheduler.timestep);
    let top = scheduler.bounds.height as int;
    let i = s.index_of(id);
    assert(s.entities[i].id.0 < s.next_id);
    if n == 0 {
        assert(inputs.take(0).len() == 0);
        lemma_height_at_start(y0, step);
    } else {
        let m = (n - 1) as nat;
        let before = scheduler.after_run(s, inputs.take(m as int));
        let input = inputs[m as int];
        lemma_run_projectile(scheduler, s, inputs, id, y0, v, m);
        assert(inputs.take(n as int).drop_last() =~= inputs.take(m as int));
        assert(inputs.take(n as int).last() == input);
        let after = scheduler.after_run(s, inputs.take(n as int));
        assert(after == scheduler.after_tick(before, input));
        scheduler.lemma_tick_wf(before, input);
        if before.contains(id) {
            lemma_rise_step(y0, step, m, top);
            scheduler.lemma_tick_projectile(
                before,
                input,
                id,
                clamp(height_after(y0, step, m)),
                v,
            );
            if after.contains(id) {
                assert forall|j: nat| 1 <= j <= n implies #[trigger] height_after(y0, step, j)
                    <= top by {
                    if j < n {
                        assert(height_after(y0, step, j) <= top);
                    }
                }
            } else {
                assert(height_after(y0, step, n) > top);
            }
        } else {
            scheduler.lemma_tick_absent(before, input, id);
            let j = choose|j: nat| 1 <= j <= m && #[trigger] height_after(y0, step, j) > top;
            assert(1 <= j <= n && height_after(y0, step, j) > top);
        }
    }
}

/// A projectile is alive after `n` ticks exactly if none of these ticks took
/// it above the window: what one tick does to it depends on its own height
/// and speed, not on the keys and not on any other entity. While it is
/// alive, it stands at its first height plus `n` times its speed times the
/// time step, cut to the coordinate range, and has the speed that it had.
pub proof fn law_projectile_fate(
    scheduler: Scheduler,
    s: StoreView,
    inputs: Seq<InputSnapshot>,
    id: EntityId,
    y0: int,
    v: Speed,
    n: nat,
)
    requires
        s.wf(),
        s.next_id + inputs.len() <= u64::MAX,
        s.get(id) is Some,
        s.get(id).unwrap().flies_at(y0, v),
        n <= inputs.len(),
    ensures
        scheduler.after_run(s, inputs.take(n as int)).contains(id) <==> forall|j: nat|
            1 <= j <= n ==> #[trigger] height_after(y0, v.travel(scheduler.timestep), j)
                <= scheduler.bounds.height,
        scheduler.after_run(s, inputs.take(n as int)).contains(id) ==> scheduler.after_run(
            s,
            inputs.take(n as int),
        ).get(id).unwrap().flies_at(clamp(height_after(y0, v.travel(scheduler.timestep), n)), v),
{
    lemma_run_projectile(scheduler, s, inputs, id, y0, v, n);
}

/// A projectile is removed in the first tick that takes it above the window,
/// and not before. Let it stand at the height `y0`, and let `k` be the first
/// tick for which `y0` plus `k` times its speed times the time step is above
/// the window's height. Then after each of the ticks before `k` the
/// projectile is alive, at exactly `y0` plus that many steps, and after tick
/// `k` and every later tick it is gone.
pub proof fn law_projectile_lifetime(
    scheduler: Scheduler,
    s: StoreView,
    inputs: Seq<InputSnapshot>,
    id: EntityId,
    y0: int,
    v: Speed,
    k: nat,
)
    requires
        s.wf(),
        s.next_id + inputs.len() <= u64::MAX,
        s.get(id) is Some,
        s.get(id).unwrap().flies_at(y0, v),
        1 <= k <= inputs.len(),
        height_after(y0, v.travel(scheduler.timestep), k) > scheduler.bounds.height,
        forall|j: nat|
            1 <= j < k ==> #[trigger] height_after(y0, v.travel(scheduler.timestep), j)
                <= scheduler.bounds.height,
    ensures
        forall|n: nat|
            n < k ==> {
                let after = #[trigger] scheduler.after_run(s, inputs.take(n as int));
                &&& after.get(id) is Some
                &&& after.get(id).unwrap().flies_at(
                    height_after(y0, v.travel(scheduler.timestep), n),
                    v,
                )
            },
        forall|n: nat|
            k <= n <= inputs.len() ==> !(#[trigger] scheduler.after_run(
                s,
                inputs.take(n as int),
            )).contains(id),
{
    let step = v.travel(scheduler.timestep);
    let top = scheduler.bounds.height as int;
    assert forall|n: nat| n < k implies {
        let after = #[trigger] scheduler.after_run(s, inputs.take(n as int));
        &&& after.get(id) is Some
        &&& after.get(id).unwrap().flies_at(height_after(y0, step, n), v)
    } by {
        lemma_run_projectile(scheduler, s, inputs, id, y0, v, n);
        assert forall|j: nat| 1 <= j <= n implies #[trigger] height_after(y0, step, j) <= top by {}
        if n >= 1 {
            assert(height_after(y0, step, n) <= top);
            if step >= 0 {
                assert(n * step >= 0) by (nonlinear_arith)
                    requires
                        n >= 0,
                        step >= 0,
                ;
            } else {
                // A falling projectile is above the window from the first
                // tick on, so no tick comes before `k`.
                assert(k * step <= 1 * step) by (nonlinear_arith)
                    requires
                        k >= 1,
                        step < 0,
                ;
                assert(height_after(y0, step, 1) > top);
            }
        }
    }
    assert forall|n: nat| k <= n <= inputs.len() implies !(#[trigger] scheduler.after_run(
        s,
        inputs.take(n as int),
    )).contains(id) by {
        lemma_run_projectile(scheduler, s, inputs, id, y0, v, n);
        assert(1 <= k <= n && height_after(y0, step, k) > top);
    }
}

/// An entity that is no moving projectile outlasts the first `n` ticks of a
/// run.
proof fn lemma_run_bystander(
    scheduler: Scheduler,
    s: StoreView,
    inputs: Seq<InputSnapshot>,
    id: EntityId,
    n: nat,
)
    requires
        s.wf(),
        s.next_id + inputs.len() <= u64::MAX,
        s.contains(id),
        !s.get(id).unwrap().matches(&Filter::projectiles()),
        n <= inputs.len(),
    ensures
        ({
            let after = scheduler.after_run(s, inputs.take(n as int));
            &&& after.wf()
            &&& after.next_id <= s.next_id + n
            &&& after.contains(id)
            &&& !after.get(id).unwrap().matches(&Filter::projectiles())
        }),
    decreases n,
{
    if n == 0 {
        assert(inputs.take(0).len() == 0);
    } else {
        let m = (n - 1) as nat;
        lemma_run_bystander(scheduler, s, inputs, id, m);
        assert(inputs.take(n as int).drop_last() =~= inputs.take(m as int));
        let before = scheduler.after_run(s, inputs.take(m as int));
        scheduler.lemma_tick_wf(before, inputs[m as int]);
        scheduler.lemma_tick_bystander(before, inputs[m as int], id);
    }
}

/// Of the lasers that a store holds, those still alive after a run of ticks
/// are as many as there were, less those that have crossed the top of the
/// window, each one's crossing judged by its own height and speed alone. The
/// keys of the run, the player and the projectiles fired during the run take
/// nothing from this count and add nothing to it.
pub proof fn law_survivors_of_run(scheduler: Scheduler, s: StoreView, inputs: Seq<InputSnapshot>)
    requires
        s.wf(),
        s.next_id + inputs.len() <= u64::MAX,
    ensures
        s.entities.filter(
            |e: Entity| e.components.laser && scheduler.after_run(s, inputs).contains(e.id),
        ).len() == s.count(Filter::lasers()) - crossed(
            s,
            scheduler.timestep,
            scheduler.bounds,
            inputs.len(),
        ),
{
    let after = scheduler.after_run(s, inputs);
    let is_laser = |e: Entity| e.components.matches(&Filter::lasers());
    let alive = |e: Entity| after.contains(e.id);
    assert(inputs.take(inputs.len() as int) =~= inputs);
    lemma_filter_split(s.entities, is_laser, alive);
    assert forall|i: int| 0 <= i < s.entities.len() implies (is_laser(#[trigger] s.entities[i])
        && !alive(s.entities[i])) == (s.entities[i].components.laser && crosses(
        s.entities[i].components,
        scheduler.timestep,
        scheduler.bounds,
        inputs.len(),
    )) by {
        let e = s.entities[i];
        s.lemma_get_at(i);
        if e.components.matches(&Filter::projectiles()) {
            lemma_run_projectile(
                scheduler,
                s,
                inputs,
                e.id,
                e.components.transform.unwrap().y as int,
                e.components.speed.unwrap(),
                inputs.len(),
            );
        } else {
            lemma_run_bystander(scheduler, s, inputs, e.id, inputs.len());
        }
    }
    lemma_filter_agree(
        s.entities,
        |e: Entity| is_laser(e) && !alive(e),
        |e: Entity|
            e.components.laser && crosses(
                e.components,
                scheduler.timestep,
                scheduler.bounds,
                inputs.len(),
            ),
    );
    lemma_filter_agree(
        s.entities,
        |e: Entity| is_laser(e) && alive(e),
        |e: Entity| e.components.laser && scheduler.after_run(s, inputs).contains(e.id),
    );
}

/// What `ticks` ticks make of one entity, taken by itself.
spec fn advance_by(e: Entity, timestep: u32, bounds: WindowBounds, ticks: nat) -> Option<Entity>
    decreases ticks,
{
    if ticks == 0 {
        Some(e)
    } else {
        match advance_by(e, timestep, bounds, (ticks - 1) as nat) {
            Some(x) => advance(x, timestep, bounds),
            None => None,
        }
    }
}

/// An entity outlasts `ticks` ticks exactly if it does not cross within
/// them, and then only its height has changed.
proof fn lemma_advance_by(e: Entity, timestep: u32, bounds: WindowBounds, ticks: nat)
    ensures
        advance_by(e, timestep, bounds, ticks) is Some <==> !crosses(
            e.components,
            timestep,
            bounds,
            ticks,
        ),
        advance_by(e, timestep, bounds, ticks) is Some ==> {
            let after = advance_by(e, timestep, bounds, ticks).unwrap();
            &&& after.id == e.id
            &&& after.components.laser == e.components.laser
            &&& !e.components.matches(&Filter::projectiles()) ==> after == e
            &&& e.components.matches(&Filter::projectiles()) ==> after.components.flies_at(
                clamp(
                    height_after(
                        e.components.transform.unwrap().y as int,
                        e.components.speed.unwrap().travel(timestep),
                        ticks,
                    ),
                ),
                e.components.speed.unwrap(),
            )
        },
    decreases ticks,
{
    if ticks > 0 {
        let m = (ticks - 1) as nat;
        lemma_advance_by(e, timestep, bounds, m);
        if e.components.matches(&Filter::projectiles()) {
            let y0 = e.components.transform.unwrap().y as int;
            let step = e.components.speed.unwrap().travel(timestep);
            let top = bounds.height as int;
            if advance_by(e, timestep, bounds, m) is Some {
                assert forall|j: nat| 1 <= j <= m implies #[trigger] height_after(y0, step, j)
                    <= top by {}
                lemma_rise_step(y0, step, m, top);
                if advance_by(e, timestep, bounds, ticks) is Some {
                    assert forall|j: nat| 1 <= j <= ticks implies #[trigger] height_after(
                        y0,
                        step,
                        j,
                    ) <= top by {
                        if j <= m {
                            assert(height_after(y0, step, j) <= top);
                        }
                    }
                } else {
                    assert(height_after(y0, step, ticks) > top);
                }
            } else {
                let j = choose|j: nat| 1 <= j <= m && #[trigger] height_after(y0, step, j) > top;
                assert(1 <= j <= ticks && height_after(y0, step, j) > top);
            }
        }
    } else {
        lemma_height_at_start(
            e.components.transform.unwrap().y as int,
            e.components.speed.unwrap().travel(timestep),
        );
    }
}

/// The projectile system, run `ticks` times, makes of every entity what the
/// ticks make of that entity by itself.
proof fn lemma_laser_ticks_pointwise(s: StoreView, timestep: u32, bounds: WindowBounds, ticks: nat)
    ensures
        after_laser_ticks(s, timestep, bounds, ticks).entities == s.entities.filter_map(
            |e: Entity| advance_by(e, timestep, bounds, ticks),
        ),
        after_laser_ticks(s, timestep, bounds, ticks).next_id == s.next_id,
    decreases ticks,
{
    let all = |e: Entity| advance_by(e, timestep, bounds, ticks);
    if ticks == 0 {
        assert(s.entities.filter_map(all) =~= s.entities) by {
            lemma_filter_map_identity(s.entities, all);
        }
    } else {
        let m = (ticks - 1) as nat;
        let most = |e: Entity| advance_by(e, timestep, bounds, m);
        let one = |e: Entity| advance(e, timestep, bounds);
        lemma_laser_ticks_pointwise(s, timestep, bounds, m);
        lemma_filter_map_twice(s.entities, most, one, all);
    }
}

/// A function that keeps every entity as it is keeps the sequence.
proof fn lemma_filter_map_identity(s: Seq<Entity>, f: spec_fn(Entity) -> Option<Entity>)
    requires
        forall|e: Entity| #[trigger] f(e) == Some(e),
    ensures
        s.filter_map(f) == s,
    decreases s.len(),
{
    if s.len() > 0 {
        lemma_filter_map_identity(s.drop_last(), f);
        assert(s.drop_last().push(s.last()) =~= s);
    }
    assert(s.filter_map(f) =~= s);
}

/// Projectiles do not affect one another: after `ticks` runs of the
/// projectile system, the lasers alive are as many as there were, less those
/// that have crossed the top of the window, each one's crossing judged by its
/// own height and speed alone.
pub proof fn law_laser_count(s: StoreView, timestep: u32, bounds: WindowBounds, ticks: nat)
    ensures
        after_laser_ticks(s, timestep, bounds, ticks).count(Filter::lasers()) == s.count(
            Filter::lasers(),
        ) - crossed(s, timestep, bounds, ticks),
{
    let all = |e: Entity| advance_by(e, timestep, bounds, ticks);
    let is_laser = |e: Entity| e.components.matches(&Filter::lasers());
    let kept = |e: Entity| all(e) is Some;
    lemma_laser_ticks_pointwise(s, timestep, bounds, ticks);
    assert forall|e: Entity| (#[trigger] all(e)) is Some implies is_laser(all(e).unwrap())
        == is_laser(e) by {
        lemma_advance_by(e, timestep, bounds, ticks);
    }
    lemma_filter_map_count(s.entities, all, is_laser);
    lemma_filter_split(s.entities, is_laser, kept);
    assert forall|i: int| 0 <= i < s.entities.len() implies (is_laser(#[trigger] s.entities[i])
        && !kept(s.entities[i])) == (s.entities[i].components.laser && crosses(
        s.entities[i].components,
        timestep,
        bounds,
        ticks,
    )) by {
        lemma_advance_by(s.entities[i], timestep, bounds, ticks);
    }
    lemma_filter_agree(
        s.entities,
        |e: Entity| is_laser(e) && !kept(e),
        |e: Entity| e.components.laser && crosses(e.components, timestep, bounds, ticks),
    );
    lemma_filter_agree(
        s.entities,
        |e: Entity| is_laser(e) && kept(e),
        |e: Entity| is_laser(e) && all(e) is Some,
    );
}

/// The components that the entities of `s` carry, without their order and
/// without their identifiers.
pub open spec fn bundles(s: StoreView) -> Multiset<Components> {
    s.entities.map_values(|e: Entity| e.components).to_multiset()
}

/// How many entities carry components of a given kind depends on the
/// components alone, not on the order of the entities.
proof fn lemma_count_by_bundles(s: StoreView, kind: spec_fn(Components) -> bool)
    ensures
        s.entities.filter(|e: Entity| kind(e.components)).len() == bundles(s).filter(kind).len(),
    decreases s.entities.len(),
{
    broadcast use vstd::multiset::group_multiset_axioms;
    broadcast use vstd::seq_lib::group_to_multiset_ensures;

    let of_entity = |e: Entity| kind(e.components);
    let components = |e: Entity| e.components;
    if s.entities.len() == 0 {
        reveal(Seq::filter);
        assert(s.entities.map_values(components) =~= Seq::<Components>::empty());
        assert(bundles(s).filter(kind) =~= Multiset::<Components>::empty());
    } else {
        let rest = StoreView { entities: s.entities.drop_last(), next_id: s.next_id };
        let last = s.entities.last();
        lemma_count_by_bundles(rest, kind);
        assert(rest.entities.push(last) =~= s.entities);
        rest.entities.lemma_filter_len_push(of_entity, last);
        assert(s.entities.map_values(components) =~= rest.entities.map_values(components).push(
            last.components,
        ));
        assert(bundles(s) =~= bundles(rest).insert(last.components));
        if kind(last.components) {
            assert(bundles(s).filter(kind) =~= bundles(rest).filter(kind).insert(last.components));
        } else {
            assert(bundles(s).filter(kind) =~= bundles(rest).filter(kind));
        }
    }
}

/// The order in which projectiles were spawned does not matter: two stores
/// whose entities carry the same components, in whatever order, hold equally
/// many lasers after the same number of runs of the projectile system.
pub proof fn law_laser_count_ignores_order(
    a: StoreView,
    b: StoreView,
    timestep: u32,
    bounds: WindowBounds,
    ticks: nat,
)
    requires
        bundles(a) == bundles(b),
    ensures
        after_laser_ticks(a, timestep, bounds, ticks).count(Filter::lasers()) == after_laser_ticks(
            b,
            timestep,
            bounds,
            ticks,
        ).count(Filter::lasers()),
{
    let is_laser = |c: Components| c.matches(&Filter::lasers());
    let has_crossed = |c: Components| c.laser && crosses(c, timestep, bounds, ticks);
    law_laser_count(a, timestep, bounds, ticks);
    law_laser_count(b, timestep, bounds, ticks);
    lemma_count_by_bundles(a, is_laser);
    lemma_count_by_bundles(b, is_laser);
    lemma_count_by_bundles(a, has_crossed);
    lemma_count_by_bundles(b, has_crossed);
    lemma_filter_agree(
        a.entities,
        |e: Entity| is_laser(e.components),
        |e: Entity| e.components.matches(&Filter::lasers()),
    );
    lemma_filter_agree(
        b.entities,
        |e: Entity| is_laser(e.components),
        |e: Entity| e.components.matches(&Filter::lasers()),
    );
    lemma_filter_agree(
        a.entities,
        |e: Entity| has_crossed(e.components),
        |e: Entity| e.components.laser && crosses(e.components, timestep, bounds, ticks),
    );
    lemma_filter_agree(
        b.entities,
        |e: Entity| has_crossed(e.components),
        |e: Entity| e.components.laser && crosses(e.components, timestep, bounds, ticks),
    );
}

/// Spawning adds the components that were spawned to those that the store
/// carries.
proof fn lemma_bundles_of_spawn_all(s: StoreView, components: Seq<Components>)
    ensures
        bundles(s.spawn_all(components)) == bundles(s).add(components.to_multiset()),
    decreases components.len(),
{
    broadcast use vstd::multiset::group_multiset_axioms;
    broadcast use vstd::seq_lib::group_to_multiset_ensures;

    let of = |e: Entity| e.components;
    if components.len() == 0 {
        assert(components.to_multiset() =~= Multiset::<Components>::empty());
        assert(bundles(s).add(components.to_multiset()) =~= bundles(s));
    } else {
        let rest = components.drop_last();
        let last = components.last();
        let before = s.spawn_all(rest);
        lemma_bundles_of_spawn_all(s, rest);
        assert(rest.push(last) =~= components);
        assert(components.to_multiset() =~= rest.to_multiset().insert(last));
        assert(before.spawn(last).entities.map_values(of) =~= before.entities.map_values(of).push(
            last,
        ));
        assert(bundles(before.spawn(last)) =~= bundles(before).insert(last));
        assert(bundles(s.spawn_all(components)) =~= bundles(s).add(components.to_multiset()));
    }
}

/// Spawn the same projectiles in any order, run the projectile system any
/// number of times: the number of lasers left is the same.
pub proof fn law_spawn_order_does_not_matter(
    s: StoreView,
    one_order: Seq<Components>,
    other_order: Seq<Components>,
    timestep: u32,
    bounds: WindowBounds,
    ticks: nat,
)
    requires
        one_order.to_multiset() == other_order.to_multiset(),
    ensures
        after_laser_ticks(s.spawn_all(one_order), timestep, bounds, ticks).count(Filter::lasers())
            == after_laser_ticks(s.spawn_all(other_order), timestep, bounds, ticks).count(
            Filter::lasers(),
        ),
{
    lemma_bundles_of_spawn_all(s, one_order);
    lemma_bundles_of_spawn_all(s, other_order);
    law_laser_count_ignores_order(
        s.spawn_all(one_order),
        s.spawn_all(other_order),
        timestep,
        bounds,
        ticks,
    );
}

} // verus!
