use rust_invaders::components::{Components, EntityId, Filter, MaterialHandle, Speed, Transform};
use rust_invaders::resources::{InputSnapshot, Key, Materials, WindowBounds};
use rust_invaders::scheduler::Scheduler;
use rust_invaders::store::EntityStore;
use rust_invaders::systems::{laser_movement, player_fire, player_movement};
use rust_invaders::units::DEFAULT_TIMESTEP;

fn scheduler() -> Scheduler {
    Scheduler::new(
        DEFAULT_TIMESTEP,
        WindowBounds::new(76800, 43200),
        Materials::new(MaterialHandle(1), MaterialHandle(2)),
    )
}

#[test]
fn scheduler_keeps_its_configuration() {
    let s = scheduler();
    assert_eq!(s.timestep, 1);
    assert_eq!(s.bounds, WindowBounds { width: 76800, height: 43200 });
    assert_eq!(
        s.materials,
        Materials { player_materials: MaterialHandle(1), laser: MaterialHandle(2) }
    );
}

#[test]
fn startup_spawns_exactly_one_armed_player() {
    let mut store = EntityStore::new();
    let id = scheduler().startup(&mut store);
    assert_eq!(store.count(&Filter::players()), 1);
    assert_eq!(store.single(&Filter::players()), Some(id));
    assert_eq!(store.get(id).unwrap().ready_to_fire, Some(true));
    assert_eq!(
        store.get(id).unwrap().transform,
        Some(Transform { x: 0, y: -20175, z: 600 })
    );
}

#[test]
fn tick_before_startup_changes_nothing() {
    let mut store = EntityStore::new();
    let input = InputSnapshot::new().with_held(Key::Left).with_held(Key::Fire);
    scheduler().tick(&mut store, &input);
    scheduler().tick(&mut store, &input);
    assert!(store.is_empty());
    assert!(store.can_spawn());
}

#[test]
fn tick_runs_movement_then_fire_then_lasers() {
    let s = scheduler();
    let input = InputSnapshot::new().with_held(Key::Right).with_held(Key::Fire);

    let mut by_tick = EntityStore::new();
    s.startup(&mut by_tick);
    s.tick(&mut by_tick, &input);

    let mut by_hand = EntityStore::new();
    s.startup(&mut by_hand);
    player_movement(&mut by_hand, &input, s.timestep);
    player_fire(&mut by_hand, &input, &s.materials);
    laser_movement(&mut by_hand, s.timestep, &s.bounds);

    assert_eq!(by_tick, by_hand);
    // the laser leaves from where the player has moved to, and has risen once
    assert_eq!(
        by_tick.get(EntityId(1)).unwrap().transform,
        Some(Transform { x: 500, y: -20175 + 900 + 500, z: 0 })
    );
}

#[test]
fn one_press_release_cycle_gives_one_laser() {
    let s = scheduler();
    let mut store = EntityStore::new();
    s.startup(&mut store);
    let held = InputSnapshot::new().with_held(Key::Fire);
    let released = InputSnapshot::new().with_released(Key::Fire);
    s.run(&mut store, &vec![held, held, held, released, InputSnapshot::new()]);
    assert_eq!(store.count(&Filter::lasers()), 1);
    s.run(&mut store, &vec![held, released, held, released]);
    assert_eq!(store.count(&Filter::lasers()), 3);
}

#[test]
fn run_is_tick_after_tick() {
    let s = scheduler();
    let inputs = vec![
        InputSnapshot::new().with_held(Key::Left),
        InputSnapshot::new().with_held(Key::Fire),
        InputSnapshot::new().with_held(Key::Fire).with_held(Key::Right),
        InputSnapshot::new().with_released(Key::Fire),
    ];
    let mut by_run = EntityStore::new();
    s.startup(&mut by_run);
    s.run(&mut by_run, &inputs);

    let mut by_tick = EntityStore::new();
    s.startup(&mut by_tick);
    for input in &inputs {
        s.tick(&mut by_tick, input);
    }
    assert_eq!(by_run, by_tick);
    assert_eq!(by_run.get(EntityId(0)).unwrap().transform.unwrap().x, 0);

    let mut untouched = by_run.clone();
    s.run(&mut untouched, &Vec::new());
    assert_eq!(untouched, by_run);
}

#[test]
fn fired_laser_lives_until_it_rises_above_the_window() {
    // window of 20 world units: the player spawns at -600 + 1425 = 825, the
    // laser at 1725 and 500 higher by the end of the tick in which it is
    // fired; 1200 is the top, so that same tick removes it
    let low = Scheduler::new(1, WindowBounds::new(1200, 1200), scheduler().materials);
    let mut store = EntityStore::new();
    low.startup(&mut store);
    low.tick(&mut store, &InputSnapshot::new().with_held(Key::Fire));
    assert_eq!(store.count(&Filter::lasers()), 0);
    assert_eq!(store.len(), 1);

    // window of 100 world units: player at -3000 + 1425 = -1575, laser at
    // -675, then -175, 325, ... up to 5825 <= 6000 after 14 ticks
    let high = Scheduler::new(1, WindowBounds::new(6000, 6000), scheduler().materials);
    let mut store = EntityStore::new();
    high.startup(&mut store);
    high.tick(&mut store, &InputSnapshot::new().with_held(Key::Fire));
    let laser = EntityId(1);
    assert_eq!(store.get(laser).unwrap().transform.unwrap().y, -175);
    for tick in 2..=13 {
        high.tick(&mut store, &InputSnapshot::new().with_held(Key::Left));
        assert_eq!(store.get(laser).unwrap().transform.unwrap().y, -675 + 500 * tick);
    }
    assert_eq!(store.get(laser).unwrap().transform.unwrap().y, 5825);
    high.tick(&mut store, &InputSnapshot::new().with_released(Key::Fire));
    assert_eq!(store.get(laser), None);
    // the next laser gets an identifier of its own
    high.tick(&mut store, &InputSnapshot::new().with_held(Key::Fire));
    assert_eq!(store.get(laser), None);
    assert!(store.contains(EntityId(2)));
    assert_eq!(store.len(), 2);
}

#[test]
fn timestep_scales_every_step() {
    let slow = Scheduler::new(2, WindowBounds::new(76800, 43200), scheduler().materials);
    let mut store = EntityStore::new();
    let id = slow.startup(&mut store);
    let l = store.spawn(Components {
        transform: Some(Transform::new(0, 0, 0)),
        speed: Some(Speed(30)),
        laser: true,
        ..Components::new()
    });
    slow.tick(&mut store, &InputSnapshot::new().with_held(Key::Right));
    assert_eq!(store.get(id).unwrap().transform.unwrap().x, 1000);
    assert_eq!(store.get(l).unwrap().transform.unwrap().y, 60);
}

#[test]
fn ticks_make_lasers_but_never_a_player() {
    let s = scheduler();
    let mut store = EntityStore::new();
    s.startup(&mut store);
    let held = InputSnapshot::new().with_held(Key::Fire).with_held(Key::Right);
    let released = InputSnapshot::new().with_released(Key::Fire);
    for round in 1..=4 {
        s.tick(&mut store, &held);
        s.tick(&mut store, &released);
        assert_eq!(store.count(&Filter::players()), 1);
        assert_eq!(store.count(&Filter::lasers()), round);
    }
    assert!(store.is_well_formed());
}

#[test]
fn a_player_that_is_a_projectile_leaves_at_the_top() {
    let s = Scheduler::new(1, WindowBounds::new(1000, 1000), scheduler().materials);
    let mut store = EntityStore::new();
    store.spawn(Components {
        transform: Some(Transform::new(0, 900, 0)),
        speed: Some(Speed(500)),
        player: true,
        laser: true,
        ..Components::new()
    });
    s.tick(&mut store, &InputSnapshot::new().with_held(Key::Left));
    assert_eq!(store.count(&Filter::players()), 0);
    assert!(store.is_empty());
}
