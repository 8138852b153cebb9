use rust_invaders::components::{
    Components, Entity, EntityId, Filter, MaterialHandle, Speed, Transform,
};
use rust_invaders::resources::{
    InputSnapshot, Key, KeyState, Materials, WindowBounds, LASER_SPRITE, PLAYER_SPRITE,
};
use rust_invaders::store::EntityStore;
use rust_invaders::systems::{laser_movement, player_fire, player_movement, player_spawn};

fn materials() -> Materials {
    Materials::new(MaterialHandle(1), MaterialHandle(2))
}

fn window() -> WindowBounds {
    // 1280 by 720 world units
    WindowBounds::new(76800, 43200)
}

fn laser(y: i64, speed: i32) -> Components {
    Components {
        transform: Some(Transform::new(7, y, 0)),
        speed: Some(Speed(speed)),
        material: Some(MaterialHandle(2)),
        ready_to_fire: None,
        player: false,
        laser: true,
    }
}

fn player_x(store: &EntityStore, id: EntityId) -> i64 {
    store.get(id).unwrap().transform.unwrap().x
}

fn armed(store: &EntityStore, id: EntityId) -> bool {
    store.get(id).unwrap().ready_to_fire.unwrap()
}

#[test]
fn sprite_names() {
    assert_eq!(PLAYER_SPRITE, "player-sprite");
    assert_eq!(LASER_SPRITE, "laser-sprite");
}

#[test]
fn input_snapshot_answers_for_each_key() {
    let idle = InputSnapshot::new();
    for key in [Key::Left, Key::Right, Key::Fire] {
        assert!(!idle.is_held(key));
        assert!(!idle.just_released(key));
    }
    assert_eq!(idle.fire, KeyState::idle());
    let input = idle.with_held(Key::Right).with_released(Key::Fire);
    assert!(input.is_held(Key::Right));
    assert!(!input.just_released(Key::Right));
    assert!(!input.is_held(Key::Fire));
    assert!(input.just_released(Key::Fire));
    assert!(!input.is_held(Key::Left));
    assert!(!input.just_released(Key::Left));
    assert_eq!(input.right, KeyState { held: true, just_released: false });
}

#[test]
fn direction_prefers_left() {
    let idle = InputSnapshot::new();
    assert_eq!(idle.direction(), 0);
    assert_eq!(idle.with_held(Key::Left).direction(), -1);
    assert_eq!(idle.with_held(Key::Right).direction(), 1);
    assert_eq!(idle.with_held(Key::Right).with_held(Key::Left).direction(), -1);
    assert_eq!(idle.with_held(Key::Fire).direction(), 0);
}

#[test]
fn player_spawns_armed_above_the_bottom_edge() {
    let mut store = EntityStore::new();
    let id = player_spawn(&mut store, &materials(), &window());
    assert_eq!(id, EntityId(0));
    assert_eq!(store.len(), 1);
    assert_eq!(store.count(&Filter::players()), 1);
    // -720 / 2 + 18.75 + 5 = -336.25 world units
    assert_eq!(
        store.get(id),
        Some(Components {
            transform: Some(Transform { x: 0, y: -20175, z: 600 }),
            speed: Some(Speed(500)),
            material: Some(MaterialHandle(1)),
            ready_to_fire: Some(true),
            player: true,
            laser: false,
        })
    );
}

#[test]
fn player_spawn_in_a_window_of_odd_height_rounds_half_down() {
    let mut store = EntityStore::new();
    let id = player_spawn(&mut store, &materials(), &WindowBounds::new(1, 7));
    assert_eq!(store.get(id).unwrap().transform.unwrap().y, -3 + 1425);
}

#[test]
fn player_spawn_in_the_largest_window() {
    let mut store = EntityStore::new();
    let id = player_spawn(&mut store, &materials(), &WindowBounds::new(u32::MAX, u32::MAX));
    assert_eq!(store.get(id).unwrap().transform.unwrap().y, -2147483647 + 1425);
}

#[test]
fn systems_leave_a_store_without_player_alone() {
    let mut store = EntityStore::new();
    store.spawn(laser(0, 500));
    store.spawn(Components::new());
    let before = store.clone();
    let input = InputSnapshot::new()
        .with_held(Key::Left)
        .with_held(Key::Fire)
        .with_released(Key::Fire);
    player_movement(&mut store, &input, 1);
    assert_eq!(store, before);
    player_fire(&mut store, &input, &materials());
    assert_eq!(store, before);

    let mut empty = EntityStore::new();
    player_movement(&mut empty, &input, 1);
    player_fire(&mut empty, &input, &materials());
    assert!(empty.is_empty());
}

#[test]
fn left_key_moves_the_player_left_by_speed_times_timestep() {
    let mut store = EntityStore::new();
    let id = player_spawn(&mut store, &materials(), &window());
    player_movement(&mut store, &InputSnapshot::new().with_held(Key::Left), 1);
    assert_eq!(player_x(&store, id), -500);
    player_movement(&mut store, &InputSnapshot::new().with_held(Key::Left), 3);
    assert_eq!(player_x(&store, id), -2000);
}

#[test]
fn right_key_moves_the_player_right_by_speed_times_timestep() {
    let mut store = EntityStore::new();
    let id = player_spawn(&mut store, &materials(), &window());
    player_movement(&mut store, &InputSnapshot::new().with_held(Key::Right), 1);
    assert_eq!(player_x(&store, id), 500);
}

#[test]
fn both_keys_move_the_player_left() {
    let mut store = EntityStore::new();
    let id = player_spawn(&mut store, &materials(), &window());
    let both = InputSnapshot::new().with_held(Key::Left).with_held(Key::Right);
    player_movement(&mut store, &both, 1);
    assert_eq!(player_x(&store, id), -500);
}

#[test]
fn no_key_leaves_the_player_where_it_is() {
    let mut store = EntityStore::new();
    let id = player_spawn(&mut store, &materials(), &window());
    let before = store.clone();
    player_movement(&mut store, &InputSnapshot::new(), 1);
    assert_eq!(store, before);
    assert_eq!(player_x(&store, id), 0);
}

#[test]
fn movement_changes_x_only_and_no_other_entity() {
    let mut store = EntityStore::new();
    let l = store.spawn(laser(10, 500));
    let id = player_spawn(&mut store, &materials(), &window());
    let before = store.get(id).unwrap();
    player_movement(&mut store, &InputSnapshot::new().with_held(Key::Right), 2);
    let after = store.get(id).unwrap();
    assert_eq!(
        after,
        Components { transform: Some(Transform { x: 1000, y: -20175, z: 600 }), ..before }
    );
    assert_eq!(store.get(l), Some(laser(10, 500)));
    assert_eq!(store.len(), 2);
}

#[test]
fn player_is_not_kept_inside_the_window() {
    let mut store = EntityStore::new();
    let id = player_spawn(&mut store, &materials(), &WindowBounds::new(600, 600));
    let right = InputSnapshot::new().with_held(Key::Right);
    player_movement(&mut store, &right, 1);
    player_movement(&mut store, &right, 1);
    assert_eq!(player_x(&store, id), 1000);
}

#[test]
fn movement_stops_at_the_end_of_the_coordinate_range() {
    let mut store = EntityStore::new();
    let id = store.spawn(Components {
        transform: Some(Transform::new(i64::MIN + 100, 0, 0)),
        speed: Some(Speed(500)),
        player: true,
        ..Components::new()
    });
    player_movement(&mut store, &InputSnapshot::new().with_held(Key::Left), 1);
    assert_eq!(player_x(&store, id), i64::MIN);
}

#[test]
fn movement_with_two_players_does_nothing() {
    let mut store = EntityStore::new();
    player_spawn(&mut store, &materials(), &window());
    player_spawn(&mut store, &materials(), &window());
    let before = store.clone();
    let input = InputSnapshot::new().with_held(Key::Left).with_held(Key::Fire);
    player_movement(&mut store, &input, 1);
    player_fire(&mut store, &input, &materials());
    assert_eq!(store, before);
}

#[test]
fn press_fires_one_laser_above_the_player() {
    let mut store = EntityStore::new();
    let id = player_spawn(&mut store, &materials(), &window());
    player_movement(&mut store, &InputSnapshot::new().with_held(Key::Right), 1);
    player_fire(&mut store, &InputSnapshot::new().with_held(Key::Fire), &materials());
    assert_eq!(store.len(), 2);
    assert_eq!(store.count(&Filter::lasers()), 1);
    assert_eq!(
        store.entities()[1],
        Entity {
            id: EntityId(1),
            components: Components {
                transform: Some(Transform { x: 500, y: -20175 + 900, z: 0 }),
                speed: Some(Speed(500)),
                material: Some(MaterialHandle(2)),
                ready_to_fire: None,
                player: false,
                laser: true,
            },
        }
    );
    assert!(!armed(&store, id));
}

#[test]
fn held_key_fires_once_and_release_arms_again() {
    let mut store = EntityStore::new();
    let id = player_spawn(&mut store, &materials(), &window());
    let held = InputSnapshot::new().with_held(Key::Fire);
    player_fire(&mut store, &held, &materials());
    assert_eq!(store.count(&Filter::lasers()), 1);
    let after_press = store.clone();

    player_fire(&mut store, &held, &materials());
    assert_eq!(store, after_press);
    player_fire(&mut store, &held, &materials());
    assert_eq!(store, after_press);

    player_fire(&mut store, &InputSnapshot::new().with_released(Key::Fire), &materials());
    assert_eq!(store.len(), after_press.len());
    assert_eq!(store.count(&Filter::lasers()), 1);
    assert!(armed(&store, id));
    assert_eq!(store.entities()[1], after_press.entities()[1]);

    player_fire(&mut store, &held, &materials());
    assert_eq!(store.count(&Filter::lasers()), 2);
    assert!(!armed(&store, id));
}

#[test]
fn release_while_armed_changes_nothing() {
    let mut store = EntityStore::new();
    player_spawn(&mut store, &materials(), &window());
    let before = store.clone();
    player_fire(&mut store, &InputSnapshot::new().with_released(Key::Fire), &materials());
    assert_eq!(store, before);
}

#[test]
fn idle_fire_key_leaves_the_weapon_disarmed() {
    let mut store = EntityStore::new();
    let id = player_spawn(&mut store, &materials(), &window());
    player_fire(&mut store, &InputSnapshot::new().with_held(Key::Fire), &materials());
    player_fire(&mut store, &InputSnapshot::new(), &materials());
    assert!(!armed(&store, id));
    assert_eq!(store.len(), 2);
}

#[test]
fn press_and_release_in_one_tick_fires_and_stays_armed() {
    let mut store = EntityStore::new();
    let id = player_spawn(&mut store, &materials(), &window());
    let input = InputSnapshot::new().with_held(Key::Fire).with_released(Key::Fire);
    player_fire(&mut store, &input, &materials());
    assert_eq!(store.count(&Filter::lasers()), 1);
    assert!(armed(&store, id));
}

#[test]
fn laser_spawn_height_stops_at_the_end_of_the_coordinate_range() {
    let mut store = EntityStore::new();
    store.spawn(Components {
        transform: Some(Transform::new(3, i64::MAX - 10, 0)),
        ready_to_fire: Some(true),
        player: true,
        ..Components::new()
    });
    player_fire(&mut store, &InputSnapshot::new().with_held(Key::Fire), &materials());
    assert_eq!(
        store.entities()[1].components.transform,
        Some(Transform { x: 3, y: i64::MAX, z: 0 })
    );
}

#[test]
fn laser_rises_by_speed_times_timestep() {
    let mut store = EntityStore::new();
    let id = store.spawn(laser(100, 500));
    laser_movement(&mut store, 1, &window());
    assert_eq!(store.get(id), Some(laser(600, 500)));
    laser_movement(&mut store, 2, &window());
    assert_eq!(store.get(id), Some(laser(1600, 500)));
}

#[test]
fn laser_is_removed_in_the_first_tick_above_the_window() {
    // 0 + k * 500 > 1200 first for k = 3
    let bounds = WindowBounds::new(1200, 1200);
    let mut store = EntityStore::new();
    let id = store.spawn(laser(0, 500));
    laser_movement(&mut store, 1, &bounds);
    assert_eq!(store.get(id), Some(laser(500, 500)));
    laser_movement(&mut store, 1, &bounds);
    assert_eq!(store.get(id), Some(laser(1000, 500)));
    laser_movement(&mut store, 1, &bounds);
    assert_eq!(store.get(id), None);
    assert!(store.is_empty());
}

#[test]
fn laser_exactly_at_the_top_stays() {
    let bounds = WindowBounds::new(1000, 1000);
    let mut store = EntityStore::new();
    let id = store.spawn(laser(0, 500));
    laser_movement(&mut store, 2, &bounds);
    assert_eq!(store.get(id), Some(laser(1000, 500)));
    laser_movement(&mut store, 1, &bounds);
    assert_eq!(store.get(id), None);
}

#[test]
fn laser_below_the_window_is_not_removed() {
    let bounds = WindowBounds::new(1000, 1000);
    let mut store = EntityStore::new();
    let id = store.spawn(laser(-5000, -10));
    laser_movement(&mut store, 1, &bounds);
    assert_eq!(store.get(id), Some(laser(-5010, -10)));
}

#[test]
fn falling_laser_stops_at_the_end_of_the_coordinate_range() {
    let bounds = WindowBounds::new(1000, 1000);
    let mut store = EntityStore::new();
    let id = store.spawn(laser(i64::MIN + 5, -10));
    laser_movement(&mut store, 1, &bounds);
    assert_eq!(store.get(id), Some(laser(i64::MIN, -10)));
}

#[test]
fn laser_near_the_top_of_the_coordinate_range_is_removed() {
    let bounds = WindowBounds::new(u32::MAX, u32::MAX);
    let mut store = EntityStore::new();
    store.spawn(laser(i64::MAX - 1, 500));
    laser_movement(&mut store, 1, &bounds);
    assert!(store.is_empty());
}

#[test]
fn laser_movement_touches_only_moving_lasers() {
    let mut store = EntityStore::new();
    let p = player_spawn(&mut store, &materials(), &window());
    let tagged = store.spawn(Components { laser: true, ..Components::new() });
    let still = store.spawn(Components {
        transform: Some(Transform::new(0, 99_999_999, 0)),
        laser: true,
        ..Components::new()
    });
    let l = store.spawn(laser(0, 500));
    let player_before = store.get(p);
    laser_movement(&mut store, 1, &window());
    assert_eq!(store.get(p), player_before);
    assert_eq!(store.get(tagged), Some(Components { laser: true, ..Components::new() }));
    assert!(store.contains(still));
    assert_eq!(store.get(l), Some(laser(500, 500)));
    assert_eq!(store.len(), 4);
}

#[test]
fn lasers_are_removed_one_by_one_whatever_their_order() {
    let bounds = WindowBounds::new(2000, 2000);
    let heights = [1900i64, 0, 1400, 900, 1600];
    let mut forward = EntityStore::new();
    for y in heights {
        forward.spawn(laser(y, 500));
    }
    let mut backward = EntityStore::new();
    for y in heights.iter().rev() {
        backward.spawn(laser(*y, 500));
    }
    // after 1 tick 1900 and 1600 are gone, after 2 ticks 1400 too,
    // after 3 ticks 900 too, after 5 ticks all
    let expected = [5usize, 3, 2, 1, 1, 0];
    for ticks in 0..6 {
        assert_eq!(forward.count(&Filter::lasers()), expected[ticks]);
        assert_eq!(backward.count(&Filter::lasers()), expected[ticks]);
        laser_movement(&mut forward, 1, &bounds);
        laser_movement(&mut backward, 1, &bounds);
    }
    assert!(forward.is_empty());
    assert!(backward.is_empty());
}

#[test]
fn removing_a_laser_does_not_disturb_the_others() {
    let bounds = WindowBounds::new(1000, 1000);
    let mut store = EntityStore::new();
    let a = store.spawn(laser(0, 500));
    let b = store.spawn(laser(900, 500));
    let c = store.spawn(laser(100, 500));
    let d = store.spawn(laser(990, 500));
    laser_movement(&mut store, 1, &bounds);
    assert_eq!(
        store.entities(),
        &vec![
            Entity { id: a, components: laser(500, 500) },
            Entity { id: c, components: laser(600, 500) },
        ]
    );
    assert!(!store.contains(b));
    assert!(!store.contains(d));
    assert!(store.is_well_formed());
}
