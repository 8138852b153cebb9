use rust_invaders::components::{
    Components, Entity, EntityId, Filter, MaterialHandle, Speed, Transform,
};
use rust_invaders::store::EntityStore;

fn laser_at(y: i64) -> Components {
    Components {
        transform: Some(Transform::new(0, y, 0)),
        speed: Some(Speed(500)),
        material: Some(MaterialHandle(2)),
        ready_to_fire: None,
        player: false,
        laser: true,
    }
}

fn player() -> Components {
    Components {
        transform: Some(Transform::new(0, 0, 600)),
        speed: Some(Speed(500)),
        material: Some(MaterialHandle(1)),
        ready_to_fire: Some(true),
        player: true,
        laser: false,
    }
}

#[test]
fn new_store_is_empty() {
    let store = EntityStore::new();
    assert_eq!(store.len(), 0);
    assert!(store.is_empty());
    assert!(store.is_well_formed());
    assert!(store.can_spawn());
    assert_eq!(store.entities().len(), 0);
}

#[test]
fn empty_components_match_only_the_open_filter() {
    let c = Components::new();
    assert_eq!(c.transform, None);
    assert_eq!(c.speed, None);
    assert_eq!(c.material, None);
    assert_eq!(c.ready_to_fire, None);
    assert!(!c.player);
    assert!(!c.laser);
    assert!(c.matches(&Filter::any()));
    assert!(!c.matches(&Filter::players()));
    assert!(!c.matches(&Filter::lasers()));
}

#[test]
fn spawn_gives_fresh_identifiers_in_order() {
    let mut store = EntityStore::new();
    let a = store.spawn(player());
    let b = store.spawn(laser_at(5));
    let c = store.spawn(laser_at(6));
    assert_eq!(a, EntityId(0));
    assert_eq!(b, EntityId(1));
    assert_eq!(c, EntityId(2));
    assert_eq!(store.len(), 3);
    assert!(!store.is_empty());
    assert_eq!(
        store.entities(),
        &vec![
            Entity { id: a, components: player() },
            Entity { id: b, components: laser_at(5) },
            Entity { id: c, components: laser_at(6) },
        ]
    );
    assert!(store.is_well_formed());
}

#[test]
fn each_spawn_uses_up_one_identifier() {
    let mut store = EntityStore::new();
    assert_eq!(store.ids_left(), u64::MAX);
    store.spawn(laser_at(1));
    let b = store.spawn(laser_at(2));
    assert_eq!(store.ids_left(), u64::MAX - 2);
    store.despawn(b);
    assert_eq!(store.ids_left(), u64::MAX - 2);
    assert!(store.can_spawn());
}

#[test]
fn get_finds_what_was_spawned() {
    let mut store = EntityStore::new();
    let a = store.spawn(player());
    let b = store.spawn(laser_at(5));
    assert_eq!(store.get(a), Some(player()));
    assert_eq!(store.get(b), Some(laser_at(5)));
    assert_eq!(store.get(EntityId(2)), None);
    assert!(store.contains(a));
    assert!(store.contains(b));
    assert!(!store.contains(EntityId(7)));
}

#[test]
fn set_replaces_the_components_of_one_entity() {
    let mut store = EntityStore::new();
    let a = store.spawn(laser_at(1));
    let b = store.spawn(laser_at(2));
    let c = store.spawn(laser_at(3));
    assert!(store.set(b, laser_at(20)));
    assert_eq!(store.get(a), Some(laser_at(1)));
    assert_eq!(store.get(b), Some(laser_at(20)));
    assert_eq!(store.get(c), Some(laser_at(3)));
    assert_eq!(store.len(), 3);
}

#[test]
fn set_on_a_missing_entity_changes_nothing() {
    let mut store = EntityStore::new();
    store.spawn(laser_at(1));
    let before = store.clone();
    assert!(!store.set(EntityId(9), laser_at(20)));
    assert_eq!(store, before);
}

#[test]
fn despawn_removes_one_entity_and_keeps_the_order() {
    let mut store = EntityStore::new();
    let a = store.spawn(laser_at(1));
    let b = store.spawn(laser_at(2));
    let c = store.spawn(laser_at(3));
    assert!(store.despawn(b));
    assert_eq!(store.len(), 2);
    assert_eq!(store.get(b), None);
    assert_eq!(
        store.entities(),
        &vec![
            Entity { id: a, components: laser_at(1) },
            Entity { id: c, components: laser_at(3) },
        ]
    );
    assert!(!store.despawn(b));
    assert_eq!(store.len(), 2);
    assert!(store.is_well_formed());
}

#[test]
fn despawned_identifier_is_not_given_out_again() {
    let mut store = EntityStore::new();
    let a = store.spawn(laser_at(1));
    let b = store.spawn(laser_at(2));
    assert!(store.despawn(b));
    assert!(store.despawn(a));
    assert!(store.is_empty());
    let c = store.spawn(laser_at(3));
    assert_eq!(c, EntityId(2));
}

#[test]
fn query_selects_each_matching_entity_once() {
    let mut store = EntityStore::new();
    let p = store.spawn(player());
    let a = store.spawn(laser_at(1));
    let tagged_only = store.spawn(Components { laser: true, ..Components::new() });
    let b = store.spawn(laser_at(2));
    assert_eq!(store.query(&Filter::projectiles()), vec![a, b]);
    assert_eq!(store.query(&Filter::lasers()), vec![a, tagged_only, b]);
    assert_eq!(store.query(&Filter::players()), vec![p]);
    assert_eq!(store.query(&Filter::any()), vec![p, a, tagged_only, b]);
    assert_eq!(store.count(&Filter::lasers()), 3);
    assert_eq!(store.count(&Filter::projectiles()), 2);
    assert_eq!(store.count(&Filter::shooter()), 1);
}

#[test]
fn filters_name_the_components_they_ask_for() {
    let any = Filter::any();
    assert_eq!(
        any,
        Filter {
            transform: false,
            speed: false,
            material: false,
            ready_to_fire: false,
            player: false,
            laser: false,
        }
    );
    assert_eq!(Filter::steered(), Filter { player: true, speed: true, transform: true, ..any });
    assert_eq!(
        Filter::shooter(),
        Filter { player: true, transform: true, ready_to_fire: true, ..any }
    );
    assert_eq!(Filter::projectiles(), Filter { laser: true, speed: true, transform: true, ..any });
    assert_eq!(Filter::players(), Filter { player: true, ..any });
    assert_eq!(Filter::lasers(), Filter { laser: true, ..any });
    let material_only = Filter { material: true, ..any };
    assert!(player().matches(&material_only));
    assert!(!Components::new().matches(&material_only));
}

#[test]
fn single_needs_exactly_one_match() {
    let mut store = EntityStore::new();
    assert_eq!(store.single(&Filter::players()), None);
    let p = store.spawn(player());
    assert_eq!(store.single(&Filter::players()), Some(p));
    assert_eq!(store.single(&Filter::steered()), Some(p));
    assert_eq!(store.single(&Filter::shooter()), Some(p));
    store.spawn(player());
    assert_eq!(store.single(&Filter::players()), None);
    assert_eq!(store.count(&Filter::players()), 2);
}

#[test]
fn single_skips_a_player_without_the_components_asked_for() {
    let mut store = EntityStore::new();
    store.spawn(Components { player: true, ..Components::new() });
    assert_eq!(store.single(&Filter::steered()), None);
    assert_eq!(store.single(&Filter::shooter()), None);
    assert_eq!(store.single(&Filter::players()), Some(EntityId(0)));
}
