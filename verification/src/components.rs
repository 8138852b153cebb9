//! The components an entity can carry, and the filters that select entities
//! by the components they have.

use vstd::prelude::*;
use crate::units::DEFAULT_SPEED;

verus! {

/// Identifier of one entity. A store never hands out the same identifier
/// twice.
#[derive(Clone, Copy, Debug, PartialEq, Eq, Hash)]
pub struct EntityId(pub u64);

/// Position of an entity, in subunits. `z` orders drawing and takes no part
/// in the simulation.
#[derive(Clone, Copy, Debug, PartialEq, Eq)]
pub struct Transform {
    pub x: i64,
    pub y: i64,
    pub z: i64,
}

/// Speed of an entity, in world units per second.
#[derive(Clone, Copy, Debug, PartialEq, Eq)]
pub struct Speed(pub i32);

/// Handle by which the renderer finds the image of an entity. The simulation
/// only passes it on.
#[derive(Clone, Copy, Debug, PartialEq, Eq)]
pub struct MaterialHandle(pub u32);

/// The component slots of one entity. An empty slot means that the entity
/// does not have that component.
#[derive(Clone, Copy, Debug, PartialEq, Eq)]
pub struct Components {
    pub transform: Option<Transform>,
    pub speed: Option<Speed>,
    pub material: Option<MaterialHandle>,
    /// Whether the player's weapon is armed: `true` while a shot may be fired.
    pub ready_to_fire: Option<bool>,
    /// Marks the entity that the keys control.
    pub player: bool,
    /// Marks a projectile.
    pub laser: bool,
}

/// An entity as a store holds it.
#[derive(Clone, Copy, Debug, PartialEq, Eq)]
pub struct Entity {
    pub id: EntityId,
    pub components: Components,
}

/// Selects entities: each field set to `true` names a component that an
/// entity must have to be selected.
#[derive(Clone, Copy, Debug, PartialEq, Eq)]
pub struct Filter {
    pub transform: bool,
    pub speed: bool,
    pub material: bool,
    pub ready_to_fire: bool,
    pub player: bool,
    pub laser: bool,
}

impl Transform {
    /// The position `(x, y)` at the depth `z`.
    pub fn new(x: i64, y: i64, z: i64) -> (t: Transform)
        ensures
            t == (Transform { x, y, z }),
    {
        Transform { x, y, z }
    }
}

impl Speed {
    /// The distance covered in `timestep` sixtieths of a second, in subunits.
    pub open spec fn travel(self, timestep: u32) -> int {
        self.0 * timestep
    }

    /// Computes [`Speed::travel`]. The product of a speed and a time step
    /// always fits a coordinate, and so does its negative.
    pub fn distance(&self, timestep: u32) -> (d: i64)
        ensures
            d == self.travel(timestep),
            -i64::MAX <= d <= i64::MAX,
    {
        let s: i64 = self.0 as i64;
        let t: i64 = timestep as i64;
        assert(-0x8000_0000 * 0xffff_ffff <= s * t <= 0x7fff_ffff * 0xffff_ffff) by (
            nonlinear_arith)
            requires
                -0x8000_0000 <= s <= 0x7fff_ffff,
                0 <= t <= 0xffff_ffff,
        ;
        s * t
    }
}

impl Default for Speed {
    fn default() -> (s: Speed)
        ensures
            s == Speed(DEFAULT_SPEED),
    {
        Speed(DEFAULT_SPEED)
    }
}

impl Components {
    /// The components of an entity that has none.
    pub fn new() -> (c: Components)
        ensures
            c == (Components {
                transform: None,
                speed: None,
                material: None,
                ready_to_fire: None,
                player: false,
                laser: false,
            }),
    {
        Components {
            transform: None,
            speed: None,
            material: None,
            ready_to_fire: None,
            player: false,
            laser: false,
        }
    }

    /// Whether the entity has every component that `filter` names.
    pub open spec fn spec_matches(&self, filter: &Filter) -> bool {
        &&& filter.transform ==> self.transform is Some
        &&& filter.speed ==> self.speed is Some
        &&& filter.material ==> self.material is Some
        &&& filter.ready_to_fire ==> self.ready_to_fire is Some
        &&& filter.player ==> self.player
        &&& filter.laser ==> self.laser
    }

    /// Whether this is a moving projectile at the height `y` with the speed
    /// `v`.
    pub open spec fn flies_at(self, y: int, v: Speed) -> bool {
        &&& self.matches(&Filter::projectiles())
        &&& self.transform.unwrap().y == y
        &&& self.speed.unwrap() == v
    }

    /// Computes whether the entity has every component that `filter` names.
    #[verifier::when_used_as_spec(spec_matches)]
    pub fn matches(&self, filter: &Filter) -> (b: bool)
        ensures
            b == self.matches(filter),
    {
        (!filter.transform || self.transform.is_some())
            && (!filter.speed || self.speed.is_some())
            && (!filter.material || self.material.is_some())
            && (!filter.ready_to_fire || self.ready_to_fire.is_some())
            && (!filter.player || self.player)
            && (!filter.laser || self.laser)
    }
}

impl Filter {
    /// The filter that [`Filter::any`] returns.
    pub open spec fn spec_any() -> Filter {
        Filter {
            transform: false,
            speed: false,
            material: false,
            ready_to_fire: false,
            player: false,
            laser: false,
        }
    }

    /// The filter that [`Filter::steered`] returns.
    pub open spec fn spec_steered() -> Filter {
        Filter { player: true, speed: true, transform: true, ..Filter::spec_any() }
    }

    /// The filter that [`Filter::shooter`] returns.
    pub open spec fn spec_shooter() -> Filter {
        Filter { player: true, transform: true, ready_to_fire: true, ..Filter::spec_any() }
    }

    /// The filter that [`Filter::projectiles`] returns.
    pub open spec fn spec_projectiles() -> Filter {
        Filter { laser: true, speed: true, transform: true, ..Filter::spec_any() }
    }

    /// The filter that [`Filter::players`] returns.
    pub open spec fn spec_players() -> Filter {
        Filter { player: true, ..Filter::spec_any() }
    }

    /// The filter that [`Filter::lasers`] returns.
    pub open spec fn spec_lasers() -> Filter {
        Filter { laser: true, ..Filter::spec_any() }
    }

    /// Selects every entity.
    #[verifier::when_used_as_spec(spec_any)]
    pub fn any() -> (f: Filter)
        ensures
            f == Filter::any(),
    {
        Filter {
            transform: false,
            speed: false,
            material: false,
            ready_to_fire: false,
            player: false,
            laser: false,
        }
    }

    /// Selects what the movement keys steer: a player with a speed and a
    /// position.
    #[verifier::when_used_as_spec(spec_steered)]
    pub fn steered() -> (f: Filter)
        ensures
            f == Filter::steered(),
    {
        Filter { player: true, speed: true, transform: true, ..Filter::any() }
    }

    /// Selects what fires: a player with a position and a weapon.
    #[verifier::when_used_as_spec(spec_shooter)]
    pub fn shooter() -> (f: Filter)
        ensures
            f == Filter::shooter(),
    {
        Filter { player: true, transform: true, ready_to_fire: true, ..Filter::any() }
    }

    /// Selects the projectiles that move: lasers with a speed and a position.
    #[verifier::when_used_as_spec(spec_projectiles)]
    pub fn projectiles() -> (f: Filter)
        ensures
            f == Filter::projectiles(),
    {
        Filter { laser: true, speed: true, transform: true, ..Filter::any() }
    }

    /// Selects the entities marked as player, whatever else they carry.
    #[verifier::when_used_as_spec(spec_players)]
    pub fn players() -> (f: Filter)
        ensures
            f == Filter::players(),
    {
        Filter { player: true, ..Filter::any() }
    }

    /// Selects the entities marked as laser, whatever else they carry.
    #[verifier::when_used_as_spec(spec_lasers)]
    pub fn lasers() -> (f: Filter)
        ensures
            f == Filter::lasers(),
    {
        Filter { laser: true, ..Filter::any() }
    }
}

} // verus!
