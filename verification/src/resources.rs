//! What the simulation is given from outside: the keys of the current tick,
//! the size of the window, and the handles of the images.

use vstd::prelude::*;
use crate::components::MaterialHandle;

verus! {

/// Name under which the renderer keeps the player's image.
pub const PLAYER_SPRITE: &'static str = "player-sprite";

/// Name under which the renderer keeps the image of a projectile.
pub const LASER_SPRITE: &'static str = "laser-sprite";

/// The keys that the simulation knows.
#[derive(Clone, Copy, Debug, PartialEq, Eq)]
pub enum Key {
    Left,
    Right,
    Fire,
}

/// What one key does in one tick.
#[derive(Clone, Copy, Debug, PartialEq, Eq)]
pub struct KeyState {
    /// The key is down.
    pub held: bool,
    /// The key went up in this tick.
    pub just_released: bool,
}

/// The keys as they stand in one tick.
#[derive(Clone, Copy, Debug, PartialEq, Eq)]
pub struct InputSnapshot {
    pub left: KeyState,
    pub right: KeyState,
    pub fire: KeyState,
}

/// Size of the window, in subunits. It does not change while the simulation
/// runs.
#[derive(Clone, Copy, Debug, PartialEq, Eq)]
pub struct WindowBounds {
    pub width: u32,
    pub height: u32,
}

/// The image handles, one for each kind of entity that is drawn.
#[derive(Clone, Copy, Debug, PartialEq, Eq)]
pub struct Materials {
    pub player_materials: MaterialHandle,
    pub laser: MaterialHandle,
}

impl KeyState {
    /// A key that is up and was not touched in this tick.
    pub fn idle() -> (k: KeyState)
        ensures
            k == (KeyState { held: false, just_released: false }),
    {
        KeyState { held: false, just_released: false }
    }
}

impl InputSnapshot {
    /// The state of `key` in this snapshot.
    pub open spec fn key(&self, key: Key) -> KeyState {
        match key {
            Key::Left => self.left,
            Key::Right => self.right,
            Key::Fire => self.fire,
        }
    }

    /// The direction in which the held keys steer: -1 to the left, 1 to the
    /// right, 0 for neither. Left wins where both keys are held.
    pub open spec fn spec_direction(&self) -> i64 {
        if self.left.held {
            -1i64
        } else if self.right.held {
            1i64
        } else {
            0i64
        }
    }

    /// A snapshot in which no key is held and none was released.
    pub fn new() -> (input: InputSnapshot)
        ensures
            forall|k: Key| input.key(k) == (KeyState { held: false, just_released: false }),
    {
        InputSnapshot { left: KeyState::idle(), right: KeyState::idle(), fire: KeyState::idle() }
    }

    /// This snapshot with `key` held.
    pub fn with_held(self, key: Key) -> (input: InputSnapshot)
        ensures
            input.key(key) == (KeyState { held: true, ..self.key(key) }),
            forall|k: Key| k != key ==> input.key(k) == self.key(k),
    {
        let mut input = self;
        match key {
            Key::Left => { input.left.held = true; },
            Key::Right => { input.right.held = true; },
            Key::Fire => { input.fire.held = true; },
        }
        input
    }

    /// This snapshot with `key` released in this tick.
    pub fn with_released(self, key: Key) -> (input: InputSnapshot)
        ensures
            input.key(key) == (KeyState { just_released: true, ..self.key(key) }),
            forall|k: Key| k != key ==> input.key(k) == self.key(k),
    {
        let mut input = self;
        match key {
            Key::Left => { input.left.just_released = true; },
            Key::Right => { input.right.just_released = true; },
            Key::Fire => { input.fire.just_released = true; },
        }
        input
    }

    /// Whether `key` is down.
    pub fn is_held(&self, key: Key) -> (b: bool)
        ensures
            b == self.key(key).held,
    {
        match key {
            Key::Left => self.left.held,
            Key::Right => self.right.held,
            Key::Fire => self.fire.held,
        }
    }

    /// Whether `key` went up in this tick.
    pub fn just_released(&self, key: Key) -> (b: bool)
        ensures
            b == self.key(key).just_released,
    {
        match key {
            Key::Left => self.left.just_released,
            Key::Right => self.right.just_released,
            Key::Fire => self.fire.just_released,
        }
    }

    /// Computes the direction in which the held keys steer.
    #[verifier::when_used_as_spec(spec_direction)]
    pub fn direction(&self) -> (d: i64)
        ensures
            d == self.direction(),
    {
        if self.left.held {
            -1
        } else if self.right.held {
            1
        } else {
            0
        }
    }
}

impl WindowBounds {
    /// A window `width` subunits wide and `height` subunits high.
    pub fn new(width: u32, height: u32) -> (bounds: WindowBounds)
        ensures
            bounds == (WindowBounds { width, height }),
    {
        WindowBounds { width, height }
    }
}

impl Materials {
    /// The handles of the player's image and of the image of a projectile.
    pub fn new(player_materials: MaterialHandle, laser: MaterialHandle) -> (m: Materials)
        ensures
            m == (Materials { player_materials, laser }),
    {
        Materials { player_materials, laser }
    }
}

} // verus!
