//! Fixed-point units of the simulation.
//!
//! A length is a whole number of subunits, sixty to a world unit. A time
//! step is a whole number of sixtieths of a second. A speed is a whole number
//! of world units per second, so a speed multiplied by a time step is a length
//! in subunits, with nothing rounded.

use vstd::prelude::*;

verus! {

/// Subunits in one world unit; also the time steps in one second.
pub const SUBUNITS_PER_UNIT: i64 = 60;

/// Speed given to the player and to every projectile, in world units per
/// second.
pub const DEFAULT_SPEED: i32 = 500;

/// Time step of one tick at sixty ticks per second.
pub const DEFAULT_TIMESTEP: u32 = 1;

/// How far above the player a projectile appears: 15 world units.
pub const LASER_OFFSET_Y: i64 = 900;

/// Height of the player's spawn point above the bottom edge: 18.75 world
/// units for half the sprite and 5 for the margin.
pub const PLAYER_BOTTOM_MARGIN: i64 = 1425;

/// Depth at which the player is drawn: 10 world units.
pub const PLAYER_DEPTH: i64 = 600;

/// Depth at which projectiles are drawn.
pub const LASER_DEPTH: i64 = 0;

/// The coordinate nearest to `v`.
pub open spec fn clamp(v: int) -> int {
    if v < i64::MIN {
        i64::MIN as int
    } else if v > i64::MAX {
        i64::MAX as int
    } else {
        v
    }
}

/// Moves the coordinate `p` by `d`. A result beyond either end of the
/// coordinate range stops at that end.
pub fn shift(p: i64, d: i64) -> (r: i64)
    ensures
        r == clamp(p + d),
{
    if d >= 0 {
        if p > i64::MAX - d {
            i64::MAX
        } else {
            p + d
        }
    } else if p < i64::MIN - d {
        i64::MIN
    } else {
        p + d
    }
}

/// The height that something starting at `y0` has after `ticks` ticks of
/// `step` subunits each, if nothing stops it.
pub open spec fn height_after(y0: int, step: int, ticks: nat) -> int {
    y0 + ticks * step
}

/// Before the first tick nothing has moved.
pub proof fn lemma_height_at_start(y0: int, step: int)
    ensures
        height_after(y0, step, 0) == y0,
{
    assert(0 * step == 0) by (nonlinear_arith);
}

/// Rising tick by tick within the coordinate range leads where rising in one
/// go leads, for something that has stayed at or below `top` so far. And the
/// coordinate range does not hide a rise above `top`.
pub proof fn lemma_rise_step(y0: int, step: int, n: nat, top: int)
    requires
        i64::MIN <= y0 <= i64::MAX,
        0 <= top < i64::MAX,
        forall|j: nat| 1 <= j <= n ==> #[trigger] height_after(y0, step, j) <= top,
    ensures
        height_after(y0, step, n + 1) == height_after(y0, step, n) + step,
        clamp(clamp(height_after(y0, step, n)) + step) == clamp(height_after(y0, step, n + 1)),
        clamp(height_after(y0, step, n + 1)) > top <==> height_after(y0, step, n + 1) > top,
{
    assert((n + 1) * step == n * step + step) by (nonlinear_arith);
    if step >= 0 {
        assert(n * step >= 0) by (nonlinear_arith)
            requires
                n >= 0,
                step >= 0,
        ;
        if n >= 1 {
            assert(height_after(y0, step, n) <= top);
        }
    } else {
        assert(n * step <= 0) by (nonlinear_arith)
            requires
                n >= 0,
                step < 0,
        ;
    }
}

} // verus!
