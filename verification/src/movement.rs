//! Motion components. Velocities are polar: a heading and a speed. Turning
//! them into displacements is left to whoever integrates movement.

use vstd::prelude::*;

verus! {

/// Millionths of a radian in a full turn, rounded down.
pub const FULL_TURN: u32 = 6_283_185;

/// Where an entity is heading and how fast.
///
/// `heading` is in millionths of a radian, counter-clockwise from the x axis;
/// `speed` is in thousandths of a world unit per second.
#[derive(Clone, Copy, Debug, PartialEq, Eq, Structural)]
pub struct Velocity {
    pub heading: u32,
    pub speed: u32,
}

/// The speed an entity moves at when it moves, and the one it returns to.
#[derive(Clone, Copy, Debug, PartialEq, Eq, Structural)]
pub struct Speed {
    pub default: u32,
    pub current: u32,
}

/// The fastest an entity may turn, in thousandths of a radian per second.
#[derive(Clone, Copy, Debug, PartialEq, Eq, Structural)]
pub struct TurnSpeed(pub u32);

impl Speed {
    pub fn new(value: u32) -> (s: Speed)
        ensures
            s == (Speed { default: value, current: value }),
    {
        Speed { default: value, current: value }
    }
}

impl Velocity {
    /// A velocity with the heading brought into `[0, FULL_TURN)`.
    pub fn new(heading: u32, speed: u32) -> (v: Velocity)
        ensures
            v == (Velocity { heading: heading % FULL_TURN, speed }),
    {
        Velocity { heading: heading % FULL_TURN, speed }
    }

    /// Standing still.
    pub open spec fn spec_zero() -> Velocity {
        Velocity { heading: 0, speed: 0 }
    }

    pub fn zero() -> (v: Velocity)
        ensures
            v == Velocity::spec_zero(),
    {
        Velocity { heading: 0, speed: 0 }
    }
}

/// The angle that leads counter-clockwise from `from` to `to`, in `[0, FULL_TURN)`.
pub open spec fn turn_between(from: int, to: int) -> int {
    (to - from) % (FULL_TURN as int)
}

/// `heading` turned towards `bearing` by at most `limit`, along the shorter way
/// round; an exact half turn goes counter-clockwise.
pub open spec fn spec_rotate_towards(heading: int, bearing: int, limit: int) -> int {
    let full = FULL_TURN as int;
    let ahead = turn_between(heading, bearing);
    if 2 * ahead <= full {
        if ahead <= limit {
            bearing % full
        } else {
            (heading + limit) % full
        }
    } else {
        if full - ahead <= limit {
            bearing % full
        } else {
            (heading - limit) % full
        }
    }
}

/// The angle between two headings, the shorter way round: from zero to half
/// a turn.
pub open spec fn angle_between(from: int, to: int) -> int {
    let ahead = turn_between(from, to);
    if 2 * ahead <= FULL_TURN {
        ahead
    } else {
        FULL_TURN - ahead
    }
}

/// Turning towards a bearing turns the heading by the limit, or by the angle
/// to the bearing where that is less, and brings it closer to the bearing by
/// exactly as much.
pub proof fn lemma_rotate_towards(heading: int, bearing: int, limit: int)
    requires
        0 <= limit,
    ensures
        ({
            let turned = spec_rotate_towards(heading, bearing, limit);
            let gap = angle_between(heading, bearing);
            let step = if limit <= gap {
                limit
            } else {
                gap
            };
            &&& 0 <= turned < FULL_TURN
            &&& angle_between(heading, turned) == step
            &&& angle_between(turned, bearing) == gap - step
        }),
{
    let full = FULL_TURN as int;
    let turned = spec_rotate_towards(heading, bearing, limit);
    let ahead = turn_between(heading, bearing);
    let gap = angle_between(heading, bearing);
    lemma_turn_between(heading, bearing);
    lemma_turn_between(heading, turned);
    lemma_turn_between(turned, bearing);
    vstd::arithmetic::div_mod::lemma_mod_twice(bearing, full);
    if (2 * ahead <= full && ahead <= limit) || (2 * ahead > full && full - ahead <= limit) {
        assert(turned == bearing % full);
    } else if 2 * ahead <= full {
        lemma_shift_mod(heading, limit);
        vstd::arithmetic::div_mod::lemma_mod_twice(heading + limit, full);
        let h = heading % full;
        assert(turned == (h + limit) % full);
        if h + limit < full {
            vstd::arithmetic::div_mod::lemma_small_mod((h + limit) as nat, full as nat);
        } else {
            vstd::arithmetic::div_mod::lemma_mod_add_multiples_vanish(h + limit - full, full);
            vstd::arithmetic::div_mod::lemma_small_mod((h + limit - full) as nat, full as nat);
        }
    } else {
        lemma_shift_mod(heading, -limit);
        vstd::arithmetic::div_mod::lemma_mod_twice(heading - limit, full);
        let h = heading % full;
        assert(turned == (h + full - limit) % full);
        if h - limit >= 0 {
            vstd::arithmetic::div_mod::lemma_mod_add_multiples_vanish(h - limit, full);
            vstd::arithmetic::div_mod::lemma_small_mod((h - limit) as nat, full as nat);
        } else {
            vstd::arithmetic::div_mod::lemma_small_mod((h + full - limit) as nat, full as nat);
        }
    }
}

/// Turns `heading` towards `bearing` by at most `limit` millionths of a radian.
pub fn rotate_towards(heading: u32, bearing: u32, limit: u64) -> (turned: u32)
    ensures
        turned == spec_rotate_towards(heading as int, bearing as int, limit as int),
        turned < FULL_TURN,
{
    let full: u64 = FULL_TURN as u64;
    let h: u64 = (heading % FULL_TURN) as u64;
    let b: u64 = (bearing % FULL_TURN) as u64;
    let ahead: u64 = if b >= h {
        b - h
    } else {
        b + full - h
    };
    proof {
        lemma_turn_between(heading as int, bearing as int);
    }
    if 2 * ahead <= full {
        if ahead <= limit {
            b as u32
        } else {
            proof {
                lemma_shift_mod(heading as int, limit as int);
            }
            ((h + limit) % full) as u32
        }
    } else {
        if full - ahead <= limit {
            b as u32
        } else {
            proof {
                lemma_shift_mod(heading as int, -(limit as int));
            }
            ((h + full - limit) % full) as u32
        }
    }
}

proof fn lemma_turn_between(from: int, to: int)
    ensures
        ({
            let full = FULL_TURN as int;
            let f = from % full;
            let t = to % full;
            turn_between(from, to) == if t >= f {
                t - f
            } else {
                t + full - f
            }
        }),
{
    let full = FULL_TURN as int;
    let f = from % full;
    let t = to % full;
    vstd::arithmetic::div_mod::lemma_sub_mod_noop(to, from, full);
    let d = if t >= f {
        t - f
    } else {
        t + full - f
    };
    if t >= f {
        vstd::arithmetic::div_mod::lemma_small_mod((t - f) as nat, full as nat);
    } else {
        vstd::arithmetic::div_mod::lemma_mod_add_multiples_vanish(t - f, full);
        vstd::arithmetic::div_mod::lemma_small_mod((t - f + full) as nat, full as nat);
    }
}

proof fn lemma_shift_mod(heading: int, by: int)
    ensures
        ({
            let full = FULL_TURN as int;
            &&& (heading + by) % full == ((heading % full) + by) % full
            &&& (heading + by) % full == ((heading % full) + full + by) % full
        }),
{
    let full = FULL_TURN as int;
    vstd::arithmetic::div_mod::lemma_add_mod_noop(heading, by, full);
    vstd::arithmetic::div_mod::lemma_add_mod_noop(heading % full, by, full);
    vstd::arithmetic::div_mod::lemma_mod_twice(heading, full);
    vstd::arithmetic::div_mod::lemma_mod_add_multiples_vanish((heading % full) + by, full);
}

} // verus!
