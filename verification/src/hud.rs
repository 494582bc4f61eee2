//! The values that a heads-up display polls once a tick.

use crate::level::EnemySpawner;
use crate::player_attack::{DuplicationCharge, PlayerChargingGUI};
use vstd::prelude::*;

verus! {

/// The width of a full charge bar, in pixels.
pub const CHARGEBAR_WIDTH: u32 = 400;

/// What the display shows of a tick.
#[derive(Clone, Copy, Debug, PartialEq, Eq, Structural)]
pub struct HudSnapshot {
    /// The number of waves sent so far.
    pub level: u32,
    /// The width of the boost's bar, in pixels.
    pub boost_width: u32,
    /// The width of the duplication's bar, in pixels.
    pub duplication_width: u32,
}

/// The width of the bar for a charge of `current` out of `max`: the same
/// part of [`CHARGEBAR_WIDTH`], rounded down, and never more than all of it. A bar
/// for a charge that cannot grow is empty.
pub open spec fn spec_bar_width(current: u32, max: u32) -> u32 {
    if max == 0 {
        0
    } else if current >= max {
        CHARGEBAR_WIDTH
    } else {
        ((current * CHARGEBAR_WIDTH) / (max as int)) as u32
    }
}

pub fn bar_width(current: u32, max: u32) -> (width: u32)
    ensures
        width == spec_bar_width(current, max),
        width <= CHARGEBAR_WIDTH,
{
    if max == 0 {
        0
    } else if current >= max {
        CHARGEBAR_WIDTH
    } else {
        assert(0 <= current * CHARGEBAR_WIDTH <= 0xffff_ffff * 400) by (nonlinear_arith)
            requires
                CHARGEBAR_WIDTH == 400,
        ;
        let scaled: u64 = current as u64 * CHARGEBAR_WIDTH as u64;
        let width: u64 = scaled / (max as u64);
        assert(width <= CHARGEBAR_WIDTH) by (nonlinear_arith)
            requires
                width == scaled / (max as u64),
                scaled == current * CHARGEBAR_WIDTH,
                current < max,
        ;
        width as u32
    }
}

/// The snapshot of a tick: the waves sent so far, which is one less than the
/// number of the next wave, and the two bars.
pub open spec fn spec_snapshot(
    spawner: EnemySpawner,
    charging: PlayerChargingGUI,
    duplication: DuplicationCharge,
) -> HudSnapshot {
    HudSnapshot {
        level: if spawner.wave == 0 {
            0
        } else {
            (spawner.wave - 1) as u32
        },
        boost_width: spec_bar_width(charging.current_boost_level, charging.max_boost_level),
        duplication_width: spec_bar_width(duplication.current_progress, duplication.max_progress),
    }
}

pub fn snapshot(
    spawner: &EnemySpawner,
    charging: &PlayerChargingGUI,
    duplication: &DuplicationCharge,
) -> (shown: HudSnapshot)
    ensures
        shown == spec_snapshot(*spawner, *charging, *duplication),
{
    HudSnapshot {
        level: if spawner.wave == 0 {
            0
        } else {
            spawner.wave - 1
        },
        boost_width: bar_width(charging.current_boost_level, charging.max_boost_level),
        duplication_width: bar_width(duplication.current_progress, duplication.max_progress),
    }
}

} // verus!
