//! The player's boost and duplication, and the allies that duplication makes.

use crate::collision::{Collider, ColliderView};
use crate::enemy::{
    assign_targets, clear_lost_targets, lost_targets_cleared, targets_assigned, Targeting,
};
use crate::geometry::{Hitbox, Point, Rotation, Transform};
use crate::movement::{Speed, Velocity, FULL_TURN};
use crate::world::{is_live, Entity, EntityClass, EntityId, EntityView, World};
use rand::rngs::StdRng;
use vstd::prelude::*;

verus! {

/// The speed of a boost that was not charged, in thousandths of a world unit
/// per second.
pub const BOOSTING_BASE_SPEED: u32 = 300_000;

/// How long a boost that was not charged lasts, in milliseconds.
pub const BOOSTING_BASE_MILLIS: u32 = 300;

/// The speed of an ally, in thousandths of a world unit per second.
pub const ALLY_SPEED: u32 = 25_000;

/// The radius of a white blood cell, in thousandths of a world unit.
pub const CELL_RADIUS: u32 = 20_000;

/// The boost that a player is under. Times are in milliseconds, speeds in
/// thousandths of a world unit per second; the two rates are per second of
/// charge.
#[derive(Clone, Copy, Debug, PartialEq, Eq, Structural)]
pub struct PlayerActionParams {
    pub boosted_speed: u32,
    pub remaining_millis: i64,
    pub extra_millis_per_boost_level: u32,
    pub extra_speed_per_boost_level: u32,
}

/// Marks an ally: a cell that seeks hostiles on its own.
#[derive(Clone, Copy, Debug, PartialEq, Eq, Structural)]
pub struct SeekVirus;

/// How far the boost is charged, in milliseconds, and how far it can be.
#[derive(Clone, Copy, Debug, PartialEq, Eq, Structural)]
pub struct PlayerChargingGUI {
    pub current_boost_level: u32,
    pub max_boost_level: u32,
}

/// How far the duplication is charged, in milliseconds, and where it is due.
#[derive(Clone, Copy, Debug, PartialEq, Eq, Structural)]
pub struct DuplicationCharge {
    pub current_progress: u32,
    pub max_progress: u32,
}

/// A charge after `elapsed_millis` more: it grows with time up to `max`.
pub open spec fn spec_charged(level: u32, max: u32, elapsed_millis: u32) -> u32 {
    if level + elapsed_millis < max {
        (level + elapsed_millis) as u32
    } else {
        max
    }
}

pub fn charged(level: u32, max: u32, elapsed_millis: u32) -> (next: u32)
    ensures
        next == spec_charged(level, max, elapsed_millis),
{
    let sum: u64 = level as u64 + elapsed_millis as u64;
    if sum < max as u64 {
        sum as u32
    } else {
        max
    }
}

/// What `rate` per second of charge comes to after `level` milliseconds of
/// charge, on top of `base`; capped at what a `u32` holds.
pub open spec fn spec_charge_bonus(base: u32, rate: u32, level: u32) -> u32 {
    let full = base + (rate * level) / 1000;
    if full > u32::MAX {
        u32::MAX
    } else {
        full as u32
    }
}

pub fn charge_bonus(base: u32, rate: u32, level: u32) -> (bonus: u32)
    ensures
        bonus == spec_charge_bonus(base, rate, level),
{
    assert(0 <= rate * level <= 0xffff_ffff * 0xffff_ffff) by (nonlinear_arith);
    let full: u64 = base as u64 + (rate as u64 * level as u64) / 1000;
    if full > u32::MAX as u64 {
        u32::MAX
    } else {
        full as u32
    }
}

/// The boost that starts when a charge of `level` is released.
pub open spec fn boost_started(params: PlayerActionParams, level: u32) -> PlayerActionParams {
    PlayerActionParams {
        remaining_millis: spec_charge_bonus(
            BOOSTING_BASE_MILLIS,
            params.extra_millis_per_boost_level,
            level,
        ) as i64,
        boosted_speed: spec_charge_bonus(
            BOOSTING_BASE_SPEED,
            params.extra_speed_per_boost_level,
            level,
        ),
        ..params
    }
}

/// Whether the entity can be boosted: a living player that moves and has the
/// parameters of a boost.
pub open spec fn is_booster(entity: EntityView) -> bool {
    entity.alive && entity.player is Some && entity.velocity is Some && entity.action_params
        is Some
}

/// Whether no entity of `world` below `i` can be boosted.
pub open spec fn no_booster_below(world: Seq<EntityView>, i: int) -> bool {
    forall|j: int| 0 <= j < i && j < world.len() ==> !is_booster(#[trigger] world[j])
}

/// `world` after a charge of `level` was released: the first entity that can
/// be boosted gets the whole charge, any other a boost that was not charged.
pub open spec fn attack_released(world: Seq<EntityView>, level: u32) -> Seq<EntityView> {
    Seq::new(
        world.len(),
        |i: int|
            if is_booster(world[i]) {
                EntityView {
                    action_params: Some(
                        boost_started(
                            world[i].action_params->0,
                            if no_booster_below(world, i) {
                                level
                            } else {
                                0
                            },
                        ),
                    ),
                    ..world[i]
                }
            } else {
                world[i]
            },
    )
}

/// The world and the charge after a tick in which the boost key was held
/// (`pressed`) or let go (`just_released`).
pub open spec fn attack_charged(
    world: Seq<EntityView>,
    charging: PlayerChargingGUI,
    pressed: bool,
    just_released: bool,
    elapsed_millis: u32,
) -> (Seq<EntityView>, PlayerChargingGUI) {
    if pressed {
        (
            world,
            PlayerChargingGUI {
                current_boost_level: spec_charged(
                    charging.current_boost_level,
                    charging.max_boost_level,
                    elapsed_millis,
                ),
                ..charging
            },
        )
    } else if just_released {
        (
            attack_released(world, charging.current_boost_level),
            if no_booster_below(world, world.len() as int) {
                charging
            } else {
                PlayerChargingGUI { current_boost_level: 0, ..charging }
            },
        )
    } else {
        (world, charging)
    }
}

/// Charges the boost while its key is held, and starts the boost when the key
/// is let go.
pub fn charge_attack(
    world: &mut World,
    charging: &mut PlayerChargingGUI,
    pressed: bool,
    just_released: bool,
    elapsed_millis: u32,
)
    ensures
        (final(world)@, *final(charging)) == attack_charged(
            old(world)@,
            *old(charging),
            pressed,
            just_released,
            elapsed_millis,
        ),
{
    if pressed {
        charging.current_boost_level = charged(
            charging.current_boost_level,
            charging.max_boost_level,
            elapsed_millis,
        );
    } else if just_released {
        let ghost before = world@;
        let ghost level = charging.current_boost_level;
        let n = world.entities.len();
        let mut i: usize = 0;
        while i < n
            invariant
                i <= n,
                n == before.len(),
                world@.len() == n,
                charging.max_boost_level == old(charging).max_boost_level,
                level == old(charging).current_boost_level,
                charging.current_boost_level == if no_booster_below(before, i as int) {
                    level
                } else {
                    0
                },
                forall|j: int| i <= j < n ==> world@[j] == before[j],
                forall|j: int| 0 <= j < i ==> world@[j] == attack_released(before, level)[j],
            decreases n - i,
        {
            let ghost now = world@;
            assert(world.entities@[i as int]@ == world@[i as int]);
            let entity = &world.entities[i];
            if entity.alive && entity.player.is_some() && entity.velocity.is_some() {
                match entity.action_params {
                    Some(params) => {
                        let remaining = charge_bonus(
                            BOOSTING_BASE_MILLIS,
                            params.extra_millis_per_boost_level,
                            charging.current_boost_level,
                        );
                        let boosted_speed = charge_bonus(
                            BOOSTING_BASE_SPEED,
                            params.extra_speed_per_boost_level,
                            charging.current_boost_level,
                        );
                        world.entities[i].action_params = Some(
                            PlayerActionParams {
                                remaining_millis: remaining as i64,
                                boosted_speed,
                                ..params
                            },
                        );
                        charging.current_boost_level = 0;
                        assert(is_booster(before[i as int]));
                    },
                    None => {},
                }
            }
            assert forall|j: int| 0 <= j < n && j != i implies world@[j] == now[j] by {}
            i += 1;
        }
        assert(world@ =~= attack_released(before, level));
    }
}

/// Whether a boost applies to the entity: a living player with a speed and
/// the parameters of a boost.
pub open spec fn is_boostable(entity: EntityView) -> bool {
    entity.alive && entity.player is Some && entity.speed is Some && entity.action_params is Some
}

/// The entity after `elapsed_millis` under its boost: while time remains it
/// moves at the boosted speed and the time runs; afterwards it moves at its
/// default speed.
pub open spec fn boosted(entity: EntityView, elapsed_millis: u32) -> EntityView {
    let params = entity.action_params->0;
    let speed = entity.speed->0;
    if params.remaining_millis < 0 {
        EntityView { speed: Some(Speed { current: speed.default, ..speed }), ..entity }
    } else {
        EntityView {
            speed: Some(Speed { current: params.boosted_speed, ..speed }),
            action_params: Some(
                PlayerActionParams {
                    remaining_millis: (params.remaining_millis - elapsed_millis) as i64,
                    ..params
                },
            ),
            ..entity
        }
    }
}

/// `world` after `elapsed_millis` of boost.
pub open spec fn players_boosted(world: Seq<EntityView>, elapsed_millis: u32) -> Seq<EntityView> {
    Seq::new(
        world.len(),
        |i: int|
            if is_boostable(world[i]) {
                boosted(world[i], elapsed_millis)
            } else {
                world[i]
            },
    )
}

/// Applies the boost of every player for one tick.
pub fn player_boost(world: &mut World, elapsed_millis: u32)
    ensures
        final(world)@ == players_boosted(old(world)@, elapsed_millis),
{
    let ghost before = world@;
    let n = world.entities.len();
    let mut i: usize = 0;
    while i < n
        invariant
            i <= n,
            n == before.len(),
            world@.len() == n,
            forall|j: int| i <= j < n ==> world@[j] == before[j],
            forall|j: int| 0 <= j < i ==> world@[j] == players_boosted(before, elapsed_millis)[j],
        decreases n - i,
    {
        let ghost now = world@;
        assert(world.entities@[i as int]@ == world@[i as int]);
        let entity = &world.entities[i];
        if entity.alive && entity.player.is_some() {
            match (entity.speed, entity.action_params) {
                (Some(speed), Some(params)) => {
                    if params.remaining_millis < 0 {
                        world.entities[i].speed = Some(Speed { current: speed.default, ..speed });
                    } else {
                        world.entities[i].speed = Some(
                            Speed { current: params.boosted_speed, ..speed },
                        );
                        world.entities[i].action_params = Some(
                            PlayerActionParams {
                                remaining_millis: params.remaining_millis - elapsed_millis as i64,
                                ..params
                            },
                        );
                    }
                },
                _ => {},
            }
        }
        assert forall|j: int| 0 <= j < n && j != i implies world@[j] == now[j] by {}
        i += 1;
    }
    assert(world@ =~= players_boosted(before, elapsed_millis));
}

/// A fresh ally at `position`.
pub open spec fn spec_ally(position: Point) -> EntityView {
    EntityView {
        velocity: Some(Velocity::spec_zero()),
        speed: Some(Speed { default: ALLY_SPEED, current: ALLY_SPEED }),
        collider: Some(
            ColliderView {
                hitbox: Hitbox::Circle { radius: CELL_RADIUS },
                colliding_entities: Seq::empty(),
            },
        ),
        seek_virus: Some(SeekVirus),
        ..Entity::spec_bare(
            Transform { translation: position, rotation: Rotation::spec_identity() },
        )
    }
}

/// Makes an ally at `position`: a white blood cell that stands and seeks.
pub fn create_ally(position: Point) -> (ally: Entity)
    ensures
        ally@ == spec_ally(position),
{
    let mut ally = Entity::bare(
        Transform { translation: position, rotation: Rotation::identity() },
    );
    ally.velocity = Some(Velocity::zero());
    ally.speed = Some(Speed::new(ALLY_SPEED));
    ally.collider = Some(Collider::from_hitbox(Hitbox::Circle { radius: CELL_RADIUS }));
    ally.seek_virus = Some(SeekVirus);
    ally
}

/// Where the duplication of a tick stands: the world and the charge so far.
pub struct Duplication {
    pub world: Seq<EntityView>,
    pub progress: u32,
}

/// Whether the entity can duplicate: a living player with a speed.
pub open spec fn is_duplicator(entity: EntityView) -> bool {
    entity.alive && entity.player is Some && entity.speed is Some
}

/// The entity while it charges a duplication: it moves at half its default
/// speed.
pub open spec fn slowed(entity: EntityView) -> EntityView {
    EntityView {
        speed: Some(Speed { current: entity.speed->0.default / 2, ..entity.speed->0 }),
        ..entity
    }
}

/// The duplication after the players below `n` had their turn, starting from
/// `progress`: a player slows down while the charge is short of `max`; once it
/// is not, an ally appears where the player stands and the charge starts over.
pub open spec fn duplicated_among(before: Seq<EntityView>, progress: u32, max: u32, n: int)
    -> Duplication
    decreases n,
{
    if n <= 0 {
        Duplication { world: before, progress }
    } else {
        let so_far = duplicated_among(before, progress, max, n - 1);
        if n <= before.len() && is_duplicator(before[n - 1]) {
            if so_far.progress < max {
                Duplication {
                    world: so_far.world.update(n - 1, slowed(so_far.world[n - 1])),
                    progress: so_far.progress,
                }
            } else {
                Duplication {
                    world: so_far.world.push(spec_ally(before[n - 1].transform.translation)),
                    progress: 0,
                }
            }
        } else {
            so_far
        }
    }
}

/// The duplication after a tick in which its key was held (`pressed`) or let
/// go (`just_released`).
pub open spec fn multiply_charged(
    world: Seq<EntityView>,
    charging: DuplicationCharge,
    pressed: bool,
    just_released: bool,
    elapsed_millis: u32,
) -> Duplication {
    if pressed {
        duplicated_among(
            world,
            spec_charged(charging.current_progress, charging.max_progress, elapsed_millis),
            charging.max_progress,
            world.len() as int,
        )
    } else if just_released {
        Duplication { world, progress: 0 }
    } else {
        Duplication { world, progress: charging.current_progress }
    }
}

/// Charges the duplication while its key is held, at the cost of speed, and
/// makes an ally when the charge is full. Letting the key go drops the charge.
pub fn charge_multiply(
    world: &mut World,
    charging: &mut DuplicationCharge,
    pressed: bool,
    just_released: bool,
    elapsed_millis: u32,
)
    ensures
        final(charging).max_progress == old(charging).max_progress,
        (Duplication { world: final(world)@, progress: final(charging).current_progress })
            == multiply_charged(
            old(world)@,
            *old(charging),
            pressed,
            just_released,
            elapsed_millis,
        ),
{
    if pressed {
        let ghost before = world@;
        let max = charging.max_progress;
        charging.current_progress = charged(charging.current_progress, max, elapsed_millis);
        let ghost start = charging.current_progress;
        let n = world.entities.len();
        let mut i: usize = 0;
        while i < n
            invariant
                i <= n,
                n == before.len(),
                n <= world@.len(),
                charging.max_progress == max,
                (Duplication { world: world@, progress: charging.current_progress })
                    == duplicated_among(before, start, max, i as int),
                forall|j: int| i <= j < n ==> world@[j] == before[j],
            decreases n - i,
        {
            let ghost now = world@;
            assert(world.entities@[i as int]@ == world@[i as int]);
            let entity = &world.entities[i];
            if entity.alive && entity.player.is_some() {
                match entity.speed {
                    Some(speed) => {
                        if charging.current_progress < max {
                            world.entities[i].speed = Some(
                                Speed { current: speed.default / 2, ..speed },
                            );
                            assert(world@ =~= now.update(i as int, slowed(now[i as int])));
                        } else {
                            charging.current_progress = 0;
                            let position = entity.transform.translation;
                            world.spawn(create_ally(position));
                        }
                    },
                    None => {},
                }
            }
            i += 1;
        }
    } else if just_released {
        charging.current_progress = 0;
    }
}

/// Assigns a random hostile to every ally that holds no target.
pub fn select_virus(world: &mut World, rng: &mut StdRng)
    ensures
        targets_assigned(old(world)@, final(world)@, EntityClass::Ally),
{
    assign_targets(world, EntityClass::Ally, rng);
}

/// Takes from every ally that holds one a target that is no living hostile,
/// or one that has attached.
pub fn unset_nonexisting_virus(world: &mut World)
    ensures
        final(world)@ == lost_targets_cleared(old(world)@, EntityClass::Ally),
{
    clear_lost_targets(world, EntityClass::Ally);
}

/// Whether the entity at `seeker` is an ally that is steered: it lives, is no
/// player, moves, has a speed and holds a target.
pub open spec fn is_led(world: Seq<EntityView>, seeker: EntityId) -> bool {
    &&& is_live(world, seeker)
    &&& world[seeker as int].seek_virus is Some
    &&& world[seeker as int].player is None
    &&& world[seeker as int].velocity is Some
    &&& world[seeker as int].speed is Some
    &&& world[seeker as int].targeting is Some
}

/// The point that the ally at `seeker` makes for: its target, while that is a
/// living entity that is no ally itself, and else the centre of the arena.
pub open spec fn spec_seek_goal(world: Seq<EntityView>, seeker: EntityId) -> Point {
    let target = world[seeker as int].targeting.unwrap().0;
    if is_live(world, target) && world[target as int].seek_virus is None {
        world[target as int].transform.translation
    } else {
        Point { x: 0, y: 0 }
    }
}

/// The point that the ally at `seeker` makes for, if it is steered.
pub fn seek_goal(world: &World, seeker: EntityId) -> (goal: Option<Point>)
    ensures
        goal == if is_led(world@, seeker) {
            Some(spec_seek_goal(world@, seeker))
        } else {
            None
        },
{
    if !world.is_alive(seeker) {
        return None;
    }
    assert(world.entities@[seeker as int]@ == world@[seeker as int]);
    let entity = &world.entities[seeker];
    if entity.seek_virus.is_none() || entity.player.is_some() || entity.velocity.is_none()
        || entity.speed.is_none() {
        return None;
    }
    match entity.targeting {
        Some(Targeting(target)) => {
            if world.is_alive(target) {
                assert(world.entities@[target as int]@ == world@[target as int]);
                if world.entities[target].seek_virus.is_none() {
                    return Some(world.entities[target].transform.translation);
                }
            }
            Some(Point { x: 0, y: 0 })
        },
        None => None,
    }
}

/// `world` after the ally at `seeker` was steered towards its goal, which
/// lies in direction `bearing`: it heads there at its current speed, and
/// stands when it is there.
pub open spec fn ally_velocity_set(world: Seq<EntityView>, seeker: EntityId, bearing: u32) -> Seq<
    EntityView,
> {
    if is_led(world, seeker) {
        let entity = world[seeker as int];
        world.update(
            seeker as int,
            EntityView {
                velocity: Some(
                    if spec_seek_goal(world, seeker) == entity.transform.translation {
                        Velocity { heading: entity.velocity->0.heading, speed: 0 }
                    } else {
                        Velocity { heading: bearing % FULL_TURN, speed: entity.speed->0.current }
                    },
                ),
                ..entity
            },
        )
    } else {
        world
    }
}

/// Steers the ally at `seeker` towards its goal; see [`seek_goal`].
///
/// `bearing` is the direction from the ally to the goal, in millionths of a
/// radian; the caller works it out from the two positions.
pub fn set_velocity(world: &mut World, seeker: EntityId, bearing: u32)
    ensures
        final(world)@ == ally_velocity_set(old(world)@, seeker, bearing),
{
    match seek_goal(world, seeker) {
        Some(goal) => {
            assert(world.entities@[seeker as int]@ == world@[seeker as int]);
            let entity = &world.entities[seeker];
            let here = entity.transform.translation;
            let next = match (entity.velocity, entity.speed) {
                (Some(velocity), Some(speed)) => {
                    if goal.x == here.x && goal.y == here.y {
                        Velocity { heading: velocity.heading, speed: 0 }
                    } else {
                        Velocity { heading: bearing % FULL_TURN, speed: speed.current }
                    }
                },
                _ => {
                    return ;
                },
            };
            world.entities[seeker].velocity = Some(next);
            assert(world@ =~= ally_velocity_set(old(world)@, seeker, bearing));
        },
        None => {},
    }
}

} // verus!
