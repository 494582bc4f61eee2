//! The player's cell.

use crate::collision::{Collider, ColliderView};
use crate::geometry::{Hitbox, Point, Rotation, Transform};
use crate::movement::{Speed, Velocity};
use crate::player_attack::{PlayerActionParams, BOOSTING_BASE_SPEED, CELL_RADIUS};
use crate::world::{is_live, Entity, EntityId, EntityView, World};
use vstd::prelude::*;

verus! {

/// Marks the entity that the player steers.
#[derive(Clone, Copy, Debug, PartialEq, Eq, Structural)]
pub struct Player;

/// How fast the player moves unboosted, in thousandths of a world unit per
/// second.
pub const PLAYER_SPEED: u32 = 150_000;

/// The player's cell as the game starts: at rest in the middle of the arena.
pub open spec fn spec_player() -> EntityView {
    EntityView {
        velocity: Some(Velocity::spec_zero()),
        speed: Some(Speed { default: PLAYER_SPEED, current: PLAYER_SPEED }),
        collider: Some(
            ColliderView {
                hitbox: Hitbox::Circle { radius: CELL_RADIUS },
                colliding_entities: Seq::empty(),
            },
        ),
        player: Some(Player),
        action_params: Some(
            PlayerActionParams {
                boosted_speed: BOOSTING_BASE_SPEED,
                remaining_millis: 0,
                extra_millis_per_boost_level: 100,
                extra_speed_per_boost_level: 50_000,
            },
        ),
        ..Entity::spec_bare(
            Transform { translation: Point { x: 0, y: 0 }, rotation: Rotation::spec_identity() },
        )
    }
}

/// Makes the player's cell.
pub fn create_player() -> (player: Entity)
    ensures
        player@ == spec_player(),
{
    let mut player = Entity::bare(
        Transform { translation: Point { x: 0, y: 0 }, rotation: Rotation::identity() },
    );
    player.velocity = Some(Velocity::zero());
    player.speed = Some(Speed::new(PLAYER_SPEED));
    player.collider = Some(Collider::from_hitbox(Hitbox::Circle { radius: CELL_RADIUS }));
    player.player = Some(Player);
    player.action_params = Some(
        PlayerActionParams {
            boosted_speed: BOOSTING_BASE_SPEED,
            remaining_millis: 0,
            extra_millis_per_boost_level: 100,
            extra_speed_per_boost_level: 50_000,
        },
    );
    player
}

/// Whether `collider` is a hostile that a defender destroys by touching it:
/// it lives and has not attached to a host.
pub open spec fn is_vulnerable(world: Seq<EntityView>, collider: EntityId) -> bool {
    &&& is_live(world, collider)
    &&& world[collider as int].hostile is Some
    &&& world[collider as int].virus_attached is None
}

/// Resolves the contact of a defender with `collider`: a vulnerable hostile is
/// put down for destruction, at the end of `doomed`. The defender is not touched.
pub fn handle_virus_collision(world: &World, collider: EntityId, doomed: &mut Vec<EntityId>)
    ensures
        final(doomed)@ == if is_vulnerable(world@, collider) {
            old(doomed)@.push(collider)
        } else {
            old(doomed)@
        },
{
    if world.is_alive(collider) {
        assert(world.entities@[collider as int]@ == world@[collider as int]);
        let enemy = &world.entities[collider];
        if enemy.hostile.is_some() && enemy.virus_attached.is_none() {
            doomed.push(collider);
        }
    }
}

/// Which way the player wants to go.
#[derive(Clone, Copy, Debug, PartialEq, Eq, Structural)]
pub struct MoveIntent {
    pub left: bool,
    pub right: bool,
    pub down: bool,
    pub up: bool,
}

/// The heading that an intent asks for, in millionths of a radian; `None` when
/// it asks for none, or for two that cancel.
pub open spec fn spec_intended_heading(intent: MoveIntent) -> Option<u32> {
    let x: int = (if intent.right { 1int } else { 0int }) - (if intent.left { 1int } else { 0int });
    let y: int = (if intent.up { 1int } else { 0int }) - (if intent.down { 1int } else { 0int });
    if x == 1 && y == 0 {
        Some(0u32)
    } else if x == 1 && y == 1 {
        Some(785_398u32)
    } else if x == 0 && y == 1 {
        Some(1_570_796u32)
    } else if x == -1 && y == 1 {
        Some(2_356_194u32)
    } else if x == -1 && y == 0 {
        Some(3_141_592u32)
    } else if x == -1 && y == -1 {
        Some(3_926_990u32)
    } else if x == 0 && y == -1 {
        Some(4_712_388u32)
    } else if x == 1 && y == -1 {
        Some(5_497_787u32)
    } else {
        None
    }
}

pub fn intended_heading(intent: MoveIntent) -> (heading: Option<u32>)
    ensures
        heading == spec_intended_heading(intent),
{
    let x: i8 = (if intent.right { 1i8 } else { 0i8 }) - (if intent.left { 1i8 } else { 0i8 });
    let y: i8 = (if intent.up { 1i8 } else { 0i8 }) - (if intent.down { 1i8 } else { 0i8 });
    if x == 1 && y == 0 {
        Some(0)
    } else if x == 1 && y == 1 {
        Some(785_398)
    } else if x == 0 && y == 1 {
        Some(1_570_796)
    } else if x == -1 && y == 1 {
        Some(2_356_194)
    } else if x == -1 && y == 0 {
        Some(3_141_592)
    } else if x == -1 && y == -1 {
        Some(3_926_990)
    } else if x == 0 && y == -1 {
        Some(4_712_388)
    } else if x == 1 && y == -1 {
        Some(5_497_787)
    } else {
        None
    }
}

/// Whether the entity is moved by the player's intent: a living player that
/// has a velocity and a speed.
pub open spec fn is_driven(entity: EntityView) -> bool {
    entity.alive && entity.player is Some && entity.velocity is Some && entity.speed is Some
}

/// A driven entity under `intent`: it heads the way asked at its current
/// speed, and stands, heading as before, when no way is asked.
pub open spec fn driven(entity: EntityView, intent: MoveIntent) -> EntityView {
    EntityView {
        velocity: Some(
            match spec_intended_heading(intent) {
                Some(heading) => Velocity { heading, speed: entity.speed->0.current },
                None => Velocity { heading: entity.velocity->0.heading, speed: 0 },
            },
        ),
        ..entity
    }
}

/// `world` after every player took up `intent`.
pub open spec fn velocity_updated(world: Seq<EntityView>, intent: MoveIntent) -> Seq<EntityView> {
    Seq::new(
        world.len(),
        |i: int|
            if is_driven(world[i]) {
                driven(world[i], intent)
            } else {
                world[i]
            },
    )
}

/// Sets the velocity of every player from the intent of this tick.
pub fn update_velocity(world: &mut World, intent: MoveIntent)
    ensures
        final(world)@ == velocity_updated(old(world)@, intent),
{
    let ghost before = world@;
    let wanted = intended_heading(intent);
    let n = world.entities.len();
    let mut i: usize = 0;
    while i < n
        invariant
            i <= n,
            n == before.len(),
            world@.len() == n,
            wanted == spec_intended_heading(intent),
            forall|j: int| i <= j < n ==> world@[j] == before[j],
            forall|j: int| 0 <= j < i ==> world@[j] == velocity_updated(before, intent)[j],
        decreases n - i,
    {
        let ghost now = world@;
        assert(world.entities@[i as int]@ == world@[i as int]);
        let entity = &world.entities[i];
        if entity.alive && entity.player.is_some() {
            match (entity.velocity, entity.speed) {
                (Some(velocity), Some(speed)) => {
                    let next = match wanted {
                        Some(heading) => Velocity { heading, speed: speed.current },
                        None => Velocity { heading: velocity.heading, speed: 0 },
                    };
                    world.entities[i].velocity = Some(next);
                },
                _ => {},
            }
        }
        assert forall|j: int| 0 <= j < n && j != i implies world@[j] == now[j] by {}
        i += 1;
    }
    assert(world@ =~= velocity_updated(before, intent));
}

} // verus!
