//! Hostile entities: what they are, whom they seek and how they steer.

use crate::collision::Collider;
use crate::geometry::{Hitbox, Point, Rotation, Transform};
use crate::movement::{rotate_towards, spec_rotate_towards, Speed, TurnSpeed, Velocity, FULL_TURN};
use crate::random::{choose_one, random_below};
use crate::world::{is_live, Entity, EntityClass, EntityId, EntityView, World};
use rand::rngs::StdRng;
use vstd::prelude::*;

verus! {

/// The kinds of hostile entity.
#[derive(Clone, Copy, Debug, PartialEq, Eq, Structural)]
pub enum Hostile {
    /// Attaches to the first host it touches and never acts again.
    InfectThenDie,
}

/// The entity that a seeker pursues.
#[derive(Clone, Copy, Debug, PartialEq, Eq, Structural)]
pub struct Targeting(pub EntityId);

/// Marks a hostile that has attached to a host. It is never taken off.
#[derive(Clone, Copy, Debug, PartialEq, Eq, Structural)]
pub struct VirusAttached;

/// How fast a virus moves, in thousandths of a world unit per second.
pub const VIRUS_SPEED: u32 = 20_000;

/// How fast a virus turns, in thousandths of a radian per second.
pub const VIRUS_TURN_SPEED: u32 = 1_000;

/// The radius of a virus's capsule, in thousandths of a world unit.
pub const VIRUS_HITBOX_RADIUS: u32 = 5_500;

/// How far the spine of a virus's capsule reaches below its origin.
pub const VIRUS_HITBOX_DROP: i32 = -3_000;

/// Closer to its target than this, a seeker turns at once.
pub const FAST_ROTATE_DISTANCE: u64 = 20_000;

/// Closer to its target than this, a seeker has arrived and stops. A seeker
/// slower than this, per second, counts as standing.
pub const ARRIVAL_DISTANCE: u64 = 10;

/// A freshly made virus heading `direction` from `position`.
pub open spec fn spec_virus(direction: u32, position: Point) -> EntityView {
    EntityView {
        collider: Some(
            crate::collision::ColliderView {
                hitbox: Hitbox::Capsule {
                    radius: VIRUS_HITBOX_RADIUS,
                    start: Point { x: 0, y: 0 },
                    end: Point { x: 0, y: VIRUS_HITBOX_DROP },
                },
                colliding_entities: Seq::empty(),
            },
        ),
        velocity: Some(Velocity { heading: direction % FULL_TURN, speed: VIRUS_SPEED }),
        speed: Some(Speed { default: VIRUS_SPEED, current: VIRUS_SPEED }),
        turn_speed: Some(TurnSpeed(VIRUS_TURN_SPEED)),
        hostile: Some(Hostile::InfectThenDie),
        ..Entity::spec_bare(
            Transform { translation: position, rotation: Rotation::spec_identity() },
        )
    }
}

/// Makes a virus at `position` that moves at full speed towards `direction`,
/// an angle in millionths of a radian.
pub fn create_virus(direction: u32, position: Point) -> (virus: Entity)
    ensures
        virus@ == spec_virus(direction, position),
{
    let mut virus = Entity::bare(
        Transform { translation: position, rotation: Rotation::identity() },
    );
    virus.collider = Some(
        Collider::from_hitbox(
            Hitbox::Capsule {
                radius: VIRUS_HITBOX_RADIUS,
                start: Point { x: 0, y: 0 },
                end: Point { x: 0, y: VIRUS_HITBOX_DROP },
            },
        ),
    );
    virus.velocity = Some(Velocity::new(direction, VIRUS_SPEED));
    virus.speed = Some(Speed::new(VIRUS_SPEED));
    virus.turn_speed = Some(TurnSpeed(VIRUS_TURN_SPEED));
    virus.hostile = Some(Hostile::InfectThenDie);
    virus
}

/// A heading drawn from `[0, FULL_TURN)`.
pub fn random_heading(rng: &mut StdRng) -> (heading: u32)
    ensures
        heading < FULL_TURN,
{
    random_below(rng, FULL_TURN as u64) as u32
}

/// Whether `entity` looks for a target of its own accord, as a seeker of
/// `class`. Hostiles seek hosts until they attach; allies seek hostiles.
pub open spec fn spec_is_seeker(entity: EntityView, class: EntityClass) -> bool {
    match class {
        EntityClass::Hostile => {
            &&& entity.alive
            &&& entity.hostile is Some
            &&& entity.host is None
            &&& entity.virus_attached is None
            &&& entity.velocity is Some
            &&& entity.turn_speed is Some
        },
        EntityClass::Ally => entity.alive && entity.seek_virus is Some,
        _ => false,
    }
}

/// Whether a seeker of `class` may pursue `entity`. Hostiles pursue living
/// hosts; allies pursue living hostiles that have not attached.
pub open spec fn spec_is_eligible(entity: EntityView, class: EntityClass) -> bool {
    match class {
        EntityClass::Hostile => entity.alive && entity.host is Some,
        EntityClass::Ally => entity.alive && entity.hostile is Some && entity.virus_attached
            is None,
        _ => false,
    }
}

/// Whether `entity` holds a target as one of `class`: a hostile for the class
/// of hostiles, an ally for that of allies, seeking or not.
pub open spec fn spec_holds_target(entity: EntityView, class: EntityClass) -> bool {
    match class {
        EntityClass::Hostile => entity.hostile is Some && entity.targeting is Some,
        EntityClass::Ally => entity.seek_virus is Some && entity.targeting is Some,
        _ => false,
    }
}

/// Whether `id` names an entity of `world` that a seeker of `class` may pursue.
pub open spec fn eligible_in(world: Seq<EntityView>, id: EntityId, class: EntityClass) -> bool {
    id < world.len() && spec_is_eligible(world[id as int], class)
}

/// The entities below `n` that a seeker of `class` may pursue, in rising order.
pub open spec fn eligible_among(world: Seq<EntityView>, class: EntityClass, n: int) -> Seq<
    EntityId,
>
    decreases n,
{
    if n <= 0 {
        Seq::empty()
    } else if eligible_in(world, (n - 1) as usize, class) {
        eligible_among(world, class, n - 1).push((n - 1) as usize)
    } else {
        eligible_among(world, class, n - 1)
    }
}

impl Entity {
    /// Whether this entity is a seeker of `class`.
    pub fn is_seeker(&self, class: EntityClass) -> (seeker: bool)
        ensures
            seeker == spec_is_seeker(self@, class),
    {
        match class {
            EntityClass::Hostile => self.alive && self.hostile.is_some() && self.host.is_none()
                && self.virus_attached.is_none() && self.velocity.is_some()
                && self.turn_speed.is_some(),
            EntityClass::Ally => self.alive && self.seek_virus.is_some(),
            _ => false,
        }
    }

    /// Whether a seeker of `class` may pursue this entity.
    pub fn is_eligible(&self, class: EntityClass) -> (eligible: bool)
        ensures
            eligible == spec_is_eligible(self@, class),
    {
        match class {
            EntityClass::Hostile => self.alive && self.host.is_some(),
            EntityClass::Ally => self.alive && self.hostile.is_some()
                && self.virus_attached.is_none(),
            _ => false,
        }
    }

    /// Whether this entity holds a target as one of `class`.
    pub fn holds_target(&self, class: EntityClass) -> (holds: bool)
        ensures
            holds == spec_holds_target(self@, class),
    {
        match class {
            EntityClass::Hostile => self.hostile.is_some() && self.targeting.is_some(),
            EntityClass::Ally => self.seek_virus.is_some() && self.targeting.is_some(),
            _ => false,
        }
    }
}

/// Lists the entities that a seeker of `class` may pursue.
pub fn eligible_targets(world: &World, class: EntityClass) -> (targets: Vec<EntityId>)
    ensures
        targets@ == eligible_among(world@, class, world@.len() as int),
{
    let mut targets: Vec<EntityId> = Vec::new();
    let n = world.entities.len();
    let mut i: usize = 0;
    while i < n
        invariant
            i <= n,
            n == world@.len(),
            targets@ == eligible_among(world@, class, i as int),
        decreases n - i,
    {
        assert(world.entities@[i as int]@ == world@[i as int]);
        if world.entities[i].is_eligible(class) {
            targets.push(i);
        }
        i += 1;
    }
    targets
}

/// An identifier is listed among the eligible exactly when it is below `n` and
/// names an eligible entity.
pub proof fn lemma_eligible_among(
    world: Seq<EntityView>,
    class: EntityClass,
    n: int,
    id: EntityId,
)
    requires
        n <= usize::MAX + 1,
    ensures
        eligible_among(world, class, n).contains(id) <==> id < n && eligible_in(world, id, class),
    decreases n,
{
    if n > 0 {
        lemma_eligible_among(world, class, n - 1, id);
        let rest = eligible_among(world, class, n - 1);
        let last = (n - 1) as usize;
        if eligible_in(world, last, class) {
            assert forall|i: int| 0 <= i < rest.len() implies rest.push(last)[i] == rest[i] by {}
            assert(rest.push(last)[rest.len() as int] == last);
            if rest.contains(id) {
                let i = choose|i: int| 0 <= i < rest.len() && rest[i] == id;
                assert(rest.push(last)[i] == id);
            }
        }
    }
}

/// `entity` with its target replaced.
pub open spec fn with_target(entity: EntityView, targeting: Option<Targeting>) -> EntityView {
    EntityView { targeting, ..entity }
}

/// `world` after `seeker` was offered `choice`: a living seeker of `class` that
/// holds no target takes it; anything else leaves the world as it was.
pub open spec fn target_taken(
    world: Seq<EntityView>,
    class: EntityClass,
    seeker: EntityId,
    choice: Option<EntityId>,
) -> Seq<EntityView> {
    if seeker < world.len() && spec_is_seeker(world[seeker as int], class)
        && world[seeker as int].targeting is None && choice is Some {
        world.update(seeker as int, with_target(world[seeker as int], Some(Targeting(choice->0))))
    } else {
        world
    }
}

/// Gives `seeker` the target `choice`, if it is a living seeker of `class`
/// without a target and there is a choice.
pub fn take_target(
    world: &mut World,
    class: EntityClass,
    seeker: EntityId,
    choice: Option<EntityId>,
)
    ensures
        final(world)@ == target_taken(old(world)@, class, seeker, choice),
{
    if seeker < world.entities.len() {
        assert(world.entities@[seeker as int]@ == world@[seeker as int]);
        if world.entities[seeker].is_seeker(class) && world.entities[seeker].targeting.is_none() {
            match choice {
                Some(target) => {
                    world.entities[seeker].targeting = Some(Targeting(target));
                    assert(world@ =~= target_taken(old(world)@, class, seeker, choice));
                },
                None => {},
            }
        }
    }
}

/// Whether `after` is `before` once every seeker of `class` without a target
/// has been given one of the entities eligible in `before`, if there is any.
/// Nothing else differs.
pub open spec fn targets_assigned(
    before: Seq<EntityView>,
    after: Seq<EntityView>,
    class: EntityClass,
) -> bool {
    &&& after.len() == before.len()
    &&& forall|i: int|
        0 <= i < before.len() ==> {
            let wants = spec_is_seeker(before[i], class) && before[i].targeting is None;
            let any = eligible_among(before, class, before.len() as int).len() > 0;
            if wants && any {
                &&& (#[trigger] after[i]).targeting is Some
                &&& eligible_in(before, after[i].targeting.unwrap().0, class)
                &&& after[i] == with_target(before[i], after[i].targeting)
            } else {
                after[i] == before[i]
            }
        }
}

/// Gives every seeker of `class` that holds no target one drawn at random from
/// the entities eligible now. Without any eligible entity nothing changes.
pub fn assign_targets(world: &mut World, class: EntityClass, rng: &mut StdRng)
    ensures
        targets_assigned(old(world)@, final(world)@, class),
{
    let ghost before = world@;
    let targets_list = eligible_targets(world, class);
    let n = world.entities.len();
    let mut seeker: usize = 0;
    while seeker < n
        invariant
            seeker <= n,
            n == before.len(),
            world@.len() == n,
            targets_list@ == eligible_among(before, class, n as int),
            forall|i: int| seeker <= i < n ==> world@[i] == before[i],
            forall|i: int|
                0 <= i < seeker ==> {
                    let wants = spec_is_seeker(before[i], class) && before[i].targeting is None;
                    let any = targets_list@.len() > 0;
                    if wants && any {
                        &&& (#[trigger] world@[i]).targeting is Some
                        &&& eligible_in(before, world@[i].targeting.unwrap().0, class)
                        &&& world@[i] == with_target(before[i], world@[i].targeting)
                    } else {
                        world@[i] == before[i]
                    }
                },
        decreases n - seeker,
    {
        let ghost now = world@;
        let choice = choose_one(&targets_list, rng);
        take_target(world, class, seeker, choice);
        proof {
            if choice is Some {
                lemma_eligible_among(before, class, n as int, choice->0);
            }
            assert forall|i: int| 0 <= i < n && i != seeker implies world@[i] == now[i] by {}
        }
        seeker += 1;
    }
}

/// Whether the entity at `i` holds, as one of `class`, a target that is not
/// one that the class may pursue.
pub open spec fn has_lost_target(world: Seq<EntityView>, class: EntityClass, i: int) -> bool {
    &&& 0 <= i < world.len()
    &&& spec_holds_target(world[i], class)
    &&& !eligible_in(world, world[i].targeting.unwrap().0, class)
}

/// `world` once every entity of `class` has let go of a target that the class
/// may not pursue. A target that it may pursue is kept.
pub open spec fn lost_targets_cleared(world: Seq<EntityView>, class: EntityClass) -> Seq<
    EntityView,
> {
    Seq::new(
        world.len(),
        |i: int|
            if has_lost_target(world, class, i) {
                with_target(world[i], None)
            } else {
                world[i]
            },
    )
}

/// Takes the target from every entity of `class` whose target was destroyed
/// or is otherwise not eligible. Whether the holder still seeks plays no part.
pub fn clear_lost_targets(world: &mut World, class: EntityClass)
    ensures
        final(world)@ == lost_targets_cleared(old(world)@, class),
{
    let ghost before = world@;
    let n = world.entities.len();
    let mut i: usize = 0;
    while i < n
        invariant
            i <= n,
            n == before.len(),
            world@.len() == n,
            forall|j: int| i <= j < n ==> world@[j] == before[j],
            forall|j: int| 0 <= j < i ==> world@[j] == lost_targets_cleared(before, class)[j],
        decreases n - i,
    {
        let ghost now = world@;
        assert(world.entities@[i as int]@ == world@[i as int]);
        let lost = match world.entities[i].targeting {
            Some(Targeting(target)) => world.entities[i].holds_target(class) && !target_eligible(
                world,
                target,
                class,
                Ghost(before),
                Ghost(i as int),
            ),
            None => false,
        };
        if lost {
            world.entities[i].targeting = None;
        }
        assert forall|j: int| 0 <= j < n && j != i implies world@[j] == now[j] by {}
        i += 1;
    }
    assert(world@ =~= lost_targets_cleared(before, class));
}

/// Whether `target` may be pursued, read from a world in which the entities
/// from `done` on are still as they were in `before`, and those before `done`
/// differ from it in their own targets at most.
fn target_eligible(
    world: &World,
    target: EntityId,
    class: EntityClass,
    Ghost(before): Ghost<Seq<EntityView>>,
    Ghost(done): Ghost<int>,
) -> (eligible: bool)
    requires
        world@.len() == before.len(),
        forall|j: int| done <= j < before.len() ==> world@[j] == before[j],
        forall|j: int| 0 <= j < done ==> world@[j] == lost_targets_cleared(before, class)[j],
    ensures
        eligible == eligible_in(before, target, class),
{
    if target < world.entities.len() {
        assert(world.entities@[target as int]@ == world@[target as int]);
        let found = world.entities[target].is_eligible(class);
        proof {
            // Clearing changes targets only, and eligibility does not turn on
            // them.
            if target < done {
                assert(world@[target as int] == lost_targets_cleared(before, class)[target as int]);
            }
        }
        found
    } else {
        false
    }
}

/// A hostile that holds a target keeps it exactly when the target is a living
/// host, and holds none otherwise; nothing else about it changes.
pub proof fn lemma_hostile_keeps_living_host(world: Seq<EntityView>, holder: EntityId)
    requires
        holder < world.len(),
        world[holder as int].hostile is Some,
        world[holder as int].targeting is Some,
    ensures
        ({
            let target = world[holder as int].targeting.unwrap().0;
            let kept = is_live(world, target) && world[target as int].host is Some;
            lost_targets_cleared(world, EntityClass::Hostile)[holder as int] == with_target(
                world[holder as int],
                if kept {
                    world[holder as int].targeting
                } else {
                    None
                },
            )
        }),
{
}

/// An ally that holds a target keeps it exactly when the target is a living
/// hostile that has not attached, and holds none otherwise; nothing else about
/// it changes.
pub proof fn lemma_ally_keeps_free_hostile(world: Seq<EntityView>, holder: EntityId)
    requires
        holder < world.len(),
        world[holder as int].seek_virus is Some,
        world[holder as int].targeting is Some,
    ensures
        ({
            let target = world[holder as int].targeting.unwrap().0;
            let kept = is_live(world, target) && world[target as int].hostile is Some
                && world[target as int].virus_attached is None;
            lost_targets_cleared(world, EntityClass::Ally)[holder as int] == with_target(
                world[holder as int],
                if kept {
                    world[holder as int].targeting
                } else {
                    None
                },
            )
        }),
{
}

/// Once targets that are not eligible are let go, no entity of the class
/// holds a target that is dead or was never there.
pub proof fn lemma_cleared_targets_live(world: Seq<EntityView>, class: EntityClass, i: int)
    requires
        0 <= i < world.len(),
        spec_holds_target(lost_targets_cleared(world, class)[i], class),
    ensures
        is_live(
            lost_targets_cleared(world, class),
            lost_targets_cleared(world, class)[i].targeting.unwrap().0,
        ),
{
    let after = lost_targets_cleared(world, class);
    let target = after[i].targeting.unwrap().0;
    assert(!has_lost_target(world, class, i));
    assert(eligible_in(world, target, class));
    assert(after[target as int].alive == world[target as int].alive);
}

/// Whether the entity at `i` lives and holds a target that does not.
pub open spec fn has_dead_target(world: Seq<EntityView>, i: int) -> bool {
    &&& 0 <= i < world.len()
    &&& world[i].alive
    &&& world[i].targeting is Some
    &&& !is_live(world, world[i].targeting.unwrap().0)
}

/// Whether no living entity of `world` holds a target that is dead or was
/// never there.
pub open spec fn targets_live(world: Seq<EntityView>) -> bool {
    forall|i: int| 0 <= i < world.len() ==> !#[trigger] has_dead_target(world, i)
}

/// `world` once every living entity has let go of a target that does not live.
pub open spec fn dead_targets_dropped(world: Seq<EntityView>) -> Seq<EntityView> {
    Seq::new(
        world.len(),
        |i: int|
            if has_dead_target(world, i) {
                with_target(world[i], None)
            } else {
                world[i]
            },
    )
}

/// Takes from every living entity a target that does not live, so that no
/// target outlasts the tick in which it was destroyed.
pub fn drop_dead_targets(world: &mut World)
    ensures
        final(world)@ == dead_targets_dropped(old(world)@),
        targets_live(final(world)@),
{
    let ghost before = world@;
    let n = world.entities.len();
    let mut i: usize = 0;
    while i < n
        invariant
            i <= n,
            n == before.len(),
            world@.len() == n,
            forall|j: int| i <= j < n ==> world@[j] == before[j],
            forall|j: int| 0 <= j < i ==> world@[j] == dead_targets_dropped(before)[j],
        decreases n - i,
    {
        let ghost now = world@;
        assert(world.entities@[i as int]@ == world@[i as int]);
        let dead = world.entities[i].alive && match world.entities[i].targeting {
            Some(Targeting(target)) => {
                let live = target < n && world.entities[target].alive;
                proof {
                    if target < n {
                        assert(world.entities@[target as int]@ == world@[target as int]);
                        if target < i {
                            assert(world@[target as int] == dead_targets_dropped(
                                before,
                            )[target as int]);
                        }
                        assert(world@[target as int].alive == before[target as int].alive);
                    }
                }
                !live
            },
            None => false,
        };
        if dead {
            world.entities[i].targeting = None;
        }
        assert forall|j: int| 0 <= j < n && j != i implies world@[j] == now[j] by {}
        i += 1;
    }
    assert(world@ =~= dead_targets_dropped(before));
    proof {
        lemma_dropped_targets_live(before);
    }
}

/// Once dead targets are dropped, every target that is held lives.
pub proof fn lemma_dropped_targets_live(world: Seq<EntityView>)
    ensures
        targets_live(dead_targets_dropped(world)),
{
    let after = dead_targets_dropped(world);
    assert forall|i: int| 0 <= i < after.len() implies !#[trigger] has_dead_target(after, i) by {
        if after[i].alive && after[i].targeting is Some {
            let target = after[i].targeting.unwrap().0;
            assert(!has_dead_target(world, i));
            assert(is_live(world, target));
            assert(after[target as int].alive == world[target as int].alive);
        }
    }
}

/// Assigns a random host to every hostile that seeks and holds no target.
pub fn set_target(world: &mut World, rng: &mut StdRng)
    ensures
        targets_assigned(old(world)@, final(world)@, EntityClass::Hostile),
{
    assign_targets(world, EntityClass::Hostile, rng);
}

/// Takes from every hostile that holds one a target that is no living host.
pub fn unset_nonexisting_target(world: &mut World)
    ensures
        final(world)@ == lost_targets_cleared(old(world)@, EntityClass::Hostile),
{
    clear_lost_targets(world, EntityClass::Hostile);
}

/// The square of the distance between two points.
pub open spec fn distance_squared(from: Point, to: Point) -> int {
    (to.x - from.x) * (to.x - from.x) + (to.y - from.y) * (to.y - from.y)
}

/// The velocity of a seeker at `from` pursuing a target at `to`, which lies
/// in direction `bearing`, after `elapsed_millis`.
///
/// Within [`ARRIVAL_DISTANCE`] the seeker stops where it heads. Within
/// [`FAST_ROTATE_DISTANCE`], or from a standstill, it heads straight for the
/// target at full speed. Otherwise it keeps its speed and turns towards the
/// target by no more than its turn speed allows in the time elapsed.
pub open spec fn spec_steer(
    velocity: Velocity,
    from: Point,
    to: Point,
    bearing: u32,
    turn_speed: TurnSpeed,
    elapsed_millis: u32,
) -> Velocity {
    let gap = distance_squared(from, to);
    if gap < ARRIVAL_DISTANCE * ARRIVAL_DISTANCE {
        Velocity { heading: velocity.heading, speed: 0 }
    } else if gap < FAST_ROTATE_DISTANCE * FAST_ROTATE_DISTANCE || velocity.speed
        < ARRIVAL_DISTANCE {
        Velocity { heading: bearing % FULL_TURN, speed: VIRUS_SPEED }
    } else {
        Velocity {
            heading: spec_rotate_towards(
                velocity.heading as int,
                bearing as int,
                turn_speed.0 * elapsed_millis,
            ) as u32,
            speed: velocity.speed,
        }
    }
}

/// Steers a seeker; see [`spec_steer`].
pub fn steer(
    velocity: Velocity,
    from: Point,
    to: Point,
    bearing: u32,
    turn_speed: TurnSpeed,
    elapsed_millis: u32,
) -> (steered: Velocity)
    ensures
        steered == spec_steer(velocity, from, to, bearing, turn_speed, elapsed_millis),
{
    let dx: i64 = to.x as i64 - from.x as i64;
    let dy: i64 = to.y as i64 - from.y as i64;
    assert(0 <= dx * dx <= 0x1_0000_0000 * 0x1_0000_0000) by (nonlinear_arith)
        requires
            -0x1_0000_0000 <= dx <= 0x1_0000_0000,
    ;
    assert(0 <= dy * dy <= 0x1_0000_0000 * 0x1_0000_0000) by (nonlinear_arith)
        requires
            -0x1_0000_0000 <= dy <= 0x1_0000_0000,
    ;
    let gap: i128 = (dx as i128) * (dx as i128) + (dy as i128) * (dy as i128);
    let arrival: i128 = (ARRIVAL_DISTANCE * ARRIVAL_DISTANCE) as i128;
    let fast: i128 = (FAST_ROTATE_DISTANCE * FAST_ROTATE_DISTANCE) as i128;
    if gap < arrival {
        Velocity { heading: velocity.heading, speed: 0 }
    } else if gap < fast || (velocity.speed as u64) < ARRIVAL_DISTANCE {
        Velocity { heading: bearing % FULL_TURN, speed: VIRUS_SPEED }
    } else {
        assert(0 <= turn_speed.0 * elapsed_millis <= 0xffff_ffff * 0xffff_ffff)
            by (nonlinear_arith);
        let limit: u64 = turn_speed.0 as u64 * elapsed_millis as u64;
        Velocity { heading: rotate_towards(velocity.heading, bearing, limit), speed: velocity.speed }
    }
}

/// Whether the entity at `seeker` is steered: it lives, moves, can turn, and
/// holds a target that lives.
pub open spec fn is_steered(world: Seq<EntityView>, seeker: EntityId) -> bool {
    &&& is_live(world, seeker)
    &&& world[seeker as int].velocity is Some
    &&& world[seeker as int].turn_speed is Some
    &&& world[seeker as int].targeting is Some
    &&& is_live(world, world[seeker as int].targeting.unwrap().0)
}

/// `world` after the entity at `seeker` was steered towards its target, which
/// lies in direction `bearing`. An entity that is not steered stays as it is.
pub open spec fn velocity_set(
    world: Seq<EntityView>,
    seeker: EntityId,
    bearing: u32,
    elapsed_millis: u32,
) -> Seq<EntityView> {
    if is_steered(world, seeker) {
        let entity = world[seeker as int];
        let target = world[entity.targeting.unwrap().0 as int];
        world.update(
            seeker as int,
            EntityView {
                velocity: Some(
                    spec_steer(
                        entity.velocity->0,
                        entity.transform.translation,
                        target.transform.translation,
                        bearing,
                        entity.turn_speed->0,
                        elapsed_millis,
                    ),
                ),
                ..entity
            },
        )
    } else {
        world
    }
}

/// Steers the entity at `seeker` towards the target it holds.
///
/// `bearing` is the direction from the seeker to its target, in millionths of a
/// radian; the caller works it out from the two positions.
pub fn set_velocity(world: &mut World, seeker: EntityId, bearing: u32, elapsed_millis: u32)
    ensures
        final(world)@ == velocity_set(old(world)@, seeker, bearing, elapsed_millis),
{
    if !world.is_alive(seeker) {
        return ;
    }
    assert(world.entities@[seeker as int]@ == world@[seeker as int]);
    let entity = &world.entities[seeker];
    let steered = match (entity.velocity, entity.turn_speed, entity.targeting) {
        (Some(velocity), Some(turn_speed), Some(Targeting(target))) => {
            if world.is_alive(target) {
                assert(world.entities@[target as int]@ == world@[target as int]);
                Some(
                    steer(
                        velocity,
                        entity.transform.translation,
                        world.entities[target].transform.translation,
                        bearing,
                        turn_speed,
                        elapsed_millis,
                    ),
                )
            } else {
                None
            }
        },
        _ => None,
    };
    match steered {
        Some(velocity) => {
            world.entities[seeker].velocity = Some(velocity);
            assert(world@ =~= velocity_set(old(world)@, seeker, bearing, elapsed_millis));
        },
        None => {},
    }
}

} // verus!
