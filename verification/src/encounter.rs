//! The rules that decide what a contact between two entities does.
//!
//! Three rules, tried in this order for every event. A hostile that meets a
//! host attaches to it and infects it. A hostile that has not attached and
//! meets the player or an ally is destroyed. Two entities marked for it
//! destroy each other, unless their classes put them under one of the first
//! two rules. Destruction is put down on a list and carried out once all
//! events are through; an entity on the list takes no further part.

use crate::collision::CollisionEvent;
use crate::host::{can_infect, handle_infection, infection_handled, Infected};
use crate::player::{handle_virus_collision, is_vulnerable};
use crate::world::{despawned_all, died_between, is_live, EntityId, EntityView, World};
use vstd::prelude::*;

verus! {

/// What a contact comes to.
#[derive(Clone, Copy, Debug, PartialEq, Eq, Structural)]
pub enum Encounter {
    /// The hostile attaches to the host.
    Infection { hostile: EntityId, host: EntityId },
    /// The hostile is destroyed; the defender that it met is not.
    Defence { hostile: EntityId },
    /// Both entities are destroyed.
    MutualDestruction,
    /// Nothing happens.
    Nothing,
}

/// Whether `defender` destroys `hostile` on contact: the living player, or a
/// living ally, meets a hostile that has not attached.
pub open spec fn can_destroy(world: Seq<EntityView>, defender: EntityId, hostile: EntityId)
    -> bool {
    &&& defender != hostile
    &&& is_live(world, defender)
    &&& world[defender as int].player is Some || world[defender as int].seek_virus is Some
    &&& world[defender as int].hostile is None
    &&& is_vulnerable(world, hostile)
}

/// Whether the classes of the two entities put their contacts under the rule
/// of infection or of defence: one is a hostile, and the other, no hostile, is
/// a host, the player or an ally.
pub open spec fn is_governed(a: EntityView, b: EntityView) -> bool {
    ||| a.hostile is Some && b.hostile is None && (b.host is Some || b.player is Some
        || b.seek_virus is Some)
    ||| b.hostile is Some && a.hostile is None && (a.host is Some || a.player is Some
        || a.seek_virus is Some)
}

/// Whether `a` and `b` destroy each other on contact.
pub open spec fn can_collide_fatally(world: Seq<EntityView>, a: EntityId, b: EntityId) -> bool {
    &&& a != b
    &&& is_live(world, a)
    &&& is_live(world, b)
    &&& world[a as int].despawn_on_contact is Some
    &&& world[b as int].despawn_on_contact is Some
    &&& !is_governed(world[a as int], world[b as int])
}

/// What the contact of `a` and `b` comes to, by the first rule that applies.
pub open spec fn spec_encounter(world: Seq<EntityView>, a: EntityId, b: EntityId) -> Encounter {
    if can_infect(world, a, b) {
        Encounter::Infection { hostile: a, host: b }
    } else if can_infect(world, b, a) {
        Encounter::Infection { hostile: b, host: a }
    } else if can_destroy(world, a, b) {
        Encounter::Defence { hostile: b }
    } else if can_destroy(world, b, a) {
        Encounter::Defence { hostile: a }
    } else if can_collide_fatally(world, a, b) {
        Encounter::MutualDestruction
    } else {
        Encounter::Nothing
    }
}

fn infects(world: &World, collider: EntityId, target: EntityId) -> (yes: bool)
    ensures
        yes == can_infect(world@, collider, target),
{
    if collider == target || !world.is_alive(collider) || !world.is_alive(target) {
        return false;
    }
    assert(world.entities@[collider as int]@ == world@[collider as int]);
    assert(world.entities@[target as int]@ == world@[target as int]);
    let hostile = &world.entities[collider];
    let host = &world.entities[target];
    hostile.hostile.is_some() && hostile.velocity.is_some() && hostile.virus_attached.is_none()
        && host.host.is_some() && host.hostile.is_none()
}

fn destroys(world: &World, defender: EntityId, hostile: EntityId) -> (yes: bool)
    ensures
        yes == can_destroy(world@, defender, hostile),
{
    if defender == hostile || !world.is_alive(defender) || !world.is_alive(hostile) {
        return false;
    }
    assert(world.entities@[defender as int]@ == world@[defender as int]);
    assert(world.entities@[hostile as int]@ == world@[hostile as int]);
    let first = &world.entities[defender];
    let second = &world.entities[hostile];
    (first.player.is_some() || first.seek_virus.is_some()) && first.hostile.is_none()
        && second.hostile.is_some() && second.virus_attached.is_none()
}

fn collides_fatally(world: &World, a: EntityId, b: EntityId) -> (yes: bool)
    ensures
        yes == can_collide_fatally(world@, a, b),
{
    if a == b || !world.is_alive(a) || !world.is_alive(b) {
        return false;
    }
    assert(world.entities@[a as int]@ == world@[a as int]);
    assert(world.entities@[b as int]@ == world@[b as int]);
    let first = &world.entities[a];
    let second = &world.entities[b];
    let governed = (first.hostile.is_some() && second.hostile.is_none() && (second.host.is_some()
        || second.player.is_some() || second.seek_virus.is_some())) || (second.hostile.is_some()
        && first.hostile.is_none() && (first.host.is_some() || first.player.is_some()
        || first.seek_virus.is_some()));
    first.despawn_on_contact.is_some() && second.despawn_on_contact.is_some() && !governed
}

/// Classifies the contact of `a` and `b`.
pub fn encounter(world: &World, a: EntityId, b: EntityId) -> (outcome: Encounter)
    ensures
        outcome == spec_encounter(world@, a, b),
{
    if infects(world, a, b) {
        Encounter::Infection { hostile: a, host: b }
    } else if infects(world, b, a) {
        Encounter::Infection { hostile: b, host: a }
    } else if destroys(world, a, b) {
        Encounter::Defence { hostile: b }
    } else if destroys(world, b, a) {
        Encounter::Defence { hostile: a }
    } else if collides_fatally(world, a, b) {
        Encounter::MutualDestruction
    } else {
        Encounter::Nothing
    }
}

/// Where the resolution of a tick's events stands: the world so far, and the
/// entities put down for destruction.
pub struct Resolution {
    pub world: Seq<EntityView>,
    pub doomed: Seq<EntityId>,
}

/// Whether `id` still takes part: it lives and is not put down for destruction.
pub open spec fn stands(resolution: Resolution, id: EntityId) -> bool {
    is_live(resolution.world, id) && !resolution.doomed.contains(id)
}

/// The resolution after one more event. An event with an entity that no longer
/// takes part is passed over.
pub open spec fn event_resolved(resolution: Resolution, event: CollisionEvent, infection: Infected)
    -> Resolution {
    let a = event.entity;
    let b = event.collided_entity;
    if stands(resolution, a) && stands(resolution, b) {
        match spec_encounter(resolution.world, a, b) {
            Encounter::Infection { hostile, host } => Resolution {
                world: infection_handled(resolution.world, hostile, host, infection),
                doomed: resolution.doomed,
            },
            Encounter::Defence { hostile } => Resolution {
                world: resolution.world,
                doomed: resolution.doomed.push(hostile),
            },
            Encounter::MutualDestruction => Resolution {
                world: resolution.world,
                doomed: resolution.doomed.push(a).push(b),
            },
            Encounter::Nothing => resolution,
        }
    } else {
        resolution
    }
}

/// The resolution after the first `k` of `events`, taken in order.
pub open spec fn events_resolved(
    start: Resolution,
    events: Seq<CollisionEvent>,
    k: int,
    infection: Infected,
) -> Resolution
    decreases k,
{
    if k <= 0 {
        start
    } else {
        event_resolved(events_resolved(start, events, k - 1, infection), events[k - 1], infection)
    }
}

/// `world` once `events` are resolved and the destruction they call for is
/// carried out.
pub open spec fn encounters_resolved(
    world: Seq<EntityView>,
    events: Seq<CollisionEvent>,
    infection: Infected,
) -> Seq<EntityView> {
    let end = events_resolved(
        Resolution { world, doomed: Seq::empty() },
        events,
        events.len() as int,
        infection,
    );
    despawned_all(end.world, end.doomed, end.doomed.len() as int)
}

fn is_listed(list: &Vec<EntityId>, id: EntityId) -> (found: bool)
    ensures
        found == list@.contains(id),
{
    let mut i: usize = 0;
    while i < list.len()
        invariant
            i <= list.len(),
            forall|j: int| 0 <= j < i ==> list@[j] != id,
        decreases list.len() - i,
    {
        if list[i] == id {
            return true;
        }
        i += 1;
    }
    false
}

/// Resolves the events of a tick, in order, and then destroys what they put
/// down for destruction, each entity with those tied to it. A hostile that
/// attaches infects its host with `infection`, if the host is healthy.
/// Returns the entities destroyed, in rising order.
pub fn resolve_encounters(world: &mut World, events: &Vec<CollisionEvent>, infection: Infected)
    -> (destroyed: Vec<EntityId>)
    ensures
        final(world)@ == encounters_resolved(old(world)@, events@, infection),
        destroyed@ == died_between(old(world)@, final(world)@),
{
    let flags = world.alive_flags();
    let ghost start = Resolution { world: world@, doomed: Seq::empty() };
    let mut doomed: Vec<EntityId> = Vec::new();
    let mut k: usize = 0;
    while k < events.len()
        invariant
            k <= events.len(),
            events_resolved(start, events@, k as int, infection) == (Resolution {
                world: world@,
                doomed: doomed@,
            }),
        decreases events.len() - k,
    {
        let ghost now = Resolution { world: world@, doomed: doomed@ };
        let event = events[k];
        let a = event.entity;
        let b = event.collided_entity;
        if world.is_alive(a) && world.is_alive(b) && !is_listed(&doomed, a) && !is_listed(
            &doomed,
            b,
        ) {
            match encounter(world, a, b) {
                Encounter::Infection { hostile, host } => {
                    handle_infection(world, hostile, host, infection);
                },
                Encounter::Defence { hostile } => {
                    handle_virus_collision(world, hostile, &mut doomed);
                },
                Encounter::MutualDestruction => {
                    doomed.push(a);
                    doomed.push(b);
                },
                Encounter::Nothing => {},
            }
        }
        assert((Resolution { world: world@, doomed: doomed@ }) == event_resolved(
            now,
            events@[k as int],
            infection,
        ));
        k += 1;
    }
    world.despawn_all(&doomed);
    world.died_since(&flags)
}

/// A contact that the rule of infection applies to is never one of mutual
/// destruction: not before the hostile attaches, and not after, in whatever
/// order the two are named and whatever marks they bear.
pub proof fn lemma_infection_excludes_destruction(
    world: Seq<EntityView>,
    hostile: EntityId,
    host: EntityId,
    infection: Infected,
)
    requires
        can_infect(world, hostile, host),
    ensures
        spec_encounter(world, hostile, host) == (Encounter::Infection { hostile, host }),
        spec_encounter(world, host, hostile) == (Encounter::Infection { hostile, host }),
        spec_encounter(infection_handled(world, hostile, host, infection), hostile, host)
            == Encounter::Nothing,
        spec_encounter(infection_handled(world, hostile, host, infection), host, hostile)
            == Encounter::Nothing,
{
}

/// Resolving the same event a second time changes nothing, whatever the
/// infection is configured to be by then.
pub proof fn lemma_event_resolved_once(
    resolution: Resolution,
    event: CollisionEvent,
    first: Infected,
    second: Infected,
)
    ensures
        event_resolved(event_resolved(resolution, event, first), event, second) == event_resolved(
            resolution,
            event,
            first,
        ),
{
    let a = event.entity;
    let b = event.collided_entity;
    let once = event_resolved(resolution, event, first);
    if stands(resolution, a) && stands(resolution, b) {
        match spec_encounter(resolution.world, a, b) {
            Encounter::Infection { hostile, host } => {
                lemma_infection_excludes_destruction(resolution.world, hostile, host, first);
                assert(is_live(once.world, a) && is_live(once.world, b));
            },
            Encounter::Defence { hostile } => {
                let doomed = resolution.doomed.push(hostile);
                assert(doomed[doomed.len() - 1] == hostile);
                assert(!stands(once, hostile));
            },
            Encounter::MutualDestruction => {
                let doomed = resolution.doomed.push(a).push(b);
                assert(doomed[doomed.len() - 1] == b);
                assert(!stands(once, b));
            },
            Encounter::Nothing => {},
        }
    }
}

proof fn lemma_length_kept(
    start: Resolution,
    events: Seq<CollisionEvent>,
    k: int,
    infection: Infected,
)
    ensures
        events_resolved(start, events, k, infection).world.len() == start.world.len(),
    decreases k,
{
    if k > 0 {
        lemma_length_kept(start, events, k - 1, infection);
    }
}

/// Resolving encounters neither adds an identifier to the world nor takes one
/// away: what is destroyed keeps its place, dead.
pub proof fn lemma_resolving_keeps_identifiers(
    world: Seq<EntityView>,
    events: Seq<CollisionEvent>,
    infection: Infected,
)
    ensures
        encounters_resolved(world, events, infection).len() == world.len(),
{
    let start = Resolution { world, doomed: Seq::empty() };
    let end = events_resolved(start, events, events.len() as int, infection);
    lemma_length_kept(start, events, events.len() as int, infection);
    crate::world::lemma_despawned_all_length(end.world, end.doomed, end.doomed.len() as int);
}

} // verus!
