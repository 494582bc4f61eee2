//! Contact detection and the events made of it.

pub use crate::geometry::Hitbox;
use crate::geometry::{lemma_overlap_symmetric, overlaps, spec_overlaps};
use crate::world::{in_class, EntityClass, EntityId, EntityView, World};
use bevy::platform::collections::HashMap;
use bevy::platform::hash::FixedHasher;
use vstd::prelude::*;

verus! {

/// `FixedHasher` of `bevy::platform::hash`, the hasher of the map below. Nothing
/// is claimed of it.
#[verifier::external_type_specification]
#[verifier::external_body]
pub struct ExFixedHasher(FixedHasher);

/// `HashMap` of `bevy::platform::collections`. What a map holds is known to
/// the proofs only through [`contact_lists`].
#[verifier::external_type_specification]
#[verifier::external_body]
#[verifier::reject_recursive_types(K)]
#[verifier::reject_recursive_types(V)]
#[verifier::reject_recursive_types(S)]
pub struct ExHashMap<K, V, S>(HashMap<K, V, S>);

/// A scratch map from an entity to the entities found touching it.
pub type ContactMap = HashMap<EntityId, Vec<EntityId>, FixedHasher>;

/// The contact lists that a `HashMap` holds, by the entity they belong to: its
/// keys and the value kept for each. Believed, with what the three functions
/// below say of it.
pub uninterp spec fn contact_lists(map: ContactMap) -> Map<EntityId, Seq<EntityId>>;

/// No list for any entity.
pub open spec fn no_lists() -> Map<EntityId, Seq<EntityId>> {
    Map::empty()
}

/// The list that `lists` holds for `key`; the empty one where it holds none.
pub open spec fn list_of(lists: Map<EntityId, Seq<EntityId>>, key: EntityId) -> Seq<EntityId> {
    if lists.dom().contains(key) {
        lists[key]
    } else {
        Seq::empty()
    }
}

/// `HashMap::new` of `bevy::platform::collections`: the map it makes holds no list.
#[verifier::external_body]
fn new_contact_lists() -> (made: ContactMap)
    ensures
        contact_lists(made) == no_lists(),
{
    HashMap::new()
}

/// `HashMap::entry`, then `Entry::or_insert_with` with `Vec::new`: hands out
/// the list kept for `key`, which starts out empty where the map had none.
/// What the caller makes of the list is what the map then keeps for `key`; no
/// other list changes.
#[verifier::external_body]
fn contacts_entry(map: &mut ContactMap, key: EntityId) -> (list: &mut Vec<EntityId>)
    ensures
        list@ == list_of(contact_lists(*old(map)), key),
        contact_lists(*final(map)) == contact_lists(*old(map)).insert(key, final(list)@),
{
    map.entry(key).or_insert_with(Vec::new)
}

/// `HashMap::get`: the list kept for `key`, and `None` where the map keeps none.
#[verifier::external_body]
fn recorded_contacts(map: &ContactMap, key: EntityId) -> (list: Option<&Vec<EntityId>>)
    ensures
        list is Some <==> contact_lists(*map).dom().contains(key),
        list is Some ==> list->0@ == contact_lists(*map)[key],
{
    map.get(&key)
}

/// A shape, and the entities that touched it when contacts were last detected.
#[derive(Clone, Debug)]
pub struct Collider {
    pub hitbox: Hitbox,
    pub colliding_entities: Vec<EntityId>,
}

/// What a [`Collider`] holds, as a mathematical value.
pub struct ColliderView {
    pub hitbox: Hitbox,
    pub colliding_entities: Seq<EntityId>,
}

impl View for Collider {
    type V = ColliderView;

    open spec fn view(&self) -> ColliderView {
        ColliderView { hitbox: self.hitbox, colliding_entities: self.colliding_entities@ }
    }
}

/// Marks an entity that is destroyed, with the other one, when it touches
/// another entity so marked.
#[derive(Clone, Copy, Debug, PartialEq, Eq, Structural)]
pub struct DespawnOnContact;

impl Collider {
    /// A collider of the given shape that touches nothing yet.
    pub fn from_hitbox(hitbox: Hitbox) -> (collider: Collider)
        ensures
            collider@ == (ColliderView { hitbox, colliding_entities: Seq::empty() }),
    {
        Collider { hitbox: hitbox, colliding_entities: Vec::new() }
    }
}

/// Whether an entity takes part in contact detection: it lives and has a collider.
pub open spec fn can_collide(entity: EntityView) -> bool {
    entity.alive && entity.collider is Some
}

/// Whether `a` and `b` are two different entities of `world` that take part in
/// detection and whose shapes overlap where they stand.
pub open spec fn touching(world: Seq<EntityView>, a: int, b: int) -> bool {
    &&& 0 <= a < world.len()
    &&& 0 <= b < world.len()
    &&& a != b
    &&& can_collide(world[a])
    &&& can_collide(world[b])
    &&& spec_overlaps(
        world[a].collider->0.hitbox,
        world[a].transform,
        world[b].collider->0.hitbox,
        world[b].transform,
    )
}

/// The entities below `n` that touch `a`, in rising order.
pub open spec fn contacts_among(world: Seq<EntityView>, a: int, n: int) -> Seq<EntityId>
    decreases n,
{
    if n <= 0 {
        Seq::empty()
    } else if touching(world, a, n - 1) {
        contacts_among(world, a, n - 1).push((n - 1) as usize)
    } else {
        contacts_among(world, a, n - 1)
    }
}

/// All the entities that touch `a`, in rising order.
pub open spec fn contacts_of(world: Seq<EntityView>, a: int) -> Seq<EntityId> {
    contacts_among(world, a, world.len() as int)
}

/// `entity` with the contact list of its collider, if it has one, replaced.
pub open spec fn with_contacts(entity: EntityView, contacts: Seq<EntityId>) -> EntityView {
    EntityView {
        collider: match entity.collider {
            Some(c) => Some(ColliderView { hitbox: c.hitbox, colliding_entities: contacts }),
            None => None,
        },
        ..entity
    }
}

/// `world` after contact detection: every collider lists exactly the entities
/// that touch its owner now, and nothing else has changed.
pub open spec fn detected(world: Seq<EntityView>) -> Seq<EntityView> {
    Seq::new(world.len(), |a: int| with_contacts(world[a], contacts_of(world, a)))
}

/// The contact set of `a`: empty for an entity without a collider, and for an
/// identifier that names none.
pub open spec fn contact_set(world: Seq<EntityView>, a: int) -> Set<EntityId> {
    if 0 <= a < world.len() && world[a].collider is Some {
        world[a].collider->0.colliding_entities.to_set()
    } else {
        Set::empty()
    }
}

/// Rebuilds every contact list from the shapes and places of the entities.
///
/// Every pair of different living entities with colliders is tested, in both
/// orders. What a list held before is dropped.
pub fn collision_detection(world: &mut World)
    ensures
        final(world)@ == detected(old(world)@),
{
    let ghost before = world@;
    let n = world.entities.len();
    let mut colliding_entities = new_contact_lists();
    let mut a: usize = 0;
    while a < n
        invariant
            a <= n,
            n == world.entities.len(),
            world@ == before,
            forall|k: EntityId|
                list_of(contact_lists(colliding_entities), k) == if k < a {
                    contacts_of(before, k as int)
                } else {
                    Seq::<EntityId>::empty()
                },
        decreases n - a,
    {
        let mut b: usize = 0;
        while b < n
            invariant
                a < n,
                b <= n,
                n == world.entities.len(),
                world@ == before,
                forall|k: EntityId|
                    list_of(contact_lists(colliding_entities), k) == if k < a {
                        contacts_of(before, k as int)
                    } else if k == a {
                        contacts_among(before, a as int, b as int)
                    } else {
                        Seq::<EntityId>::empty()
                    },
            decreases n - b,
        {
            let hit = a != b && pair_hit(world, a, b);
            let ghost lists = contact_lists(colliding_entities);
            if hit {
                contacts_entry(&mut colliding_entities, a).push(b);
            }
            assert forall|k: EntityId|
                list_of(contact_lists(colliding_entities), k) == if k < a {
                    contacts_of(before, k as int)
                } else if k == a {
                    contacts_among(before, a as int, b as int + 1)
                } else {
                    Seq::<EntityId>::empty()
                } by {
                assert(list_of(lists, k) == if k < a {
                    contacts_of(before, k as int)
                } else if k == a {
                    contacts_among(before, a as int, b as int)
                } else {
                    Seq::<EntityId>::empty()
                });
            }
            b += 1;
        }
        a += 1;
    }
    let mut i: usize = 0;
    while i < n
        invariant
            i <= n,
            n == world.entities.len(),
            n == before.len(),
            forall|k: EntityId|
                list_of(contact_lists(colliding_entities), k) == if k < n {
                    contacts_of(before, k as int)
                } else {
                    Seq::<EntityId>::empty()
                },
            forall|j: int| 0 <= j < i ==> world@[j] == with_contacts(before[j], contacts_of(before, j)),
            forall|j: int| i <= j < n ==> world@[j] == before[j],
        decreases n - i,
    {
        let fresh = match recorded_contacts(&colliding_entities, i) {
            Some(collisions) => copy_of(collisions),
            None => Vec::new(),
        };
        assert(fresh@ == list_of(contact_lists(colliding_entities), i));
        let ghost now = world@;
        match &mut world.entities[i].collider {
            Some(collider) => {
                collider.colliding_entities = fresh;
            },
            None => {},
        }
        assert forall|j: int| 0 <= j < i + 1 implies world@[j] == with_contacts(
            before[j],
            contacts_of(before, j),
        ) by {
            if j < i {
                assert(world@[j] == now[j]);
            }
        }
        assert forall|j: int| i + 1 <= j < n implies world@[j] == before[j] by {
            assert(world@[j] == now[j]);
        }
        i += 1;
    }
    assert(world@ =~= detected(before));
}

/// Whether the living entities `a` and `b` both have colliders that overlap.
fn pair_hit(world: &World, a: EntityId, b: EntityId) -> (hit: bool)
    requires
        a < world@.len(),
        b < world@.len(),
        a != b,
    ensures
        hit == touching(world@, a as int, b as int),
{
    let first = &world.entities[a];
    let second = &world.entities[b];
    assert(first@ == world@[a as int]);
    assert(second@ == world@[b as int]);
    if !first.alive || !second.alive {
        return false;
    }
    match (&first.collider, &second.collider) {
        (Some(collider_a), Some(collider_b)) => overlaps(
            &collider_a.hitbox,
            &first.transform,
            &collider_b.hitbox,
            &second.transform,
        ),
        _ => false,
    }
}

fn copy_of(list: &Vec<EntityId>) -> (copy: Vec<EntityId>)
    ensures
        copy@ == list@,
{
    let mut copy: Vec<EntityId> = Vec::new();
    let mut i: usize = 0;
    while i < list.len()
        invariant
            i <= list.len(),
            copy@ == list@.take(i as int),
        decreases list.len() - i,
    {
        copy.push(list[i]);
        assert(list@.take(i as int + 1) == list@.take(i as int).push(list@[i as int]));
        i += 1;
    }
    assert(list@.take(list@.len() as int) == list@);
    copy
}

/// An identifier is in `contacts_among(world, a, n)` exactly when it is below
/// `n` and touches `a`.
pub proof fn lemma_contacts_among(world: Seq<EntityView>, a: int, n: int, b: EntityId)
    requires
        n <= usize::MAX + 1,
    ensures
        contacts_among(world, a, n).contains(b) <==> b < n && touching(world, a, b as int),
    decreases n,
{
    if n > 0 {
        lemma_contacts_among(world, a, n - 1, b);
        let rest = contacts_among(world, a, n - 1);
        if touching(world, a, n - 1) {
            let last = (n - 1) as usize;
            assert(rest.push(last).last() == last);
            assert forall|i: int| 0 <= i < rest.len() implies rest.push(last)[i] == rest[i] by {}
            if b == last {
                assert(rest.push(last)[rest.len() as int] == b);
            } else if rest.contains(b) {
                let i = choose|i: int| 0 <= i < rest.len() && rest[i] == b;
                assert(rest.push(last)[i] == b);
            }
        }
    }
}

/// Two entities touch whichever of them is named first.
pub proof fn lemma_touching_symmetric(world: Seq<EntityView>, a: int, b: int)
    ensures
        touching(world, a, b) == touching(world, b, a),
{
    if 0 <= a < world.len() && 0 <= b < world.len() && can_collide(world[a]) && can_collide(
        world[b],
    ) {
        lemma_overlap_symmetric(
            world[a].collider->0.hitbox,
            world[a].transform,
            world[b].collider->0.hitbox,
            world[b].transform,
        );
    }
}

/// After detection a contact set holds exactly the entities that touch its
/// owner in the world as it stands, whatever the set held before.
pub proof fn lemma_detection_fresh(world: Seq<EntityView>, a: EntityId, b: EntityId)
    requires
        world.len() <= usize::MAX,
    ensures
        contact_set(detected(world), a as int).contains(b) <==> touching(
            detected(world),
            a as int,
            b as int,
        ),
        touching(detected(world), a as int, b as int) == touching(world, a as int, b as int),
{
    let after = detected(world);
    lemma_contacts_among(world, a as int, world.len() as int, b);
    if a < world.len() && b < world.len() {
        assert(after[a as int] == with_contacts(world[a as int], contacts_of(world, a as int)));
        assert(after[b as int] == with_contacts(world[b as int], contacts_of(world, b as int)));
    }
}

/// After detection, `b` is in the contact set of `a` exactly when `a` is in the
/// contact set of `b`.
pub proof fn lemma_detection_symmetric(world: Seq<EntityView>, a: EntityId, b: EntityId)
    requires
        world.len() <= usize::MAX,
    ensures
        contact_set(detected(world), a as int).contains(b) <==> contact_set(
            detected(world),
            b as int,
        ).contains(a),
{
    lemma_detection_fresh(world, a, b);
    lemma_detection_fresh(world, b, a);
    lemma_touching_symmetric(world, a as int, b as int);
}

/// One entity met another.
#[derive(Clone, Copy, Debug, PartialEq, Eq, Structural)]
pub struct CollisionEvent {
    pub entity: EntityId,
    pub collided_entity: EntityId,
}

impl CollisionEvent {
    pub fn new(entity: EntityId, collided_entity: EntityId) -> (event: CollisionEvent)
        ensures
            event == (CollisionEvent { entity, collided_entity }),
    {
        CollisionEvent { entity, collided_entity }
    }
}

/// `list` followed by those of the first `k` of `found` that are not in it yet,
/// each once.
pub open spec fn contacts_merged(list: Seq<EntityId>, found: Seq<EntityId>, k: int) -> Seq<
    EntityId,
>
    decreases k,
{
    if k <= 0 {
        list
    } else {
        let so_far = contacts_merged(list, found, k - 1);
        if so_far.contains(found[k - 1]) {
            so_far
        } else {
            so_far.push(found[k - 1])
        }
    }
}

/// `world` after the contacts `found` elsewhere were added to those of the
/// entity `id`. Only a living entity with a collider takes contacts.
pub open spec fn contacts_added(world: Seq<EntityView>, id: EntityId, found: Seq<EntityId>) -> Seq<
    EntityView,
> {
    if id < world.len() && can_collide(world[id as int]) {
        world.update(
            id as int,
            with_contacts(
                world[id as int],
                contacts_merged(
                    world[id as int].collider->0.colliding_entities,
                    found,
                    found.len() as int,
                ),
            ),
        )
    } else {
        world
    }
}

fn is_contact(list: &Vec<EntityId>, id: EntityId) -> (found: bool)
    ensures
        found == list@.contains(id),
{
    let mut i: usize = 0;
    while i < list.len()
        invariant
            i <= list.len(),
            forall|j: int| 0 <= j < i ==> list@[j] != id,
        decreases list.len() - i,
    {
        if list[i] == id {
            return true;
        }
        i += 1;
    }
    false
}

/// Adds contacts that were found by other means than [`collision_detection`],
/// by a physics engine for one, to the contact list of the entity `id`: those
/// of `found` that the list does not hold yet go to its end, in order.
pub fn add_contacts(world: &mut World, id: EntityId, found: &Vec<EntityId>)
    ensures
        final(world)@ == contacts_added(old(world)@, id, found@),
{
    if !world.is_alive(id) {
        return ;
    }
    assert(world.entities@[id as int]@ == world@[id as int]);
    let mut merged = match &world.entities[id].collider {
        Some(collider) => copy_of(&collider.colliding_entities),
        None => {
            return ;
        },
    };
    let ghost list = merged@;
    let mut k: usize = 0;
    while k < found.len()
        invariant
            k <= found.len(),
            merged@ == contacts_merged(list, found@, k as int),
        decreases found.len() - k,
    {
        if !is_contact(&merged, found[k]) {
            merged.push(found[k]);
        }
        k += 1;
    }
    match &mut world.entities[id].collider {
        Some(collider) => {
            collider.colliding_entities = merged;
        },
        None => {},
    }
    assert(world@ =~= contacts_added(old(world)@, id, found@));
}

/// The events that the first `k` contacts of `a` give rise to, for `class`: one
/// for each contact that is not itself a living member of the class.
pub open spec fn events_among(world: Seq<EntityView>, class: EntityClass, a: int, k: int) -> Seq<
    CollisionEvent,
>
    decreases k,
{
    if k <= 0 {
        Seq::empty()
    } else {
        let other = world[a].collider->0.colliding_entities[k - 1];
        if in_class(world, other, class) {
            events_among(world, class, a, k - 1)
        } else {
            events_among(world, class, a, k - 1).push(
                CollisionEvent { entity: a as usize, collided_entity: other },
            )
        }
    }
}

/// The events that `a` gives rise to, for `class`: none unless `a` is a living
/// member of the class with a collider.
pub open spec fn events_of(world: Seq<EntityView>, class: EntityClass, a: int) -> Seq<
    CollisionEvent,
> {
    if 0 <= a < world.len() && in_class(world, a as usize, class) && world[a].collider is Some {
        events_among(world, class, a, world[a].collider->0.colliding_entities.len() as int)
    } else {
        Seq::empty()
    }
}

/// The events that the entities below `n` give rise to, for `class`, entity by
/// entity and contact by contact.
pub open spec fn events_upto(world: Seq<EntityView>, class: EntityClass, n: int) -> Seq<
    CollisionEvent,
>
    decreases n,
{
    if n <= 0 {
        Seq::empty()
    } else {
        events_upto(world, class, n - 1) + events_of(world, class, n - 1)
    }
}

/// Turns the contact lists of the living members of `class` into events.
///
/// A contact between two members of the class raises no event.
pub fn handle_collisions(world: &World, class: EntityClass) -> (events: Vec<CollisionEvent>)
    ensures
        events@ == events_upto(world@, class, world@.len() as int),
{
    let mut events: Vec<CollisionEvent> = Vec::new();
    let n = world.entities.len();
    let mut a: usize = 0;
    while a < n
        invariant
            a <= n,
            n == world@.len(),
            events@ == events_upto(world@, class, a as int),
        decreases n - a,
    {
        let ghost so_far = events@;
        if world.has_class(a, class) {
            assert(world.entities@[a as int]@ == world@[a as int]);
            match &world.entities[a].collider {
                Some(collider) => {
                    let contacts = &collider.colliding_entities;
                    let mut k: usize = 0;
                    while k < contacts.len()
                        invariant
                            k <= contacts.len(),
                            a < n,
                            n == world@.len(),
                            world@[a as int].collider is Some,
                            contacts@ == world@[a as int].collider->0.colliding_entities,
                            events@ == so_far + events_among(world@, class, a as int, k as int),
                        decreases contacts.len() - k,
                    {
                        let collided_entity = contacts[k];
                        if !world.has_class(collided_entity, class) {
                            events.push(CollisionEvent::new(a, collided_entity));
                        }
                        k += 1;
                    }
                },
                None => {},
            }
        }
        assert(events@ == so_far + events_of(world@, class, a as int));
        a += 1;
    }
    events
}

/// The events of a tick: those of the players, then those of the allies, of
/// the hostiles and of the hosts.
pub open spec fn all_events(world: Seq<EntityView>) -> Seq<CollisionEvent> {
    events_upto(world, EntityClass::Player, world.len() as int) + events_upto(
        world,
        EntityClass::Ally,
        world.len() as int,
    ) + events_upto(world, EntityClass::Hostile, world.len() as int) + events_upto(
        world,
        EntityClass::Host,
        world.len() as int,
    )
}

/// Raises the events of a tick, class by class.
pub fn dispatch_events(world: &World) -> (events: Vec<CollisionEvent>)
    ensures
        events@ == all_events(world@),
{
    let mut events = handle_collisions(world, EntityClass::Player);
    let mut allies = handle_collisions(world, EntityClass::Ally);
    let mut hostiles = handle_collisions(world, EntityClass::Hostile);
    let mut hosts = handle_collisions(world, EntityClass::Host);
    events.append(&mut allies);
    events.append(&mut hostiles);
    events.append(&mut hosts);
    events
}

/// An event is raised for `class` exactly when its first entity is a living
/// member of the class with a collider, its second entity is in the contact list
/// of the first, and the second is not a living member of the class.
pub proof fn lemma_events_cross_class(
    world: Seq<EntityView>,
    class: EntityClass,
    event: CollisionEvent,
)
    requires
        world.len() <= usize::MAX,
    ensures
        events_upto(world, class, world.len() as int).contains(event) <==> {
            &&& in_class(world, event.entity, class)
            &&& contact_set(world, event.entity as int).contains(event.collided_entity)
            &&& !in_class(world, event.collided_entity, class)
        },
{
    lemma_events_upto(world, class, world.len() as int, event);
    if event.entity < world.len() {
        lemma_events_of(world, class, event.entity as int, event);
    }
}

proof fn lemma_events_among(
    world: Seq<EntityView>,
    class: EntityClass,
    a: int,
    k: int,
    event: CollisionEvent,
)
    requires
        0 <= a < world.len() <= usize::MAX,
        world[a].collider is Some,
        k <= world[a].collider->0.colliding_entities.len(),
    ensures
        events_among(world, class, a, k).contains(event) <==> {
            &&& event.entity == a
            &&& !in_class(world, event.collided_entity, class)
            &&& exists|i: int|
                0 <= i < k && world[a].collider->0.colliding_entities[i] == event.collided_entity
        },
    decreases k,
{
    if k > 0 {
        lemma_events_among(world, class, a, k - 1, event);
        let contacts = world[a].collider->0.colliding_entities;
        let rest = events_among(world, class, a, k - 1);
        let other = contacts[k - 1];
        let made = CollisionEvent { entity: a as usize, collided_entity: other };
        if !in_class(world, other, class) {
            assert forall|i: int| 0 <= i < rest.len() implies rest.push(made)[i] == rest[i] by {}
            assert(rest.push(made)[rest.len() as int] == made);
            if rest.contains(event) {
                let i = choose|i: int| 0 <= i < rest.len() && rest[i] == event;
                assert(rest.push(made)[i] == event);
            }
            if event == made {
                assert(contacts[k - 1] == event.collided_entity);
            }
        }
    }
}

proof fn lemma_events_of(world: Seq<EntityView>, class: EntityClass, a: int, event: CollisionEvent)
    requires
        0 <= a < world.len() <= usize::MAX,
    ensures
        events_of(world, class, a).contains(event) <==> {
            &&& event.entity == a
            &&& in_class(world, event.entity, class)
            &&& contact_set(world, a).contains(event.collided_entity)
            &&& !in_class(world, event.collided_entity, class)
        },
{
    if in_class(world, a as usize, class) && world[a].collider is Some {
        let contacts = world[a].collider->0.colliding_entities;
        lemma_events_among(world, class, a, contacts.len() as int, event);
        if contacts.contains(event.collided_entity) {
            let i = choose|i: int| 0 <= i < contacts.len() && contacts[i] == event.collided_entity;
            assert(contacts[i] == event.collided_entity);
        }
    }
}

proof fn lemma_events_upto(world: Seq<EntityView>, class: EntityClass, n: int, event: CollisionEvent)
    requires
        n <= world.len() <= usize::MAX,
    ensures
        events_upto(world, class, n).contains(event) <==> event.entity < n && events_of(
            world,
            class,
            event.entity as int,
        ).contains(event),
    decreases n,
{
    if n > 0 {
        lemma_events_upto(world, class, n - 1, event);
        lemma_events_of(world, class, n - 1, event);
        let left = events_upto(world, class, n - 1);
        let right = events_of(world, class, n - 1);
        if left.contains(event) {
            let i = choose|i: int| 0 <= i < left.len() && left[i] == event;
            assert((left + right)[i] == event);
        }
        if right.contains(event) {
            let i = choose|i: int| 0 <= i < right.len() && right[i] == event;
            assert((left + right)[left.len() + i] == event);
        }
        if (left + right).contains(event) {
            let i = choose|i: int| 0 <= i < (left + right).len() && (left + right)[i] == event;
            if i < left.len() {
                assert(left[i] == event);
            } else {
                assert(right[i - left.len()] == event);
            }
        }
    }
}

} // verus!
