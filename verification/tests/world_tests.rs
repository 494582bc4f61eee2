use arena_core::collision::{
    add_contacts, collision_detection, dispatch_events, handle_collisions, Collider,
    CollisionEvent,
};
use arena_core::enemy::Hostile;
use arena_core::geometry::{Hitbox, Offset, Transform};
use arena_core::host::Host;
use arena_core::player::Player;
use arena_core::player_attack::SeekVirus;
use arena_core::world::{ChildOf, Entity, EntityClass, EntityId, World};

fn disc(x: i32, y: i32, radius: u32) -> Entity {
    let mut entity = Entity::bare(Transform::at(x, y));
    entity.collider = Some(Collider::from_hitbox(Hitbox::Circle { radius }));
    entity
}

fn contacts(world: &World, id: EntityId) -> Vec<EntityId> {
    world.entities[id].collider.as_ref().unwrap().colliding_entities.clone()
}

#[test]
fn a_new_world_is_empty() {
    let world = World::new();
    assert_eq!(world.len(), 0);
    assert!(!world.is_alive(0));
    assert!(world.get(0).is_none());
}

#[test]
fn spawn_hands_out_rising_identifiers_and_revives() {
    let mut world = World::new();
    let mut dead = Entity::bare(Transform::at(1, 2));
    dead.alive = false;
    assert_eq!(world.spawn(dead), 0);
    assert_eq!(world.spawn(Entity::bare(Transform::at(3, 4))), 1);
    assert_eq!(world.len(), 2);
    assert!(world.is_alive(0));
    assert!(world.is_alive(1));
    assert!(!world.is_alive(2));
    assert_eq!(world.get(1).unwrap().transform, Transform::at(3, 4));
}

#[test]
fn from_hitbox_touches_nothing() {
    let collider = Collider::from_hitbox(Hitbox::Circle { radius: 3 });
    assert_eq!(collider.hitbox, Hitbox::Circle { radius: 3 });
    assert!(collider.colliding_entities.is_empty());
}

#[test]
fn collision_event_new_keeps_both_sides() {
    let event = CollisionEvent::new(4, 9);
    assert_eq!(event.entity, 4);
    assert_eq!(event.collided_entity, 9);
}

#[test]
fn despawn_takes_the_children_along() {
    let mut world = World::new();
    let host = world.spawn(Entity::bare(Transform::at(0, 0)));
    let mut child = Entity::bare(Transform::at(5, 5));
    child.child_of = Some(ChildOf { parent: host, offset: Offset { dx: 5, dy: 5 } });
    let child = world.spawn(child);
    let other = world.spawn(Entity::bare(Transform::at(9, 9)));
    let flags = world.alive_flags();
    assert_eq!(flags, vec![true, true, true]);
    world.despawn(host);
    assert!(!world.is_alive(host));
    assert!(!world.is_alive(child));
    assert!(world.is_alive(other));
    assert_eq!(world.died_since(&flags), vec![host, child]);
    assert_eq!(world.len(), 3);
    assert!(world.get(host).is_none());
}

#[test]
fn despawn_of_what_is_dead_or_absent_changes_nothing() {
    let mut world = World::new();
    let parent = world.spawn(Entity::bare(Transform::at(0, 0)));
    world.despawn(parent);
    let mut orphan = Entity::bare(Transform::at(1, 1));
    orphan.child_of = Some(ChildOf { parent, offset: Offset { dx: 1, dy: 1 } });
    let orphan = world.spawn(orphan);
    world.despawn(parent);
    world.despawn(77);
    assert!(world.is_alive(orphan));
    world.despawn_all(&vec![parent, 77, orphan, orphan]);
    assert!(!world.is_alive(orphan));
}

#[test]
fn membership_of_a_class_needs_life_and_marker() {
    let mut world = World::new();
    let mut player = Entity::bare(Transform::at(0, 0));
    player.player = Some(Player);
    let player = world.spawn(player);
    let mut virus = Entity::bare(Transform::at(0, 0));
    virus.hostile = Some(Hostile::InfectThenDie);
    let virus = world.spawn(virus);
    assert!(world.has_class(player, EntityClass::Player));
    assert!(!world.has_class(player, EntityClass::Hostile));
    assert!(world.has_class(virus, EntityClass::Hostile));
    assert!(!world.has_class(virus, EntityClass::Host));
    assert!(!world.has_class(virus, EntityClass::Ally));
    assert!(!world.has_class(5, EntityClass::Player));
    world.despawn(virus);
    assert!(!world.has_class(virus, EntityClass::Hostile));
}

#[test]
fn detection_is_symmetric() {
    let mut world = World::new();
    let a = world.spawn(disc(0, 0, 5_000));
    let b = world.spawn(disc(9_000, 0, 5_000));
    let c = world.spawn(disc(18_000, 0, 5_000));
    let d = world.spawn(disc(100_000, 0, 5_000));
    collision_detection(&mut world);
    assert_eq!(contacts(&world, a), vec![b]);
    assert_eq!(contacts(&world, b), vec![a, c]);
    assert_eq!(contacts(&world, c), vec![b]);
    assert_eq!(contacts(&world, d), Vec::<EntityId>::new());
    for x in 0..4 {
        for y in 0..4 {
            assert_eq!(contacts(&world, x).contains(&y), contacts(&world, y).contains(&x));
        }
    }
}

#[test]
fn detection_drops_stale_contacts() {
    let mut world = World::new();
    let a = world.spawn(disc(0, 0, 5_000));
    let b = world.spawn(disc(9_000, 0, 5_000));
    collision_detection(&mut world);
    assert_eq!(contacts(&world, a), vec![b]);
    world.entities[b].transform = Transform::at(50_000, 0);
    collision_detection(&mut world);
    assert!(contacts(&world, a).is_empty());
    assert!(contacts(&world, b).is_empty());
    world.entities[a].collider.as_mut().unwrap().colliding_entities = vec![b, b, 17];
    collision_detection(&mut world);
    assert!(contacts(&world, a).is_empty());
}

#[test]
fn detection_twice_gives_the_same_lists() {
    let mut world = World::new();
    let a = world.spawn(disc(0, 0, 5_000));
    let b = world.spawn(disc(3_000, 4_000, 0));
    collision_detection(&mut world);
    collision_detection(&mut world);
    assert_eq!(contacts(&world, a), vec![b]);
    assert_eq!(contacts(&world, b), vec![a]);
}

#[test]
fn detection_passes_over_the_dead_and_the_shapeless() {
    let mut world = World::new();
    let a = world.spawn(disc(0, 0, 5_000));
    let dead = world.spawn(disc(1_000, 0, 5_000));
    let bare = world.spawn(Entity::bare(Transform::at(0, 0)));
    world.entities[dead].collider.as_mut().unwrap().colliding_entities = vec![a];
    world.despawn(dead);
    collision_detection(&mut world);
    assert!(contacts(&world, a).is_empty());
    assert!(contacts(&world, dead).is_empty());
    assert!(world.entities[bare].collider.is_none());
}

#[test]
fn detection_in_an_empty_world_does_nothing() {
    let mut world = World::new();
    collision_detection(&mut world);
    assert_eq!(world.len(), 0);
    assert!(dispatch_events(&world).is_empty());
}

#[test]
fn contacts_within_a_class_raise_no_event() {
    let mut world = World::new();
    let mut first = disc(0, 0, 5_000);
    first.hostile = Some(Hostile::InfectThenDie);
    let first = world.spawn(first);
    let mut second = disc(1_000, 0, 5_000);
    second.hostile = Some(Hostile::InfectThenDie);
    let second = world.spawn(second);
    let mut host = disc(2_000, 0, 5_000);
    host.host = Some(Host);
    let host = world.spawn(host);
    collision_detection(&mut world);
    let events = handle_collisions(&world, EntityClass::Hostile);
    assert_eq!(events, vec![CollisionEvent::new(first, host), CollisionEvent::new(second, host)]);
    let events = handle_collisions(&world, EntityClass::Host);
    assert_eq!(events, vec![CollisionEvent::new(host, first), CollisionEvent::new(host, second)]);
    assert!(handle_collisions(&world, EntityClass::Player).is_empty());
}

#[test]
fn events_come_class_by_class() {
    let mut world = World::new();
    let mut host = disc(0, 0, 5_000);
    host.host = Some(Host);
    let host = world.spawn(host);
    let mut virus = disc(1_000, 0, 5_000);
    virus.hostile = Some(Hostile::InfectThenDie);
    let virus = world.spawn(virus);
    let mut ally = disc(2_000, 0, 5_000);
    ally.seek_virus = Some(SeekVirus);
    let ally = world.spawn(ally);
    let mut player = disc(3_000, 0, 5_000);
    player.player = Some(Player);
    let player = world.spawn(player);
    collision_detection(&mut world);
    let events = dispatch_events(&world);
    let expected = vec![
        CollisionEvent::new(player, host),
        CollisionEvent::new(player, virus),
        CollisionEvent::new(player, ally),
        CollisionEvent::new(ally, host),
        CollisionEvent::new(ally, virus),
        CollisionEvent::new(ally, player),
        CollisionEvent::new(virus, host),
        CollisionEvent::new(virus, ally),
        CollisionEvent::new(virus, player),
        CollisionEvent::new(host, virus),
        CollisionEvent::new(host, ally),
        CollisionEvent::new(host, player),
    ];
    assert_eq!(events, expected);
}

#[test]
fn an_event_is_raised_for_a_contact_that_is_gone() {
    let mut world = World::new();
    let mut player = disc(0, 0, 5_000);
    player.player = Some(Player);
    let player = world.spawn(player);
    world.entities[player].collider.as_mut().unwrap().colliding_entities = vec![40];
    let events = handle_collisions(&world, EntityClass::Player);
    assert_eq!(events, vec![CollisionEvent::new(player, 40)]);
}

#[test]
fn contacts_found_elsewhere_go_to_the_end_once() {
    let mut world = World::new();
    let a = world.spawn(disc(0, 0, 5_000));
    let b = world.spawn(disc(9_000, 0, 5_000));
    let bare = world.spawn(Entity::bare(Transform::at(0, 0)));
    collision_detection(&mut world);
    assert_eq!(contacts(&world, a), vec![b]);
    add_contacts(&mut world, a, &vec![7, b, 3, 7, a]);
    assert_eq!(contacts(&world, a), vec![b, 7, 3, a]);
    assert_eq!(contacts(&world, b), vec![a]);
    add_contacts(&mut world, a, &Vec::new());
    assert_eq!(contacts(&world, a), vec![b, 7, 3, a]);
    add_contacts(&mut world, bare, &vec![a]);
    assert!(world.entities[bare].collider.is_none());
    add_contacts(&mut world, 40, &vec![a]);
    world.despawn(b);
    add_contacts(&mut world, b, &vec![bare]);
    assert_eq!(contacts(&world, b), vec![a]);
    collision_detection(&mut world);
    assert!(contacts(&world, a).is_empty());
}
