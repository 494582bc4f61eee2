use arena_core::collision::{
    collision_detection, dispatch_events, Collider, CollisionEvent, DespawnOnContact,
};
use arena_core::encounter::{encounter, resolve_encounters, Encounter};
use arena_core::enemy::{create_virus, Hostile, Targeting, VirusAttached};
use arena_core::geometry::{Hitbox, Offset, Point, Transform};
use arena_core::host::{handle_infection, Host, Infected};
use arena_core::movement::Velocity;
use arena_core::player::{handle_virus_collision, Player};
use arena_core::player_attack::SeekVirus;
use arena_core::world::{ChildOf, Entity, EntityId, World};

fn disc(x: i32, y: i32, radius: u32) -> Entity {
    let mut entity = Entity::bare(Transform::at(x, y));
    entity.collider = Some(Collider::from_hitbox(Hitbox::Circle { radius }));
    entity
}

fn virus(x: i32, y: i32) -> Entity {
    let mut entity = create_virus(1_000_000, Point::new(x, y));
    entity.collider = Some(Collider::from_hitbox(Hitbox::Circle { radius: 5_500 }));
    entity
}

fn host(x: i32, y: i32) -> Entity {
    let mut entity = Entity::bare(Transform::at(x, y));
    entity.collider = Some(Collider::from_hitbox(
        Hitbox::Rectangle { half_width: 17_500, half_height: 17_500 },
    ));
    entity.host = Some(Host);
    entity
}

fn player(x: i32, y: i32) -> Entity {
    let mut entity = disc(x, y, 20_000);
    entity.player = Some(Player);
    entity
}

fn contacts(world: &World, id: EntityId) -> Vec<EntityId> {
    world.entities[id].collider.as_ref().unwrap().colliding_entities.clone()
}

#[test]
fn player_destroys_the_hostile_it_overlaps() {
    let mut world = World::new();
    let p = world.spawn(player(0, 0));
    let v = world.spawn(virus(10_000, 0));
    collision_detection(&mut world);
    assert_eq!(contacts(&world, p), vec![v]);
    let events = dispatch_events(&world);
    let destroyed = resolve_encounters(&mut world, &events, Infected::default());
    assert_eq!(destroyed, vec![v]);
    assert!(world.is_alive(p));
    assert!(!world.is_alive(v));
    collision_detection(&mut world);
    assert!(contacts(&world, p).is_empty());
    assert!(dispatch_events(&world).is_empty());
}

#[test]
fn an_ally_destroys_a_hostile_and_stays() {
    let mut world = World::new();
    let mut ally = disc(0, 0, 20_000);
    ally.seek_virus = Some(SeekVirus);
    let a = world.spawn(ally);
    let v = world.spawn(virus(1_000, 0));
    assert_eq!(encounter(&world, a, v), Encounter::Defence { hostile: v });
    assert_eq!(encounter(&world, v, a), Encounter::Defence { hostile: v });
    let destroyed =
        resolve_encounters(&mut world, &vec![CollisionEvent::new(v, a)], Infected::default());
    assert_eq!(destroyed, vec![v]);
    assert!(world.is_alive(a));
}

#[test]
fn a_hostile_attaches_to_the_host_it_meets() {
    let mut world = World::new();
    let h = world.spawn(host(100_000, 50_000));
    let mut seeker = virus(90_000, 45_000);
    seeker.targeting = Some(Targeting(h));
    let v = world.spawn(seeker);
    assert_eq!(encounter(&world, v, h), Encounter::Infection { hostile: v, host: h });
    assert_eq!(encounter(&world, h, v), Encounter::Infection { hostile: v, host: h });
    assert!(handle_infection(&mut world, v, h, Infected::default()));
    let attached = world.get(v).unwrap();
    assert_eq!(attached.velocity, Some(Velocity { heading: 1_000_000, speed: 0 }));
    assert_eq!(attached.virus_attached, Some(VirusAttached));
    assert_eq!(attached.targeting, None);
    assert_eq!(
        attached.child_of,
        Some(ChildOf { parent: h, offset: Offset { dx: -10_000, dy: -5_000 } })
    );
    assert_eq!(attached.transform, Transform::at(90_000, 45_000));
    assert_eq!(attached.hostile, Some(Hostile::InfectThenDie));
    assert_eq!(world.get(h).unwrap().infected, Some(Infected::default()));
    assert_eq!(
        Infected::default(),
        Infected {
            current_micros_to_death: 7_000_000,
            initial_micros_to_death: 7_000_000,
            decay_multiplier: 1_000,
            num_offspring: 4,
        }
    );
}

#[test]
fn infection_of_an_infected_host_changes_nothing_of_it() {
    let mut world = World::new();
    let mut sick = host(0, 0);
    let record = Infected {
        current_micros_to_death: 3_141_592,
        initial_micros_to_death: 7_000_000,
        decay_multiplier: 500,
        num_offspring: 9,
    };
    sick.infected = Some(record);
    let h = world.spawn(sick);
    let v = world.spawn(virus(1_000, 0));
    let other = Infected::configured(1, 1, 1, true).unwrap();
    assert!(handle_infection(&mut world, v, h, other));
    assert_eq!(world.get(h).unwrap().infected, Some(record));
    assert_eq!(world.get(v).unwrap().virus_attached, Some(VirusAttached));
    // The same contact again: the hostile has attached, so nothing happens.
    assert!(!handle_infection(&mut world, v, h, Infected::default()));
    assert_eq!(world.get(h).unwrap().infected, Some(record));
    assert_eq!(encounter(&world, v, h), Encounter::Nothing);
}

#[test]
fn handle_infection_refuses_what_cannot_infect() {
    let mut world = World::new();
    let h = world.spawn(host(0, 0));
    let v = world.spawn(virus(0, 0));
    let p = world.spawn(player(0, 0));
    let mut still = virus(0, 0);
    still.velocity = None;
    let still = world.spawn(still);
    let gone = world.spawn(virus(0, 0));
    world.despawn(gone);
    assert!(!handle_infection(&mut world, v, v, Infected::default()));
    assert!(!handle_infection(&mut world, v, p, Infected::default()));
    assert!(!handle_infection(&mut world, p, h, Infected::default()));
    assert!(!handle_infection(&mut world, h, v, Infected::default()));
    assert!(!handle_infection(&mut world, still, h, Infected::default()));
    assert!(!handle_infection(&mut world, gone, h, Infected::default()));
    assert!(!handle_infection(&mut world, v, 99, Infected::default()));
    assert!(!handle_infection(&mut world, 99, h, Infected::default()));
    assert_eq!(world.get(h).unwrap().infected, None);
    assert_eq!(world.get(v).unwrap().virus_attached, None);
}

#[test]
fn handle_virus_collision_dooms_only_unattached_hostiles() {
    let mut world = World::new();
    let v = world.spawn(virus(0, 0));
    let mut attached = virus(0, 0);
    attached.virus_attached = Some(VirusAttached);
    let attached = world.spawn(attached);
    let h = world.spawn(host(0, 0));
    let mut doomed: Vec<EntityId> = vec![7];
    handle_virus_collision(&world, v, &mut doomed);
    handle_virus_collision(&world, attached, &mut doomed);
    handle_virus_collision(&world, h, &mut doomed);
    handle_virus_collision(&world, 50, &mut doomed);
    assert_eq!(doomed, vec![7, v]);
    assert!(world.is_alive(v));
}

#[test]
fn an_attached_hostile_is_safe_from_the_player() {
    let mut world = World::new();
    let p = world.spawn(player(0, 0));
    let mut attached = virus(0, 0);
    attached.virus_attached = Some(VirusAttached);
    attached.despawn_on_contact = Some(DespawnOnContact);
    let v = world.spawn(attached);
    world.entities[p].despawn_on_contact = Some(DespawnOnContact);
    assert_eq!(encounter(&world, p, v), Encounter::Nothing);
    assert_eq!(encounter(&world, v, p), Encounter::Nothing);
}

#[test]
fn marked_entities_destroy_each_other() {
    let mut world = World::new();
    let mut a = disc(0, 0, 5_000);
    a.despawn_on_contact = Some(DespawnOnContact);
    let a = world.spawn(a);
    let mut b = disc(1_000, 0, 5_000);
    b.despawn_on_contact = Some(DespawnOnContact);
    let b = world.spawn(b);
    let c = world.spawn(disc(2_000, 0, 5_000));
    assert_eq!(encounter(&world, a, b), Encounter::MutualDestruction);
    assert_eq!(encounter(&world, a, c), Encounter::Nothing);
    assert_eq!(encounter(&world, a, a), Encounter::Nothing);
    assert_eq!(encounter(&world, a, 12), Encounter::Nothing);
    let events = vec![CollisionEvent::new(a, b), CollisionEvent::new(b, a)];
    let destroyed = resolve_encounters(&mut world, &events, Infected::default());
    assert_eq!(destroyed, vec![a, b]);
    assert!(world.is_alive(c));
}

#[test]
fn two_marked_hostiles_destroy_each_other() {
    let mut world = World::new();
    let mut a = virus(0, 0);
    a.despawn_on_contact = Some(DespawnOnContact);
    let a = world.spawn(a);
    let mut b = virus(0, 0);
    b.despawn_on_contact = Some(DespawnOnContact);
    let b = world.spawn(b);
    assert_eq!(encounter(&world, a, b), Encounter::MutualDestruction);
}

#[test]
fn infection_goes_before_mutual_destruction() {
    let mut world = World::new();
    let mut h = host(0, 0);
    h.despawn_on_contact = Some(DespawnOnContact);
    let h = world.spawn(h);
    let mut v = virus(1_000, 0);
    v.despawn_on_contact = Some(DespawnOnContact);
    let v = world.spawn(v);
    let events = vec![CollisionEvent::new(v, h), CollisionEvent::new(h, v)];
    let destroyed = resolve_encounters(&mut world, &events, Infected::default());
    assert!(destroyed.is_empty());
    assert!(world.is_alive(h));
    assert!(world.is_alive(v));
    assert_eq!(world.get(v).unwrap().virus_attached, Some(VirusAttached));
    assert_eq!(world.get(h).unwrap().infected, Some(Infected::default()));
    // The next tick raises the same events; they come to nothing.
    let destroyed = resolve_encounters(&mut world, &events, Infected::default());
    assert!(destroyed.is_empty());
    assert!(world.is_alive(h));
    assert!(world.is_alive(v));
}

#[test]
fn a_doomed_entity_takes_no_further_part() {
    let mut world = World::new();
    let p = world.spawn(player(0, 0));
    let v = world.spawn(virus(1_000, 0));
    let h = world.spawn(host(2_000, 0));
    let events = vec![
        CollisionEvent::new(p, v),
        CollisionEvent::new(v, h),
        CollisionEvent::new(v, p),
        CollisionEvent::new(p, v),
    ];
    let destroyed = resolve_encounters(&mut world, &events, Infected::default());
    assert_eq!(destroyed, vec![v]);
    assert_eq!(world.get(h).unwrap().infected, None);
    assert_eq!(world.entities[v].virus_attached, None);
    // Events that name what is dead or was never there are passed over.
    let events = vec![CollisionEvent::new(p, v), CollisionEvent::new(p, 31), CollisionEvent::new(31, 32)];
    let destroyed = resolve_encounters(&mut world, &events, Infected::default());
    assert!(destroyed.is_empty());
    assert!(world.is_alive(p));
}

#[test]
fn destroying_a_host_destroys_what_is_attached() {
    let mut world = World::new();
    let mut h = host(0, 0);
    h.despawn_on_contact = Some(DespawnOnContact);
    let h = world.spawn(h);
    let v = world.spawn(virus(1_000, 0));
    let mut rock = disc(0, 0, 1_000);
    rock.despawn_on_contact = Some(DespawnOnContact);
    let rock = world.spawn(rock);
    let events = vec![CollisionEvent::new(v, h), CollisionEvent::new(h, rock)];
    let destroyed = resolve_encounters(&mut world, &events, Infected::default());
    assert_eq!(destroyed, vec![h, v, rock]);
}

#[test]
fn resolving_no_events_changes_nothing() {
    let mut world = World::new();
    let p = world.spawn(player(0, 0));
    let destroyed = resolve_encounters(&mut world, &Vec::new(), Infected::default());
    assert!(destroyed.is_empty());
    assert!(world.is_alive(p));
}
