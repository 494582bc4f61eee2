use arena_core::config::ConfigError;
use arena_core::enemy::{create_virus, Hostile, VIRUS_SPEED};
use arena_core::geometry::{Hitbox, Point, Transform};
use arena_core::host::{
    can_decay_cells, cells_die, decay_cell, handle_infection, random_headings, release_offspring,
    Host, Infected,
};
use arena_core::movement::{Speed, TurnSpeed, Velocity, FULL_TURN};
use arena_core::world::{Entity, World};
use rand::rngs::StdRng;
use rand::SeedableRng;

fn host(x: i32, y: i32) -> Entity {
    let mut entity = Entity::bare(Transform::at(x, y));
    entity.host = Some(Host);
    entity
}

#[test]
fn configured_refuses_a_timer_of_zero() {
    assert_eq!(Infected::configured(0, 1_000, 4, true), Err(ConfigError::NonPositiveTimer));
    assert_eq!(Infected::configured(0, 0, 0, true), Err(ConfigError::NonPositiveTimer));
    assert_eq!(Infected::configured(-1, 1_000, 4, true), Err(ConfigError::NonPositiveTimer));
    assert_eq!(Infected::configured(i64::MIN, 1, 1, false), Err(ConfigError::NonPositiveTimer));
}

#[test]
fn configured_refuses_a_decay_of_zero() {
    assert_eq!(Infected::configured(1, 0, 4, true), Err(ConfigError::NonPositiveDecayRate));
    assert_eq!(Infected::configured(1, 0, 0, false), Err(ConfigError::NonPositiveDecayRate));
}

#[test]
fn configured_refuses_no_offspring_when_waves_wait() {
    assert_eq!(Infected::configured(1, 1, 0, true), Err(ConfigError::NoOffspring));
    assert_eq!(
        Infected::configured(1, 1, 0, false),
        Ok(Infected {
            current_micros_to_death: 1,
            initial_micros_to_death: 1,
            decay_multiplier: 1,
            num_offspring: 0,
        })
    );
}

#[test]
fn configured_takes_the_defaults() {
    assert_eq!(Infected::configured(7_000_000, 1_000, 4, true), Ok(Infected::default()));
}

#[test]
fn decay_takes_rate_times_time_off_the_timer() {
    let infection = Infected::default();
    assert_eq!(infection.decayed(100).current_micros_to_death, 6_900_000);
    assert_eq!(infection.decayed(0), infection);
    let fast = Infected::configured(10_000_000, 2_500, 1, true).unwrap();
    let after = fast.decayed(16);
    assert_eq!(after.current_micros_to_death, 9_960_000);
    assert_eq!(after.initial_micros_to_death, 10_000_000);
    assert_eq!(after.decay_multiplier, 2_500);
    assert_eq!(after.num_offspring, 1);
}

#[test]
fn decay_goes_on_below_zero() {
    let infection = Infected::default();
    assert!(!infection.expired());
    assert!(!infection.decayed(6_999).expired());
    assert_eq!(infection.decayed(6_999).current_micros_to_death, 1_000);
    assert!(infection.decayed(7_000).expired());
    assert_eq!(infection.decayed(7_000).current_micros_to_death, 0);
    assert!(infection.decayed(7_001).expired());
    assert_eq!(infection.decayed(7_001).current_micros_to_death, -1_000);
    assert_eq!(infection.decayed(7_001).decayed(16).current_micros_to_death, -17_000);
    assert_eq!(infection.decayed(u32::MAX).current_micros_to_death, -4_294_960_295_000);
    let short = Infected::configured(1_000, 1_000, 4, true).unwrap();
    assert_eq!(short.decayed(16).current_micros_to_death, -15_000);
}

#[test]
fn a_timer_that_cannot_hold_what_is_left_is_found_out() {
    let long = Infected::configured(i64::MAX, u32::MAX, 1, true).unwrap();
    assert!(long.can_decay(u32::MAX));
    assert_eq!(long.decayed(u32::MAX).current_micros_to_death, -9_223_372_028_264_841_218);
    let short = Infected::configured(1, u32::MAX, 1, true).unwrap();
    assert!(!short.can_decay(u32::MAX));
    assert!(short.can_decay(2_147_483_648));
    assert!(!short.can_decay(2_147_483_649));
    let mut world = World::new();
    let mut sick = host(0, 0);
    sick.infected = Some(short);
    let sick = world.spawn(sick);
    assert!(can_decay_cells(&world, 16));
    assert!(!can_decay_cells(&world, u32::MAX));
    world.despawn(sick);
    assert!(can_decay_cells(&world, u32::MAX));
}

#[test]
fn decay_cell_runs_down_the_living_only() {
    let mut world = World::new();
    let mut sick = host(0, 0);
    sick.infected = Some(Infected::default());
    let sick = world.spawn(sick);
    let healthy = world.spawn(host(1, 1));
    let mut dead = host(2, 2);
    dead.infected = Some(Infected::default());
    let dead = world.spawn(dead);
    world.despawn(dead);
    decay_cell(&mut world, 250);
    assert_eq!(world.entities[sick].infected.unwrap().current_micros_to_death, 6_750_000);
    assert_eq!(world.entities[healthy].infected, None);
    assert_eq!(world.entities[dead].infected, Some(Infected::default()));
}

#[test]
fn create_virus_makes_a_seeking_capsule() {
    let virus = create_virus(FULL_TURN + 5, Point::new(-3, 8));
    assert!(virus.alive);
    assert_eq!(virus.transform, Transform::at(-3, 8));
    assert_eq!(virus.velocity, Some(Velocity { heading: 5, speed: VIRUS_SPEED }));
    assert_eq!(virus.speed, Some(Speed { default: 20_000, current: 20_000 }));
    assert_eq!(virus.turn_speed, Some(TurnSpeed(1_000)));
    assert_eq!(virus.hostile, Some(Hostile::InfectThenDie));
    let collider = virus.collider.unwrap();
    assert_eq!(
        collider.hitbox,
        Hitbox::Capsule { radius: 5_500, start: Point::new(0, 0), end: Point::new(0, -3_000) }
    );
    assert!(collider.colliding_entities.is_empty());
    assert_eq!(virus.targeting, None);
    assert_eq!(virus.virus_attached, None);
    assert_eq!(virus.host, None);
    assert_eq!(virus.infected, None);
}

#[test]
fn random_headings_are_proper_angles() {
    let mut rng = StdRng::seed_from_u64(11);
    let headings = random_headings(&mut rng, 500);
    assert_eq!(headings.len(), 500);
    assert!(headings.iter().all(|h| *h < FULL_TURN));
    assert!(headings.iter().any(|h| *h != headings[0]));
    assert!(random_headings(&mut rng, 0).is_empty());
}

#[test]
fn host_infected_for_seven_seconds_bursts_into_four() {
    let mut rng = StdRng::seed_from_u64(2024);
    let mut world = World::new();
    let h = world.spawn(host(120_000, -45_000));
    let v = world.spawn(create_virus(0, Point::new(110_000, -45_000)));
    let infection = Infected::configured(7_000_000, 1_000, 4, true).unwrap();
    assert!(handle_infection(&mut world, v, h, infection));
    for step in 0..70 {
        assert!(world.is_alive(h), "the host died at step {}", step);
        decay_cell(&mut world, 100);
        let destroyed = cells_die(&mut world, &mut rng);
        if step < 69 {
            assert!(destroyed.is_empty());
            assert_eq!(world.len(), 2);
        } else {
            assert_eq!(destroyed, vec![h, v]);
        }
    }
    assert!(!world.is_alive(h));
    assert!(!world.is_alive(v));
    assert_eq!(world.len(), 6);
    let mut headings = Vec::new();
    for id in 2..6 {
        let born = world.get(id).unwrap();
        assert_eq!(born.transform, Transform::at(120_000, -45_000));
        assert_eq!(born.hostile, Some(Hostile::InfectThenDie));
        assert_eq!(born.virus_attached, None);
        let velocity = born.velocity.unwrap();
        assert_eq!(velocity.speed, VIRUS_SPEED);
        assert!(velocity.heading < FULL_TURN);
        assert!(!headings.contains(&velocity.heading));
        headings.push(velocity.heading);
    }
    // Nothing is left to die.
    assert!(cells_die(&mut world, &mut rng).is_empty());
    assert_eq!(world.len(), 6);
}

#[test]
fn offspring_count_is_the_one_taken_at_infection() {
    let mut rng = StdRng::seed_from_u64(5);
    let mut world = World::new();
    let h = world.spawn(host(0, 0));
    let first = world.spawn(create_virus(0, Point::new(1, 0)));
    let second = world.spawn(create_virus(0, Point::new(2, 0)));
    let at_infection = Infected::configured(1_000_000, 1_000, 4, true).unwrap();
    let changed = Infected::configured(9_000_000, 10, 9, true).unwrap();
    assert!(handle_infection(&mut world, first, h, at_infection));
    decay_cell(&mut world, 400);
    assert!(handle_infection(&mut world, second, h, changed));
    assert_eq!(
        world.get(h).unwrap().infected,
        Some(Infected {
            current_micros_to_death: 600_000,
            initial_micros_to_death: 1_000_000,
            decay_multiplier: 1_000,
            num_offspring: 4,
        })
    );
    decay_cell(&mut world, 600);
    let destroyed = cells_die(&mut world, &mut rng);
    assert_eq!(destroyed, vec![h, first, second]);
    assert_eq!(world.len(), 3 + 4);
    for id in 3..7 {
        assert!(world.is_alive(id));
        assert_eq!(world.get(id).unwrap().transform, Transform::at(0, 0));
    }
}

#[test]
fn release_offspring_heads_each_virus_as_told() {
    let mut world = World::new();
    let mut dying = host(7, 7);
    dying.infected = Some(Infected::default().decayed(7_000));
    let dying = world.spawn(dying);
    let mut sick = host(8, 8);
    sick.infected = Some(Infected::default());
    let sick = world.spawn(sick);
    release_offspring(&mut world, &vec![vec![10, 20, FULL_TURN + 30], vec![40]]);
    assert!(!world.is_alive(dying));
    assert!(world.is_alive(sick));
    assert_eq!(world.len(), 5);
    for (id, heading) in [(2usize, 10u32), (3, 20), (4, 30)] {
        let born = world.get(id).unwrap();
        assert_eq!(born.velocity, Some(Velocity { heading, speed: VIRUS_SPEED }));
        assert_eq!(born.transform, Transform::at(7, 7));
    }
}

#[test]
fn release_offspring_leaves_a_host_without_a_list() {
    let mut world = World::new();
    let healthy = world.spawn(host(0, 0));
    let mut dying = host(7, 7);
    dying.infected = Some(Infected::default().decayed(7_000));
    let dying = world.spawn(dying);
    release_offspring(&mut world, &vec![vec![1, 2]]);
    assert!(world.is_alive(healthy));
    assert!(world.is_alive(dying));
    assert_eq!(world.len(), 2);
    release_offspring(&mut world, &vec![vec![1, 2], vec![]]);
    assert!(!world.is_alive(dying));
    assert_eq!(world.len(), 2);
}

#[test]
fn a_host_with_no_offspring_just_dies() {
    let mut rng = StdRng::seed_from_u64(1);
    let mut world = World::new();
    let mut dying = host(0, 0);
    dying.infected = Some(Infected::configured(1, 1, 0, false).unwrap().decayed(1));
    let dying = world.spawn(dying);
    assert_eq!(cells_die(&mut world, &mut rng), vec![dying]);
    assert_eq!(world.len(), 1);
}

#[test]
fn every_dying_host_releases_its_own_offspring() {
    let mut world = World::new();
    let mut first = host(100, 200);
    first.infected = Some(Infected::configured(1, 1, 2, true).unwrap().decayed(1));
    let first = world.spawn(first);
    let healthy = world.spawn(host(5, 5));
    let mut second = host(-300, 400);
    second.infected = Some(Infected::configured(1, 1, 3, true).unwrap().decayed(9));
    let second = world.spawn(second);
    release_offspring(&mut world, &vec![vec![11, 12], vec![99], vec![21, 22, 23]]);
    assert!(!world.is_alive(first));
    assert!(world.is_alive(healthy));
    assert!(!world.is_alive(second));
    assert_eq!(world.len(), 3 + 2 + 3);
    let expected = [
        (3usize, 100, 200, 11u32),
        (4, 100, 200, 12),
        (5, -300, 400, 21),
        (6, -300, 400, 22),
        (7, -300, 400, 23),
    ];
    for (id, x, y, heading) in expected {
        let born = world.get(id).unwrap();
        assert_eq!(born.transform, Transform::at(x, y));
        assert_eq!(born.velocity, Some(Velocity { heading, speed: VIRUS_SPEED }));
        assert_eq!(born.speed, Some(Speed { default: VIRUS_SPEED, current: VIRUS_SPEED }));
    }
}
