use arena_core::geometry::{Hitbox, Transform};
use arena_core::host::Host;
use arena_core::level::build_walls;
use arena_core::level::spawn_walls;
use arena_core::config::ConfigError;
use arena_core::enemy::create_virus;
use arena_core::geometry::Point;
use arena_core::enemy::Hostile;
use arena_core::movement::Velocity;
use arena_core::level::{
    hostiles_remain, place_wave, plan_wave, random_radius, setup_enemy_spawner, single_spawner,
    spawn_enemies, sqrt_floor, wave_size, wave_step, EnemySpawner, MisplacedWave, WaveStep,
};
use arena_core::movement::FULL_TURN;
use arena_core::world::World;
use rand::rngs::StdRng;
use rand::SeedableRng;

#[test]
fn wave_sizes_are_seven_thirteen_twenty_one() {
    assert_eq!(wave_size(1), 7);
    assert_eq!(wave_size(2), 13);
    assert_eq!(wave_size(3), 21);
}

#[test]
fn wave_sizes_at_the_ends() {
    assert_eq!(wave_size(0), 3);
    assert_eq!(wave_size(10), 133);
    assert_eq!(wave_size(u32::MAX - 1), 18_446_744_069_414_584_321);
}

#[test]
fn the_first_spawner_starts_at_wave_one() {
    assert_eq!(
        setup_enemy_spawner(),
        EnemySpawner { radius: 1_000_000, cluster_radius: 200_000, wave: 1, timer_millis: 0 }
    );
}

#[test]
fn exactly_one_spawner_is_accepted() {
    let one = setup_enemy_spawner();
    assert_eq!(single_spawner(&Vec::new()), Err(ConfigError::MissingSpawner));
    assert_eq!(single_spawner(&vec![one]), Ok(one));
    assert_eq!(single_spawner(&vec![one, one]), Err(ConfigError::DuplicateSpawner));
    assert_eq!(single_spawner(&vec![one, one, one]), Err(ConfigError::DuplicateSpawner));
}

#[test]
fn the_scheduler_holds_while_hostiles_remain() {
    let mut rng = StdRng::seed_from_u64(1);
    let mut spawner = setup_enemy_spawner();
    assert_eq!(wave_step(&spawner, true), WaveStep::Hold);
    assert!(spawn_enemies(&mut spawner, true, 16, &mut rng).is_none());
    assert_eq!(spawner, setup_enemy_spawner());
    spawner.timer_millis = 50;
    assert_eq!(wave_step(&spawner, true), WaveStep::Hold);
    assert!(spawn_enemies(&mut spawner, true, 16, &mut rng).is_none());
    assert_eq!(spawner.timer_millis, 50);
    assert_eq!(spawner.wave, 1);
}

#[test]
fn the_scheduler_cools_down_before_it_spawns() {
    let mut rng = StdRng::seed_from_u64(1);
    let mut spawner = setup_enemy_spawner();
    spawner.timer_millis = 40;
    assert_eq!(wave_step(&spawner, false), WaveStep::CoolDown);
    assert!(spawn_enemies(&mut spawner, false, 16, &mut rng).is_none());
    assert_eq!(spawner.timer_millis, 24);
    assert!(spawn_enemies(&mut spawner, false, 16, &mut rng).is_none());
    assert_eq!(spawner.timer_millis, 8);
    assert!(spawn_enemies(&mut spawner, false, 16, &mut rng).is_none());
    assert_eq!(spawner.timer_millis, -8);
    assert_eq!(spawner.wave, 1);
    assert_eq!(wave_step(&spawner, false), WaveStep::Spawn);
    let wave = spawn_enemies(&mut spawner, false, 16, &mut rng).unwrap();
    assert_eq!(wave.number, 1);
    assert_eq!(wave.placements.len(), 7);
    assert_eq!(spawner.wave, 2);
    assert_eq!(spawner.timer_millis, 3_000);
    assert_eq!(spawner.radius, 1_000_000);
    assert_eq!(spawner.cluster_radius, 200_000);
}

#[test]
fn waves_grow_one_by_one() {
    let mut rng = StdRng::seed_from_u64(4);
    let mut spawner = setup_enemy_spawner();
    let mut sizes = Vec::new();
    for _ in 0..3 {
        let wave = spawn_enemies(&mut spawner, false, 16, &mut rng).unwrap();
        sizes.push(wave.placements.len());
        assert!(spawn_enemies(&mut spawner, false, 3_000, &mut rng).is_none());
    }
    assert_eq!(sizes, vec![7, 13, 21]);
    assert_eq!(spawner.wave, 4);
}

#[test]
fn a_wave_stays_within_its_cluster() {
    let mut rng = StdRng::seed_from_u64(77);
    let spawner = EnemySpawner { radius: 640, cluster_radius: 30, wave: 12, timer_millis: 0 };
    let wave = plan_wave(&spawner, &mut rng);
    assert_eq!(wave.number, 12);
    assert_eq!(wave.origin_radius, 640);
    assert!(wave.origin_angle < FULL_TURN);
    assert_eq!(wave.placements.len(), 183);
    let first = wave.placements[0];
    let mut varied = false;
    for placement in wave.placements.iter() {
        assert!(placement.offset_radius <= 30);
        assert!(placement.offset_angle < FULL_TURN);
        assert!(placement.heading < FULL_TURN);
        varied = varied || *placement != first;
    }
    assert!(varied);
}

#[test]
fn random_radius_stays_within_the_radius() {
    let mut rng = StdRng::seed_from_u64(8);
    assert_eq!(random_radius(&mut rng, 0), 0);
    let mut largest = 0;
    for _ in 0..2_000 {
        let drawn = random_radius(&mut rng, 10);
        assert!(drawn <= 10);
        largest = largest.max(drawn);
    }
    assert!(largest >= 9);
    assert!(random_radius(&mut rng, u32::MAX) <= u32::MAX);
}

#[test]
fn sqrt_floor_rounds_down() {
    for (n, root) in [(0u64, 0u32), (1, 1), (2, 1), (3, 1), (4, 2), (15, 3), (16, 4), (17, 4)] {
        assert_eq!(sqrt_floor(n), root);
    }
    assert_eq!(sqrt_floor(40_000_000_000), 200_000);
    assert_eq!(sqrt_floor(39_999_999_999), 199_999);
    assert_eq!(sqrt_floor(u64::MAX), u32::MAX);
    assert_eq!(sqrt_floor(18_446_744_065_119_617_025), u32::MAX);
    assert_eq!(sqrt_floor(18_446_744_065_119_617_024), u32::MAX - 1);
}

#[test]
fn hostiles_remain_while_one_lives_attached_or_not() {
    let mut world = World::new();
    assert!(!hostiles_remain(&world));
    let v = world.spawn(create_virus(0, Point::new(0, 0)));
    assert!(hostiles_remain(&world));
    world.entities[v].virus_attached = Some(arena_core::enemy::VirusAttached);
    assert!(hostiles_remain(&world));
    world.despawn(v);
    assert!(!hostiles_remain(&world));
}

#[test]
fn the_wall_is_built_where_marked() {
    let mut world = World::new();
    let mut filled = vec![false; 25];
    filled[0] = true;
    filled[7] = true;
    filled[24] = true;
    build_walls(&mut world, &filled);
    assert_eq!(world.len(), 3);
    assert_eq!(world.entities[0].transform, Transform::at(-200_000, -200_000));
    assert_eq!(world.entities[1].transform, Transform::at(-30_000, -115_000));
    assert_eq!(world.entities[2].transform, Transform::at(140_000, 140_000));
    for id in 0..3 {
        let cell = world.get(id).unwrap();
        assert_eq!(cell.host, Some(Host));
        assert_eq!(cell.infected, None);
        assert_eq!(
            cell.collider.as_ref().unwrap().hitbox,
            Hitbox::Rectangle { half_width: 17_500, half_height: 17_500 }
        );
    }
    build_walls(&mut world, &vec![true, true]);
    assert_eq!(world.len(), 5);
    assert_eq!(world.entities[4].transform, Transform::at(-115_000, -200_000));
    build_walls(&mut world, &vec![true; 40]);
    assert_eq!(world.len(), 30);
    build_walls(&mut world, &Vec::new());
    assert_eq!(world.len(), 30);
}

#[test]
fn a_random_wall_has_cells_and_gaps() {
    let mut total = 0;
    for seed in 0..40 {
        let mut rng = StdRng::seed_from_u64(seed);
        let mut world = World::new();
        spawn_walls(&mut world, &mut rng);
        assert!(world.len() <= 25);
        for id in 0..world.len() {
            let place = world.entities[id].transform.translation;
            assert_eq!((place.x + 200_000) % 85_000, 0);
            assert_eq!((place.y + 200_000) % 85_000, 0);
            assert!(-200_000 <= place.x && place.x <= 140_000);
            assert!(-200_000 <= place.y && place.y <= 140_000);
        }
        total += world.len();
    }
    // Three places in ten are filled on average: 300 of 1000.
    assert!(200 < total && total < 400);
}

#[test]
fn a_short_pause_runs_below_zero() {
    let mut rng = StdRng::seed_from_u64(1);
    let mut spawner = setup_enemy_spawner();
    spawner.timer_millis = 50;
    assert!(spawn_enemies(&mut spawner, false, 100, &mut rng).is_none());
    assert_eq!(spawner.timer_millis, -50);
    assert_eq!(spawner.wave, 1);
    spawner.timer_millis = 1;
    assert!(spawn_enemies(&mut spawner, false, u32::MAX, &mut rng).is_none());
    assert_eq!(spawner.timer_millis, -4_294_967_294);
    assert!(spawn_enemies(&mut spawner, true, 100, &mut rng).is_none());
    assert_eq!(spawner.timer_millis, -4_294_967_294);
    assert!(spawn_enemies(&mut spawner, false, 100, &mut rng).is_some());
    assert_eq!(spawner.timer_millis, 3_000);
    assert_eq!(spawner.wave, 2);
}

#[test]
fn a_wave_is_placed_where_the_caller_says() {
    let mut rng = StdRng::seed_from_u64(12);
    let mut world = World::new();
    let spawner = EnemySpawner { radius: 640, cluster_radius: 30, wave: 0, timer_millis: 0 };
    let wave = plan_wave(&spawner, &mut rng);
    assert_eq!(wave.placements.len(), 3);
    let places = vec![Point::new(1, 2), Point::new(3, 4), Point::new(5, 6)];
    assert_eq!(place_wave(&mut world, &wave, &places), Ok(()));
    assert_eq!(world.len(), 3);
    for id in 0..3 {
        let virus = world.get(id).unwrap();
        assert_eq!(virus.transform.translation, places[id]);
        assert_eq!(
            virus.velocity,
            Some(Velocity { heading: wave.placements[id].heading, speed: 20_000 })
        );
        assert_eq!(virus.hostile, Some(Hostile::InfectThenDie));
    }
    assert!(hostiles_remain(&world));
}

#[test]
fn a_wave_with_the_wrong_number_of_places_is_not_placed() {
    let mut rng = StdRng::seed_from_u64(12);
    let mut world = World::new();
    let spawner = EnemySpawner { radius: 640, cluster_radius: 30, wave: 0, timer_millis: 0 };
    let wave = plan_wave(&spawner, &mut rng);
    assert_eq!(
        place_wave(&mut world, &wave, &vec![Point::new(9, 9)]),
        Err(MisplacedWave { placements: 3, places: 1 })
    );
    assert_eq!(
        place_wave(&mut world, &wave, &Vec::new()),
        Err(MisplacedWave { placements: 3, places: 0 })
    );
    assert_eq!(
        place_wave(&mut world, &wave, &vec![Point::new(0, 0); 4]),
        Err(MisplacedWave { placements: 3, places: 4 })
    );
    assert_eq!(world.len(), 0);
}
