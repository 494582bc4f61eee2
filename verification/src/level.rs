//! The wave scheduler: one spawner that sends a larger wave of hostiles each
//! time the last one is gone and a pause has passed.
//!
//! A wave is planned here in polar form. The caller turns the plan into
//! coordinates and hands them back to have the wave placed.

use crate::collision::{Collider, ColliderView};
use crate::config::ConfigError;
use crate::enemy::{create_virus, random_heading, spec_virus};
use crate::geometry::{Hitbox, Point, Rotation, Transform};
use crate::host::Host;
use crate::movement::FULL_TURN;
use crate::random::random_below;
use crate::world::{Entity, EntityView, World};
use rand::rngs::StdRng;
use vstd::prelude::*;

verus! {

/// The pause between the end of one wave and the start of the next, in
/// milliseconds.
pub const MILLIS_BETWEEN_WAVES: i64 = 3_000;

/// The state of the wave scheduler. Lengths are in thousandths of a world
/// unit, the timer in milliseconds. The timer may fall below zero; the pause
/// is over once it is zero or less.
#[derive(Clone, Copy, Debug, PartialEq, Eq, Structural)]
pub struct EnemySpawner {
    /// How far from the centre of the arena a wave appears.
    pub radius: u32,
    /// How far from the middle of its wave a hostile may appear.
    pub cluster_radius: u32,
    /// The number of the next wave.
    pub wave: u32,
    /// What is left of the pause before the next wave.
    pub timer_millis: i64,
}

/// Where one hostile of a wave appears, seen from the middle of the wave, and
/// where it heads. Angles are in millionths of a radian.
#[derive(Clone, Copy, Debug, PartialEq, Eq, Structural)]
pub struct Placement {
    pub offset_radius: u32,
    pub offset_angle: u32,
    pub heading: u32,
}

/// A wave to place: its middle lies `origin_radius` from the centre of the
/// arena in direction `origin_angle`.
#[derive(Debug)]
pub struct Wave {
    pub number: u32,
    pub origin_radius: u32,
    pub origin_angle: u32,
    pub placements: Vec<Placement>,
}

/// What the scheduler does in a tick.
#[derive(Clone, Copy, Debug, PartialEq, Eq, Structural)]
pub enum WaveStep {
    /// Hostiles remain: nothing happens, and the pause does not run.
    Hold,
    /// No hostile remains and the pause runs.
    CoolDown,
    /// No hostile remains and the pause is over: a wave appears.
    Spawn,
}

/// The first spawner of a game.
pub open spec fn spec_first_spawner() -> EnemySpawner {
    EnemySpawner { radius: 1_000_000, cluster_radius: 200_000, wave: 1, timer_millis: 0 }
}

pub fn setup_enemy_spawner() -> (spawner: EnemySpawner)
    ensures
        spawner == spec_first_spawner(),
{
    EnemySpawner { radius: 1_000_000, cluster_radius: 200_000, wave: 1, timer_millis: 0 }
}

/// The one spawner among `spawners`, or what is wrong with their number.
pub open spec fn spec_single_spawner(spawners: Seq<EnemySpawner>) -> Result<
    EnemySpawner,
    ConfigError,
> {
    if spawners.len() == 0 {
        Err(ConfigError::MissingSpawner)
    } else if spawners.len() > 1 {
        Err(ConfigError::DuplicateSpawner)
    } else {
        Ok(spawners[0])
    }
}

/// Makes sure that there is exactly one spawner, and hands it out.
pub fn single_spawner(spawners: &Vec<EnemySpawner>) -> (found: Result<EnemySpawner, ConfigError>)
    ensures
        found == spec_single_spawner(spawners@),
{
    if spawners.len() == 0 {
        Err(ConfigError::MissingSpawner)
    } else if spawners.len() > 1 {
        Err(ConfigError::DuplicateSpawner)
    } else {
        Ok(spawners[0])
    }
}

/// How many hostiles wave `wave` brings: the square of `wave + 1.5`, rounded up.
pub open spec fn spec_wave_size(wave: int) -> int {
    wave * wave + 3 * wave + 3
}

/// `spec_wave_size(wave)` is the least whole number that is no less than the
/// square of `wave + 1.5`: four times it is at least the square of
/// `2 * wave + 3`, and four times the number before it is not.
pub proof fn lemma_wave_size_is_ceiling(wave: int)
    ensures
        4 * spec_wave_size(wave) >= (2 * wave + 3) * (2 * wave + 3),
        4 * (spec_wave_size(wave) - 1) < (2 * wave + 3) * (2 * wave + 3),
{
    assert((2 * wave + 3) * (2 * wave + 3) == 4 * (wave * wave) + 12 * wave + 9)
        by (nonlinear_arith);
}

/// The size of wave `wave`.
pub fn wave_size(wave: u32) -> (size: u64)
    requires
        wave < u32::MAX,
    ensures
        size == spec_wave_size(wave as int),
{
    let w: u64 = wave as u64;
    assert(w * w <= 0xffff_fffe * 0xffff_fffe) by (nonlinear_arith)
        requires
            0 <= w <= 0xffff_fffe,
    ;
    w * w + 3 * w + 3
}

/// What the scheduler does now.
pub open spec fn spec_wave_step(spawner: EnemySpawner, hostiles_remain: bool) -> WaveStep {
    if hostiles_remain {
        WaveStep::Hold
    } else if spawner.timer_millis > 0 {
        WaveStep::CoolDown
    } else {
        WaveStep::Spawn
    }
}

pub fn wave_step(spawner: &EnemySpawner, hostiles_remain: bool) -> (step: WaveStep)
    ensures
        step == spec_wave_step(*spawner, hostiles_remain),
{
    if hostiles_remain {
        WaveStep::Hold
    } else if spawner.timer_millis > 0 {
        WaveStep::CoolDown
    } else {
        WaveStep::Spawn
    }
}

/// The spawner after a tick of `elapsed_millis`. While it holds it does not
/// change; while it cools down the time elapsed is taken off its pause, which
/// may fall below zero; when it spawns, the pause starts over and the wave
/// number goes up by one.
pub open spec fn spawner_after(spawner: EnemySpawner, hostiles_remain: bool, elapsed_millis: u32)
    -> EnemySpawner {
    match spec_wave_step(spawner, hostiles_remain) {
        WaveStep::Hold => spawner,
        WaveStep::CoolDown => EnemySpawner {
            timer_millis: (spawner.timer_millis - elapsed_millis) as i64,
            ..spawner
        },
        WaveStep::Spawn => EnemySpawner {
            timer_millis: MILLIS_BETWEEN_WAVES,
            wave: (spawner.wave + 1) as u32,
            ..spawner
        },
    }
}

/// The scheduler sends no wave while a hostile remains or its pause runs. Its
/// wave number never falls, and goes up by one exactly when it sends a wave;
/// its pause never grows but when a wave is sent.
pub proof fn lemma_spawner_moves_forward(
    spawner: EnemySpawner,
    hostiles_remain: bool,
    elapsed_millis: u32,
)
    requires
        spawner.wave < u32::MAX,
    ensures
        ({
            let step = spec_wave_step(spawner, hostiles_remain);
            let after = spawner_after(spawner, hostiles_remain, elapsed_millis);
            &&& hostiles_remain || spawner.timer_millis > 0 ==> step != WaveStep::Spawn
            &&& step == WaveStep::Spawn ==> after.wave == spawner.wave + 1
            &&& step != WaveStep::Spawn ==> after.wave == spawner.wave && after.timer_millis
                <= spawner.timer_millis
            &&& step == WaveStep::CoolDown ==> after.timer_millis == spawner.timer_millis
                - elapsed_millis
            &&& after.radius == spawner.radius
            &&& after.cluster_radius == spawner.cluster_radius
        }),
{
}

/// Whether `r` is the square root of `n`, rounded down.
pub open spec fn is_sqrt_floor(n: int, r: int) -> bool {
    0 <= r && r * r <= n < (r + 1) * (r + 1)
}

/// The square root of `n`, rounded down.
pub fn sqrt_floor(n: u64) -> (r: u32)
    ensures
        is_sqrt_floor(n as int, r as int),
{
    let mut low: u64 = 0;
    let mut high: u64 = 0x1_0000_0000;
    assert(0x1_0000_0000 * 0x1_0000_0000 > n) by (nonlinear_arith)
        requires
            n <= 0xffff_ffff_ffff_ffff,
    ;
    while high - low > 1
        invariant
            low < high <= 0x1_0000_0000,
            low * low <= n < high * high,
        decreases high - low,
    {
        let mid: u64 = low + (high - low) / 2;
        assert(mid * mid <= 0xffff_ffff * 0xffff_ffff) by (nonlinear_arith)
            requires
                0 <= mid <= 0xffff_ffff,
        ;
        if mid * mid <= n {
            low = mid;
        } else {
            high = mid;
        }
    }
    low as u32
}

/// Draws a distance from the middle of a disc of radius `radius`, such that
/// points at that distance in a direction drawn evenly cover the disc evenly:
/// the root of a number drawn evenly from zero to the square of the radius.
pub fn random_radius(rng: &mut StdRng, radius: u32) -> (drawn: u32)
    ensures
        drawn <= radius,
{
    let r: u64 = radius as u64;
    assert(r * r <= 0xffff_ffff * 0xffff_ffff) by (nonlinear_arith)
        requires
            0 <= r <= 0xffff_ffff,
    ;
    let area: u64 = r * r;
    let drawn = sqrt_floor(random_below(rng, area + 1));
    assert(drawn <= radius) by (nonlinear_arith)
        requires
            drawn * drawn <= r * r,
            r == radius,
            0 <= drawn,
            0 <= r,
    ;
    drawn
}

/// Whether `wave` is a wave that `spawner` may send: it bears the spawner's
/// wave number and distance, has the size that the number calls for, keeps
/// every hostile within the cluster radius, and holds proper angles only.
pub open spec fn wave_fits(spawner: EnemySpawner, wave: Wave) -> bool {
    &&& wave.number == spawner.wave
    &&& wave.origin_radius == spawner.radius
    &&& wave.origin_angle < FULL_TURN
    &&& wave.placements@.len() == spec_wave_size(spawner.wave as int)
    &&& forall|k: int|
        0 <= k < wave.placements@.len() ==> {
            &&& (#[trigger] wave.placements@[k]).offset_radius <= spawner.cluster_radius
            &&& wave.placements@[k].offset_angle < FULL_TURN
            &&& wave.placements@[k].heading < FULL_TURN
        }
}

/// Plans the wave that `spawner` sends next: the direction of its middle, and
/// for each hostile a place within the cluster, drawn evenly from the disc,
/// and a heading.
pub fn plan_wave(spawner: &EnemySpawner, rng: &mut StdRng) -> (wave: Wave)
    requires
        spawner.wave < u32::MAX,
    ensures
        wave_fits(*spawner, wave),
{
    let origin_angle = random_heading(rng);
    let size = wave_size(spawner.wave);
    let mut placements: Vec<Placement> = Vec::new();
    let mut k: u64 = 0;
    while k < size
        invariant
            k <= size,
            placements@.len() == k,
            forall|j: int|
                0 <= j < placements@.len() ==> {
                    &&& (#[trigger] placements@[j]).offset_radius <= spawner.cluster_radius
                    &&& placements@[j].offset_angle < FULL_TURN
                    &&& placements@[j].heading < FULL_TURN
                },
        decreases size - k,
    {
        let offset_radius = random_radius(rng, spawner.cluster_radius);
        let offset_angle = random_heading(rng);
        let heading = random_heading(rng);
        placements.push(Placement { offset_radius, offset_angle, heading });
        k += 1;
    }
    Wave { number: spawner.wave, origin_radius: spawner.radius, origin_angle, placements }
}

/// Runs the scheduler for one tick.
///
/// A wave is returned exactly when no hostile remains and the pause is over;
/// the caller places it.
pub fn spawn_enemies(
    spawner: &mut EnemySpawner,
    hostiles_remain: bool,
    elapsed_millis: u32,
    rng: &mut StdRng,
) -> (wave: Option<Wave>)
    requires
        old(spawner).wave < u32::MAX,
    ensures
        *final(spawner) == spawner_after(*old(spawner), hostiles_remain, elapsed_millis),
        wave is Some <==> !hostiles_remain && old(spawner).timer_millis <= 0,
        wave is Some ==> wave_fits(*old(spawner), wave->0),
{
    match wave_step(spawner, hostiles_remain) {
        WaveStep::Hold => None,
        WaveStep::CoolDown => {
            spawner.timer_millis = spawner.timer_millis - elapsed_millis as i64;
            None
        },
        WaveStep::Spawn => {
            let wave = plan_wave(spawner, rng);
            spawner.timer_millis = MILLIS_BETWEEN_WAVES;
            spawner.wave = spawner.wave + 1;
            Some(wave)
        },
    }
}

/// A wave that was handed another number of places than it has placements.
#[derive(Clone, Copy, Debug, PartialEq, Eq, Structural)]
pub struct MisplacedWave {
    pub placements: usize,
    pub places: usize,
}

/// What is wrong with a wave of `placements` placements that was handed
/// `places` places.
pub open spec fn spec_misplaced(placements: nat, places: nat) -> Result<(), MisplacedWave> {
    Err(MisplacedWave { placements: placements as usize, places: places as usize })
}

/// The hostiles of a wave: one fresh virus for each placement, at the place
/// of the same number and heading as the placement says.
pub open spec fn hostiles_of(placements: Seq<Placement>, places: Seq<Point>) -> Seq<EntityView> {
    Seq::new(placements.len(), |k: int| spec_virus(placements[k].heading, places[k]))
}

/// Places a wave: `places[k]` is where the caller has worked out that the
/// hostile of `wave.placements[k]` appears. Unless there is a place for each
/// placement and no more, nothing is placed.
pub fn place_wave(world: &mut World, wave: &Wave, places: &Vec<Point>) -> (placed: Result<
    (),
    MisplacedWave,
>)
    ensures
        places@.len() == wave.placements@.len() ==> placed is Ok && final(world)@ == old(world)@
            + hostiles_of(wave.placements@, places@),
        places@.len() != wave.placements@.len() ==> final(world)@ == old(world)@ && placed
            == spec_misplaced(wave.placements@.len(), places@.len()),
{
    let n = wave.placements.len();
    if places.len() != n {
        return Err(MisplacedWave { placements: n, places: places.len() });
    }
    let mut k: usize = 0;
    while k < n
        invariant
            k <= n,
            n == wave.placements@.len(),
            n == places@.len(),
            world@ == old(world)@ + hostiles_of(wave.placements@, places@).take(k as int),
        decreases n - k,
    {
        world.spawn(create_virus(wave.placements[k].heading, places[k]));
        assert(world@ =~= old(world)@ + hostiles_of(wave.placements@, places@).take(
            k as int + 1,
        ));
        k += 1;
    }
    assert(hostiles_of(wave.placements@, places@).take(n as int) == hostiles_of(
        wave.placements@,
        places@,
    ));
    Ok(())
}

/// Whether any living entity of `world` below `n` is a hostile.
pub open spec fn hostile_among(world: Seq<EntityView>, n: int) -> bool {
    exists|i: int| 0 <= i < n && i < world.len() && world[i].alive && world[i].hostile is Some
}

/// Whether any hostile is alive, attached or not.
pub fn hostiles_remain(world: &World) -> (any: bool)
    ensures
        any == hostile_among(world@, world@.len() as int),
{
    let n = world.entities.len();
    let mut i: usize = 0;
    while i < n
        invariant
            i <= n,
            n == world@.len(),
            !hostile_among(world@, i as int),
        decreases n - i,
    {
        assert(world.entities@[i as int]@ == world@[i as int]);
        if world.entities[i].alive && world.entities[i].hostile.is_some() {
            assert(world@[i as int].alive && world@[i as int].hostile is Some);
            return true;
        }
        i += 1;
    }
    false
}

/// How many host cells the wall has in a row, and how many rows.
pub const BOX_GRID_WIDTH: u32 = 5;

pub const BOX_GRID_HEIGHT: u32 = 5;

/// From one host cell of the wall to the next, in thousandths of a world unit.
pub const WALL_CELL_PITCH: i32 = 85_000;

/// Where the first host cell of the wall lies, on either axis.
pub const WALL_OFFSET: i32 = -200_000;

/// Half the side of a host cell's hitbox.
pub const WALL_CELL_HALF_SIDE: u32 = 17_500;

/// Of ten places in the wall, how many stay empty on average.
pub const WALL_GAPS_IN_TEN: u64 = 7;

/// The place of the wall's cell in row `row` and column `column`.
pub open spec fn spec_wall_cell_place(row: int, column: int) -> Point {
    Point {
        x: (column * WALL_CELL_PITCH + WALL_OFFSET) as i32,
        y: (row * WALL_CELL_PITCH + WALL_OFFSET) as i32,
    }
}

/// A healthy host cell at `place`.
pub open spec fn spec_wall_cell(place: Point) -> EntityView {
    EntityView {
        collider: Some(
            ColliderView {
                hitbox: Hitbox::Rectangle {
                    half_width: WALL_CELL_HALF_SIDE,
                    half_height: WALL_CELL_HALF_SIDE,
                },
                colliding_entities: Seq::empty(),
            },
        ),
        host: Some(Host),
        ..Entity::spec_bare(Transform { translation: place, rotation: Rotation::spec_identity() })
    }
}

/// Makes the host cell of the wall for row `row` and column `column`.
fn create_wall_cell(row: u32, column: u32) -> (cell: Entity)
    requires
        row < BOX_GRID_HEIGHT,
        column < BOX_GRID_WIDTH,
    ensures
        cell@ == spec_wall_cell(spec_wall_cell_place(row as int, column as int)),
{
    let place = Point {
        x: column as i32 * WALL_CELL_PITCH + WALL_OFFSET,
        y: row as i32 * WALL_CELL_PITCH + WALL_OFFSET,
    };
    let mut cell = Entity::bare(Transform { translation: place, rotation: Rotation::identity() });
    cell.collider = Some(
        Collider::from_hitbox(
            Hitbox::Rectangle {
                half_width: WALL_CELL_HALF_SIDE,
                half_height: WALL_CELL_HALF_SIDE,
            },
        ),
    );
    cell.host = Some(Host);
    cell
}

/// `world` after the first `n` places of the wall were gone through, row by
/// row: a host cell stands at each place that `filled` marks.
pub open spec fn walls_built(world: Seq<EntityView>, filled: Seq<bool>, n: int) -> Seq<EntityView>
    decreases n,
{
    if n <= 0 {
        world
    } else {
        let so_far = walls_built(world, filled, n - 1);
        if n <= filled.len() && filled[n - 1] {
            so_far.push(
                spec_wall_cell(
                    spec_wall_cell_place((n - 1) / (BOX_GRID_WIDTH as int), (n - 1) % (
                    BOX_GRID_WIDTH as int)),
                ),
            )
        } else {
            so_far
        }
    }
}

/// Builds the wall: a host cell at each place that `filled` marks, the places
/// counted row by row.
pub fn build_walls(world: &mut World, filled: &Vec<bool>)
    ensures
        final(world)@ == walls_built(
            old(world)@,
            filled@,
            (BOX_GRID_WIDTH * BOX_GRID_HEIGHT) as int,
        ),
{
    let mut row: u32 = 0;
    while row < BOX_GRID_HEIGHT
        invariant
            row <= BOX_GRID_HEIGHT,
            world@ == walls_built(old(world)@, filled@, (row * BOX_GRID_WIDTH) as int),
        decreases BOX_GRID_HEIGHT - row,
    {
        let mut column: u32 = 0;
        while column < BOX_GRID_WIDTH
            invariant
                row < BOX_GRID_HEIGHT,
                column <= BOX_GRID_WIDTH,
                world@ == walls_built(
                    old(world)@,
                    filled@,
                    (row * BOX_GRID_WIDTH + column) as int,
                ),
            decreases BOX_GRID_WIDTH - column,
        {
            let place: usize = (row * BOX_GRID_WIDTH + column) as usize;
            assert(place as int / 5 == row && place as int % 5 == column);
            if place < filled.len() && filled[place] {
                world.spawn(create_wall_cell(row, column));
            }
            column += 1;
        }
        row += 1;
    }
}

/// Builds the wall with gaps: each place stays empty with a chance of
/// [`WALL_GAPS_IN_TEN`] in ten.
pub fn spawn_walls(world: &mut World, rng: &mut StdRng)
    ensures
        exists|filled: Seq<bool>|
            filled.len() == BOX_GRID_WIDTH * BOX_GRID_HEIGHT && final(world)@ == #[trigger] walls_built(
                old(world)@,
                filled,
                (BOX_GRID_WIDTH * BOX_GRID_HEIGHT) as int,
            ),
{
    let mut filled: Vec<bool> = Vec::new();
    let mut place: u32 = 0;
    while place < BOX_GRID_WIDTH * BOX_GRID_HEIGHT
        invariant
            place <= BOX_GRID_WIDTH * BOX_GRID_HEIGHT,
            filled@.len() == place,
        decreases BOX_GRID_WIDTH * BOX_GRID_HEIGHT - place,
    {
        filled.push(random_below(rng, 10) >= WALL_GAPS_IN_TEN);
        place += 1;
    }
    build_walls(world, &filled);
}

} // verus!
