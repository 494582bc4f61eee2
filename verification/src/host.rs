//! Host cells and the course of an infection: healthy, infected, dead.

use crate::config::ConfigError;
use crate::enemy::{
    create_virus, random_heading, spec_virus, Hostile, VirusAttached, VIRUS_SPEED,
};
use crate::geometry::Point;
use crate::movement::{Speed, Velocity, FULL_TURN};
use crate::world::{despawned, is_live, ChildOf, EntityId, EntityView, World};
use rand::rngs::StdRng;
use vstd::prelude::*;

verus! {

/// Marks an entity that can be infected.
#[derive(Clone, Copy, Debug, PartialEq, Eq, Structural)]
pub struct Host;

/// The state of an infected host. A host without it is healthy.
///
/// Times are in millionths of a second; `decay_multiplier` is in thousandths,
/// so that one millisecond at a multiplier of 1000 takes 1000 off the timer.
/// All but the running timer is fixed when the infection starts. The running
/// timer may fall below zero; the host's time is up once it is zero or less.
#[derive(Clone, Copy, Debug, PartialEq, Eq, Structural)]
pub struct Infected {
    pub current_micros_to_death: i64,
    pub initial_micros_to_death: i64,
    pub decay_multiplier: u32,
    pub num_offspring: u32,
}

impl Infected {
    /// Seven seconds to live at the plain rate of decay, and four offspring.
    pub open spec fn spec_default() -> Infected {
        Infected {
            current_micros_to_death: 7_000_000,
            initial_micros_to_death: 7_000_000,
            decay_multiplier: 1_000,
            num_offspring: 4,
        }
    }

    /// The infection that a configuration describes, or what is wrong with it.
    pub open spec fn spec_configured(
        micros_to_death: i64,
        decay_multiplier: u32,
        num_offspring: u32,
        gated_waves: bool,
    ) -> Result<Infected, ConfigError> {
        if micros_to_death <= 0 {
            Err(ConfigError::NonPositiveTimer)
        } else if decay_multiplier == 0 {
            Err(ConfigError::NonPositiveDecayRate)
        } else if num_offspring == 0 && gated_waves {
            Err(ConfigError::NoOffspring)
        } else {
            Ok(
                Infected {
                    current_micros_to_death: micros_to_death,
                    initial_micros_to_death: micros_to_death,
                    decay_multiplier,
                    num_offspring,
                },
            )
        }
    }

    /// Checks a configuration and makes the infection that it describes.
    ///
    /// `gated_waves` says whether new waves wait until no hostile is left.
    pub fn configured(
        micros_to_death: i64,
        decay_multiplier: u32,
        num_offspring: u32,
        gated_waves: bool,
    ) -> (made: Result<Infected, ConfigError>)
        ensures
            made == Infected::spec_configured(
                micros_to_death,
                decay_multiplier,
                num_offspring,
                gated_waves,
            ),
    {
        if micros_to_death <= 0 {
            Err(ConfigError::NonPositiveTimer)
        } else if decay_multiplier == 0 {
            Err(ConfigError::NonPositiveDecayRate)
        } else if num_offspring == 0 && gated_waves {
            Err(ConfigError::NoOffspring)
        } else {
            Ok(
                Infected {
                    current_micros_to_death: micros_to_death,
                    initial_micros_to_death: micros_to_death,
                    decay_multiplier,
                    num_offspring,
                },
            )
        }
    }

    /// What `elapsed_millis` take off the timer: the time elapsed times the
    /// multiplier.
    pub open spec fn spec_loss(self, elapsed_millis: u32) -> int {
        self.decay_multiplier * elapsed_millis
    }

    /// Whether the timer can hold what is left after `elapsed_millis`.
    pub open spec fn spec_can_decay(self, elapsed_millis: u32) -> bool {
        self.current_micros_to_death - self.spec_loss(elapsed_millis) >= i64::MIN
    }

    pub fn can_decay(&self, elapsed_millis: u32) -> (fits: bool)
        ensures
            fits == self.spec_can_decay(elapsed_millis),
    {
        assert(0 <= self.decay_multiplier * elapsed_millis <= 0xffff_ffff * 0xffff_ffff)
            by (nonlinear_arith);
        let loss: i128 = self.decay_multiplier as i128 * elapsed_millis as i128;
        self.current_micros_to_death as i128 - loss >= i64::MIN as i128
    }

    /// The infection after `elapsed_millis`: the time elapsed times the
    /// multiplier is taken off the timer, which may fall below zero.
    pub open spec fn spec_decayed(self, elapsed_millis: u32) -> Infected {
        Infected {
            current_micros_to_death: (self.current_micros_to_death - self.spec_loss(
                elapsed_millis,
            )) as i64,
            ..self
        }
    }

    pub fn decayed(self, elapsed_millis: u32) -> (after: Infected)
        requires
            self.spec_can_decay(elapsed_millis),
        ensures
            after == self.spec_decayed(elapsed_millis),
            after.current_micros_to_death == self.current_micros_to_death
                - self.decay_multiplier * elapsed_millis,
    {
        assert(0 <= self.decay_multiplier * elapsed_millis <= 0xffff_ffff * 0xffff_ffff)
            by (nonlinear_arith);
        let loss: i128 = self.decay_multiplier as i128 * elapsed_millis as i128;
        let left: i128 = self.current_micros_to_death as i128 - loss;
        Infected { current_micros_to_death: left as i64, ..self }
    }

    /// Whether the timer has run out: it is zero or less.
    pub open spec fn spec_expired(self) -> bool {
        self.current_micros_to_death <= 0
    }

    pub fn expired(&self) -> (over: bool)
        ensures
            over == self.spec_expired(),
    {
        self.current_micros_to_death <= 0
    }
}

impl Default for Infected {
    fn default() -> (made: Infected)
        ensures
            made == Infected::spec_default(),
    {
        Infected {
            current_micros_to_death: 7_000_000,
            initial_micros_to_death: 7_000_000,
            decay_multiplier: 1_000,
            num_offspring: 4,
        }
    }
}

/// The timer of an infection never rises, and falls when time passes at a
/// rate above zero; one that has run out stays run out; and nothing else
/// about the infection changes with time.
pub proof fn lemma_timer_never_rises(infection: Infected, elapsed_millis: u32)
    requires
        infection.spec_can_decay(elapsed_millis),
    ensures
        infection.decay_multiplier > 0 && elapsed_millis > 0 ==> infection.spec_decayed(
            elapsed_millis,
        ).current_micros_to_death < infection.current_micros_to_death,
        infection.spec_decayed(elapsed_millis).current_micros_to_death
            == infection.current_micros_to_death - infection.decay_multiplier * elapsed_millis,
        infection.spec_decayed(elapsed_millis).current_micros_to_death
            <= infection.current_micros_to_death,
        infection.spec_expired() ==> infection.spec_decayed(elapsed_millis).spec_expired(),
        infection.spec_decayed(elapsed_millis) == (Infected {
            current_micros_to_death: infection.spec_decayed(
                elapsed_millis,
            ).current_micros_to_death,
            ..infection
        }),
{
    let rate = infection.decay_multiplier;
    assert(0 <= rate * elapsed_millis) by (nonlinear_arith);
    assert(rate > 0 && elapsed_millis > 0 ==> rate * elapsed_millis > 0) by (nonlinear_arith);
}

/// Whether `collider` infects `target` on contact: a living hostile that moves
/// and has not attached yet meets a living host.
pub open spec fn can_infect(world: Seq<EntityView>, collider: EntityId, target: EntityId) -> bool {
    &&& collider != target
    &&& is_live(world, collider)
    &&& is_live(world, target)
    &&& world[collider as int].hostile matches Some(Hostile::InfectThenDie)
    &&& world[collider as int].velocity is Some
    &&& world[collider as int].virus_attached is None
    &&& world[target as int].host is Some
    &&& world[target as int].hostile is None
}

/// `hostile` once it has attached to `host`: it stands still, is marked, holds
/// no target, and is tied to the host with its place as seen from there.
pub open spec fn attached_to(hostile: EntityView, host_id: EntityId, host: EntityView)
    -> EntityView {
    EntityView {
        velocity: Some(Velocity { heading: hostile.velocity->0.heading, speed: 0 }),
        virus_attached: Some(VirusAttached),
        targeting: None,
        child_of: Some(
            ChildOf {
                parent: host_id,
                offset: hostile.transform.translation.spec_relative_to(host.transform.translation),
            },
        ),
        ..hostile
    }
}

/// `host` once `infection` has reached it. A host that is infected already
/// stays exactly as it is.
pub open spec fn infected_by(host: EntityView, infection: Infected) -> EntityView {
    if host.infected is Some {
        host
    } else {
        EntityView { infected: Some(infection), ..host }
    }
}

/// `world` after `collider` met `target`; see [`can_infect`].
pub open spec fn infection_handled(
    world: Seq<EntityView>,
    collider: EntityId,
    target: EntityId,
    infection: Infected,
) -> Seq<EntityView> {
    if can_infect(world, collider, target) {
        world.update(
            collider as int,
            attached_to(world[collider as int], target, world[target as int]),
        ).update(target as int, infected_by(world[target as int], infection))
    } else {
        world
    }
}

/// Resolves the contact of `collider` with the host `target`.
///
/// If `collider` can infect, it attaches to the host, and the host, if
/// healthy, starts the given `infection`. Returns whether it attached.
pub fn handle_infection(
    world: &mut World,
    collider: EntityId,
    target: EntityId,
    infection: Infected,
) -> (attached: bool)
    ensures
        attached == can_infect(old(world)@, collider, target),
        final(world)@ == infection_handled(old(world)@, collider, target, infection),
{
    if collider == target || !world.is_alive(collider) || !world.is_alive(target) {
        return false;
    }
    assert(world.entities@[collider as int]@ == world@[collider as int]);
    assert(world.entities@[target as int]@ == world@[target as int]);
    let host = &world.entities[target];
    if host.host.is_none() || host.hostile.is_some() {
        return false;
    }
    let origin = host.transform.translation;
    let hostile = &world.entities[collider];
    if hostile.virus_attached.is_some() {
        return false;
    }
    let heading = match (hostile.hostile, hostile.velocity) {
        (Some(Hostile::InfectThenDie), Some(velocity)) => velocity.heading,
        _ => {
            return false;
        },
    };
    let offset = hostile.transform.translation.relative_to(&origin);
    world.entities[collider].velocity = Some(Velocity { heading, speed: 0 });
    world.entities[collider].virus_attached = Some(VirusAttached);
    world.entities[collider].targeting = None;
    world.entities[collider].child_of = Some(ChildOf { parent: target, offset });
    if world.entities[target].infected.is_none() {
        world.entities[target].infected = Some(infection);
    }
    assert(world@ =~= infection_handled(old(world)@, collider, target, infection));
    true
}

/// A host that is infected already is left exactly as it is by another
/// infection, whatever that one is configured to be.
pub proof fn lemma_infection_never_stacks(
    world: Seq<EntityView>,
    collider: EntityId,
    target: EntityId,
    infection: Infected,
)
    requires
        is_live(world, target),
        world[target as int].infected is Some,
    ensures
        infection_handled(world, collider, target, infection)[target as int] == world[target as int],
{
}

/// Handling the same contact a second time changes nothing, whatever the
/// infection is configured to be by then.
pub proof fn lemma_infection_handled_once(
    world: Seq<EntityView>,
    collider: EntityId,
    target: EntityId,
    first: Infected,
    second: Infected,
)
    ensures
        infection_handled(infection_handled(world, collider, target, first), collider, target, second)
            == infection_handled(world, collider, target, first),
{
}

/// Whether the timer of every living infected entity of `world` can hold
/// what is left after `elapsed_millis`.
pub open spec fn cells_can_decay(world: Seq<EntityView>, elapsed_millis: u32) -> bool {
    forall|i: int|
        0 <= i < world.len() && (#[trigger] world[i]).alive && world[i].infected is Some
            ==> world[i].infected->0.spec_can_decay(elapsed_millis)
}

/// Whether `after` holds the entities of `before`, none of them brought back
/// to life, and each with the infection it had or, where it had none, with
/// `template` at most.
pub open spec fn infections_carried(
    before: Seq<EntityView>,
    after: Seq<EntityView>,
    template: Infected,
) -> bool {
    &&& after.len() == before.len()
    &&& forall|i: int|
        0 <= i < before.len() ==> {
            &&& (#[trigger] after[i]).alive ==> before[i].alive
            &&& after[i].infected == before[i].infected || (before[i].infected is None
                && after[i].infected == Some(template))
        }
}

/// Tests whether [`decay_cell`] can be called.
pub fn can_decay_cells(world: &World, elapsed_millis: u32) -> (fits: bool)
    ensures
        fits == cells_can_decay(world@, elapsed_millis),
{
    let n = world.entities.len();
    let mut i: usize = 0;
    while i < n
        invariant
            i <= n,
            n == world@.len(),
            forall|j: int|
                0 <= j < i && (#[trigger] world@[j]).alive && world@[j].infected is Some
                    ==> world@[j].infected->0.spec_can_decay(elapsed_millis),
        decreases n - i,
    {
        assert(world.entities@[i as int]@ == world@[i as int]);
        if world.entities[i].alive {
            match world.entities[i].infected {
                Some(infection) => {
                    if !infection.can_decay(elapsed_millis) {
                        return false;
                    }
                },
                None => {},
            }
        }
        i += 1;
    }
    true
}

/// `world` after `elapsed_millis` of decay: the timer of every living infected
/// entity has run down, and nothing else has changed.
pub open spec fn cells_decayed(world: Seq<EntityView>, elapsed_millis: u32) -> Seq<EntityView> {
    Seq::new(
        world.len(),
        |i: int|
            if world[i].alive && world[i].infected is Some {
                EntityView {
                    infected: Some(world[i].infected->0.spec_decayed(elapsed_millis)),
                    ..world[i]
                }
            } else {
                world[i]
            },
    )
}

/// Runs every infection down by `elapsed_millis`.
///
/// No timer may be so far below zero that it cannot hold what is left; see
/// [`can_decay_cells`].
pub fn decay_cell(world: &mut World, elapsed_millis: u32)
    requires
        cells_can_decay(old(world)@, elapsed_millis),
    ensures
        final(world)@ == cells_decayed(old(world)@, elapsed_millis),
{
    let ghost before = world@;
    let n = world.entities.len();
    let mut i: usize = 0;
    while i < n
        invariant
            i <= n,
            n == before.len(),
            world@.len() == n,
            cells_can_decay(before, elapsed_millis),
            forall|j: int| i <= j < n ==> world@[j] == before[j],
            forall|j: int| 0 <= j < i ==> world@[j] == cells_decayed(before, elapsed_millis)[j],
        decreases n - i,
    {
        let ghost now = world@;
        assert(world.entities@[i as int]@ == world@[i as int]);
        assert(world@[i as int] == before[i as int]);
        if world.entities[i].alive {
            match world.entities[i].infected {
                Some(infection) => {
                    world.entities[i].infected = Some(infection.decayed(elapsed_millis));
                },
                None => {},
            }
        }
        assert forall|j: int| 0 <= j < n && j != i implies world@[j] == now[j] by {}
        i += 1;
    }
    assert(world@ =~= cells_decayed(before, elapsed_millis));
}

/// Whether an entity dies of its infection now: it lives and its timer has
/// run out.
pub open spec fn is_dying(entity: EntityView) -> bool {
    entity.alive && entity.infected is Some && entity.infected->0.spec_expired()
}

/// One fresh virus at `position` for each of `headings`.
pub open spec fn offspring(position: Point, headings: Seq<u32>) -> Seq<EntityView> {
    Seq::new(headings.len(), |k: int| spec_virus(headings[k], position))
}

/// `world` after the host at `host` burst: one virus for each of `headings`
/// has joined the world where the host stood, and the host is destroyed along
/// with the entities tied to it.
pub open spec fn burst(world: Seq<EntityView>, host: EntityId, headings: Seq<u32>) -> Seq<
    EntityView,
> {
    despawned(world + offspring(world[host as int].transform.translation, headings), host)
}

/// `before` after each of its hosts below `n` had its turn: a host that is
/// dying when its turn comes bursts, the host at `i` releasing a virus for each
/// heading of `draws[i]`. A host that went down with another one before its
/// turn is dead by then and does not burst.
pub open spec fn hosts_burst_among(before: Seq<EntityView>, draws: Seq<Seq<u32>>, n: int) -> Seq<
    EntityView,
>
    decreases n,
{
    if n <= 0 {
        before
    } else {
        let so_far = hosts_burst_among(before, draws, n - 1);
        if n <= before.len() && n <= draws.len() && is_dying(so_far[n - 1]) {
            burst(so_far, (n - 1) as usize, draws[n - 1])
        } else {
            so_far
        }
    }
}

/// `before` after all its dying hosts burst; see [`hosts_burst_among`].
pub open spec fn hosts_burst(before: Seq<EntityView>, draws: Seq<Seq<u32>>) -> Seq<EntityView> {
    hosts_burst_among(before, draws, before.len() as int)
}

/// The headings of a list of lists, as a mathematical value.
pub open spec fn draws_view(draws: Seq<Vec<u32>>) -> Seq<Seq<u32>> {
    Seq::new(draws.len(), |i: int| draws[i]@)
}

/// Lets every dying host burst: for the host at `i`, one virus heading each
/// way that `draws[i]` holds. A dying host for which `draws` holds no list stays.
pub fn release_offspring(world: &mut World, draws: &Vec<Vec<u32>>)
    ensures
        final(world)@ == hosts_burst(old(world)@, draws_view(draws@)),
{
    let ghost before = world@;
    let ghost lists = draws_view(draws@);
    let n = world.entities.len();
    let mut i: usize = 0;
    while i < n
        invariant
            i <= n,
            n == before.len(),
            n <= world@.len(),
            lists == draws_view(draws@),
            world@ == hosts_burst_among(before, lists, i as int),
        decreases n - i,
    {
        assert(world.entities@[i as int]@ == world@[i as int]);
        let dying = i < draws.len() && world.entities[i].alive && match world.entities[i].infected {
            Some(infection) => infection.expired(),
            None => false,
        };
        if dying {
            let position = world.entities[i].transform.translation;
            let headings = &draws[i];
            let ghost start = world@;
            let mut k: usize = 0;
            while k < headings.len()
                invariant
                    k <= headings.len(),
                    world@ == start + offspring(position, headings@.take(k as int)),
                decreases headings.len() - k,
            {
                world.spawn(create_virus(headings[k], position));
                assert(world@ =~= start + offspring(position, headings@.take(k as int + 1)));
                k += 1;
            }
            assert(headings@.take(headings@.len() as int) == headings@);
            assert(lists[i as int] == headings@);
            world.despawn(i);
        }
        i += 1;
    }
}

/// Whether `draws` holds, for every dying host of `world`, as many headings as
/// the host's infection was given offspring when it started, each of them a
/// proper angle.
pub open spec fn draws_fit(world: Seq<EntityView>, draws: Seq<Seq<u32>>) -> bool {
    &&& draws.len() == world.len()
    &&& forall|i: int|
        0 <= i < world.len() && is_dying(world[i]) ==> (#[trigger] draws[i]).len()
            == world[i].infected->0.num_offspring
    &&& forall|i: int, k: int|
        0 <= i < draws.len() && 0 <= k < draws[i].len() ==> (#[trigger] draws[i][k]) < FULL_TURN
}

/// Draws `count` headings.
pub fn random_headings(rng: &mut StdRng, count: u32) -> (headings: Vec<u32>)
    ensures
        headings@.len() == count,
        forall|k: int| 0 <= k < headings@.len() ==> headings@[k] < FULL_TURN,
{
    let mut headings: Vec<u32> = Vec::new();
    let mut k: u32 = 0;
    while k < count
        invariant
            k <= count,
            headings@.len() == k,
            forall|j: int| 0 <= j < headings@.len() ==> headings@[j] < FULL_TURN,
        decreases count - k,
    {
        headings.push(random_heading(rng));
        k += 1;
    }
    headings
}

/// Lets every host whose timer has run out burst.
///
/// A dying host releases as many viruses as its infection was given offspring
/// when it started, each where the host stood and heading a way drawn at
/// random; then the host is destroyed with all that is tied to it. Returns the
/// entities destroyed, in rising order.
pub fn cells_die(world: &mut World, rng: &mut StdRng) -> (destroyed: Vec<EntityId>)
    ensures
        exists|draws: Seq<Seq<u32>>|
            draws_fit(old(world)@, draws) && final(world)@ == hosts_burst(old(world)@, draws),
        destroyed@ == crate::world::died_between(old(world)@, final(world)@),
{
    let flags = world.alive_flags();
    let mut draws: Vec<Vec<u32>> = Vec::new();
    let n = world.entities.len();
    let mut i: usize = 0;
    while i < n
        invariant
            i <= n,
            n == world@.len(),
            draws@.len() == i,
            forall|j: int|
                0 <= j < i && is_dying(world@[j]) ==> (#[trigger] draws@[j])@.len()
                    == world@[j].infected->0.num_offspring,
            forall|j: int, k: int|
                0 <= j < i && 0 <= k < draws@[j]@.len() ==> (#[trigger] draws@[j]@[k]) < FULL_TURN,
        decreases n - i,
    {
        assert(world.entities@[i as int]@ == world@[i as int]);
        let count = match world.entities[i].infected {
            Some(infection) => if world.entities[i].alive && infection.expired() {
                infection.num_offspring
            } else {
                0
            },
            None => 0,
        };
        let headings = random_headings(rng, count);
        draws.push(headings);
        i += 1;
    }
    proof {
        let lists = draws_view(draws@);
        assert(draws_fit(world@, lists)) by {
            assert forall|j: int| 0 <= j < world@.len() && is_dying(world@[j]) implies (
            #[trigger] lists[j]).len() == world@[j].infected->0.num_offspring by {
                assert(lists[j] == draws@[j]@);
            }
            assert forall|j: int, k: int|
                0 <= j < lists.len() && 0 <= k < lists[j].len() implies (#[trigger] lists[j][k])
                < FULL_TURN by {
                assert(lists[j] == draws@[j]@);
                assert(draws@[j]@[k] < FULL_TURN);
            }
        }
    }
    release_offspring(world, &draws);
    world.died_since(&flags)
}

/// What an infection releases is settled when it starts: neither the time
/// that passes nor another infection, however configured, changes the count.
pub proof fn lemma_offspring_fixed_at_infection(
    world: Seq<EntityView>,
    collider: EntityId,
    target: EntityId,
    first: Infected,
    other: EntityId,
    second: Infected,
    elapsed_millis: u32,
)
    requires
        can_infect(world, collider, target),
        world[target as int].infected is None,
    ensures
        ({
            let started = infection_handled(world, collider, target, first);
            let later = cells_decayed(started, elapsed_millis);
            let again = infection_handled(later, other, target, second);
            &&& started[target as int].infected->0.num_offspring == first.num_offspring
            &&& later[target as int].infected->0.num_offspring == first.num_offspring
            &&& again[target as int].infected->0.num_offspring == first.num_offspring
        }),
{
}

/// A host that bursts adds exactly one virus to the world for each heading,
/// where it stood, and is itself destroyed.
pub proof fn lemma_burst(world: Seq<EntityView>, host: EntityId, headings: Seq<u32>)
    requires
        is_live(world, host),
    ensures
        burst(world, host, headings).len() == world.len() + headings.len(),
        !is_live(burst(world, host, headings), host),
        forall|k: int|
            0 <= k < headings.len() ==> #[trigger] burst(world, host, headings)[world.len() + k]
                == spec_virus(headings[k], world[host as int].transform.translation),
{
    let grown = world + offspring(world[host as int].transform.translation, headings);
    assert(is_live(grown, host));
    assert forall|k: int| 0 <= k < headings.len() implies #[trigger] burst(world, host, headings)[
        world.len() + k] == spec_virus(headings[k], world[host as int].transform.translation) by {
        assert(grown[world.len() + k] == offspring(
            world[host as int].transform.translation,
            headings,
        )[k]);
    }
}

/// What the bursting of hosts leaves alone: the world only grows; an entity
/// from before that is tied to nothing is as it was until its own turn; and
/// what was added is tied to nothing.
proof fn lemma_bursting_leaves(before: Seq<EntityView>, draws: Seq<Seq<u32>>, n: int)
    requires
        before.len() <= usize::MAX,
    ensures
        before.len() <= hosts_burst_among(before, draws, n).len(),
        n <= 0 ==> hosts_burst_among(before, draws, n) == before,
        forall|i: int|
            n <= i < before.len() && 0 <= i && before[i].child_of is None ==> (
            #[trigger] hosts_burst_among(before, draws, n)[i]) == before[i],
        forall|i: int|
            0 <= i < before.len() ==> (#[trigger] hosts_burst_among(
                before,
                draws,
                n,
            )[i]).transform == before[i].transform,
        forall|i: int|
            before.len() <= i < hosts_burst_among(before, draws, n).len() ==> (
            #[trigger] hosts_burst_among(before, draws, n)[i]).child_of is None,
    decreases n,
{
    if n > 0 {
        lemma_bursting_leaves(before, draws, n - 1);
        let so_far = hosts_burst_among(before, draws, n - 1);
        let next = hosts_burst_among(before, draws, n);
        if n <= before.len() && n <= draws.len() && is_dying(so_far[n - 1]) {
            let host = (n - 1) as usize;
            let grown = so_far + offspring(so_far[n - 1].transform.translation, draws[n - 1]);
            assert(next == despawned(grown, host));
            assert forall|i: int|
                n <= i < before.len() && before[i].child_of is None implies (
            #[trigger] next[i]) == before[i] by {
                assert(grown[i] == so_far[i]);
            }
            assert forall|i: int| 0 <= i < before.len() implies (#[trigger] next[i]).transform
                == before[i].transform by {
                assert(grown[i] == so_far[i]);
            }
            assert forall|i: int| before.len() <= i < next.len() implies (
            #[trigger] next[i]).child_of is None by {
                if i < so_far.len() {
                    assert(grown[i] == so_far[i]);
                } else {
                    assert(grown[i] == offspring(
                        so_far[n - 1].transform.translation,
                        draws[n - 1],
                    )[i - so_far.len()]);
                }
            }
        }
    }
}

/// What a host released stays as it is while later hosts burst.
proof fn lemma_offspring_stay(before: Seq<EntityView>, draws: Seq<Seq<u32>>, n: int, m: int, i: int)
    requires
        0 <= n <= m,
        before.len() <= usize::MAX,
        before.len() <= i < hosts_burst_among(before, draws, n).len(),
    ensures
        i < hosts_burst_among(before, draws, m).len(),
        hosts_burst_among(before, draws, m)[i] == hosts_burst_among(before, draws, n)[i],
    decreases m,
{
    if m > n {
        lemma_offspring_stay(before, draws, n, m - 1, i);
        lemma_bursting_leaves(before, draws, m - 1);
        let so_far = hosts_burst_among(before, draws, m - 1);
        if m <= before.len() && m <= draws.len() && is_dying(so_far[m - 1]) {
            let grown = so_far + offspring(so_far[m - 1].transform.translation, draws[m - 1]);
            assert(grown[i] == so_far[i]);
        }
    }
}

/// A host that is dying and tied to nothing bursts when all hosts do, however
/// many they are: it adds one virus for each of its headings, each where the
/// host stood, moving at full speed towards that heading. So the headings of
/// its offspring differ wherever the headings drawn do.
pub proof fn lemma_offspring_of_host(
    before: Seq<EntityView>,
    draws: Seq<Seq<u32>>,
    host: int,
    k: int,
)
    requires
        before.len() <= usize::MAX,
        0 <= host < before.len(),
        host < draws.len(),
        is_dying(before[host]),
        before[host].child_of is None,
        0 <= k < draws[host].len(),
    ensures
        ({
            let first = hosts_burst_among(before, draws, host).len();
            let after = hosts_burst(before, draws);
            &&& hosts_burst_among(before, draws, host + 1).len() == first + draws[host].len()
            &&& before.len() <= first
            &&& first + k < after.len()
            &&& after[first + k] == spec_virus(draws[host][k], before[host].transform.translation)
            &&& after[first + k].alive
            &&& after[first + k].transform.translation == before[host].transform.translation
            &&& after[first + k].velocity == Some(
                Velocity { heading: draws[host][k] % FULL_TURN, speed: VIRUS_SPEED },
            )
            &&& after[first + k].speed == Some(
                Speed { default: VIRUS_SPEED, current: VIRUS_SPEED },
            )
            &&& !is_live(after, host as usize)
        }),
{
    lemma_bursting_leaves(before, draws, host);
    let so_far = hosts_burst_among(before, draws, host);
    let next = hosts_burst_among(before, draws, host + 1);
    let born = offspring(so_far[host].transform.translation, draws[host]);
    let grown = so_far + born;
    assert(so_far[host] == before[host]);
    assert(next == despawned(grown, host as usize));
    assert(grown[host] == so_far[host]);
    assert(grown[so_far.len() + k] == born[k]);
    assert(next[so_far.len() + k] == spec_virus(
        draws[host][k],
        before[host].transform.translation,
    ));
    lemma_offspring_stay(before, draws, host + 1, before.len() as int, so_far.len() + k);
    lemma_host_stays_dead(before, draws, host + 1, before.len() as int, host);
}

/// A host that has burst stays dead while later hosts burst.
proof fn lemma_host_stays_dead(
    before: Seq<EntityView>,
    draws: Seq<Seq<u32>>,
    n: int,
    m: int,
    host: int,
)
    requires
        0 <= n <= m,
        0 <= host < before.len(),
        before.len() <= usize::MAX,
        !hosts_burst_among(before, draws, n)[host].alive,
    ensures
        host < hosts_burst_among(before, draws, m).len(),
        !hosts_burst_among(before, draws, m)[host].alive,
    decreases m,
{
    lemma_bursting_leaves(before, draws, m);
    if m > n {
        lemma_host_stays_dead(before, draws, n, m - 1, host);
        lemma_bursting_leaves(before, draws, m - 1);
        let so_far = hosts_burst_among(before, draws, m - 1);
        if m <= before.len() && m <= draws.len() && is_dying(so_far[m - 1]) {
            let grown = so_far + offspring(so_far[m - 1].transform.translation, draws[m - 1]);
            assert(grown[host] == so_far[host]);
        }
    }
}

} // verus!
