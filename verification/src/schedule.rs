//! One tick of the simulation, phase by phase.
//!
//! Movement is integrated by the caller before the tick, from the velocities
//! that the last tick left. Seekers are steered by the caller after it, with
//! [`crate::enemy::set_velocity`], and a wave that the tick plans is placed by
//! the caller too.

use crate::collision::{
    all_events, collision_detection, detected, dispatch_events, CollisionEvent,
};
use crate::encounter::{
    encounters_resolved, event_resolved, events_resolved, resolve_encounters, Resolution,
};
use crate::enemy::{
    assign_targets, clear_lost_targets, dead_targets_dropped, drop_dead_targets,
    lost_targets_cleared, targets_assigned, targets_live,
};
use crate::host::{
    cells_can_decay, cells_decayed, cells_die, decay_cell, draws_fit, hosts_burst,
    hosts_burst_among, infections_carried, is_dying, offspring, Infected,
};
use crate::level::{hostile_among, hostiles_remain, spawn_enemies, spawner_after, wave_fits,
    EnemySpawner, Wave};
use crate::world::{
    despawned, despawned_all, died_among, liveness, EntityClass, EntityId, EntityView, World,
};
use rand::rngs::StdRng;
use vstd::prelude::*;

verus! {

/// What a tick did that the caller has to act on.
#[derive(Debug)]
pub struct TickReport {
    /// The entities destroyed in this tick, in rising order.
    pub destroyed: Vec<EntityId>,
    /// The wave to place, if the scheduler sent one.
    pub wave: Option<Wave>,
}

/// `world` after contacts were detected, the events they raise resolved, and
/// targets that are no longer eligible let go.
pub open spec fn encounters_settled(world: Seq<EntityView>, infection: Infected) -> Seq<
    EntityView,
> {
    let touched = detected(world);
    let resolved = encounters_resolved(touched, all_events(touched), infection);
    lost_targets_cleared(lost_targets_cleared(resolved, EntityClass::Hostile), EntityClass::Ally)
}

/// Whether `after` is `settled` once its seekers were given targets: first the
/// hostiles, then the allies.
pub open spec fn seekers_served(settled: Seq<EntityView>, after: Seq<EntityView>) -> bool {
    exists|between: Seq<EntityView>|
        #[trigger] targets_assigned(settled, between, EntityClass::Hostile) && targets_assigned(
            between,
            after,
            EntityClass::Ally,
        )
}

/// Whether `after` is `served` once its infections ran down by
/// `elapsed_millis`, the hosts whose time was up burst, and targets that died
/// were let go.
pub open spec fn infections_run(
    served: Seq<EntityView>,
    after: Seq<EntityView>,
    elapsed_millis: u32,
) -> bool {
    let decayed = cells_decayed(served, elapsed_millis);
    exists|draws: Seq<Seq<u32>>|
        #[trigger] draws_fit(decayed, draws) && after == dead_targets_dropped(
            hosts_burst(decayed, draws),
        )
}

/// Whether `after` is what a tick of `elapsed_millis` may make of `before`.
/// Chance decides which targets are taken and where offspring head, and
/// nothing else.
pub open spec fn ticked(
    before: Seq<EntityView>,
    after: Seq<EntityView>,
    infection: Infected,
    elapsed_millis: u32,
) -> bool {
    exists|served: Seq<EntityView>|
        #[trigger] seekers_served(encounters_settled(before, infection), served) && infections_run(
            served,
            after,
            elapsed_millis,
        )
}

/// Runs one tick: contacts, encounters, targets, infections, and the wave
/// scheduler, in this order.
///
/// A host that starts an infection in this tick starts `infection`. No timer,
/// that of `infection` included, may be so far below zero that it cannot hold
/// what is left after the tick; see [`crate::host::can_decay_cells`].
pub fn tick(
    world: &mut World,
    spawner: &mut EnemySpawner,
    infection: Infected,
    elapsed_millis: u32,
    rng: &mut StdRng,
) -> (report: TickReport)
    requires
        old(spawner).wave < u32::MAX,
        cells_can_decay(old(world)@, elapsed_millis),
        infection.spec_can_decay(elapsed_millis),
    ensures
        ticked(old(world)@, final(world)@, infection, elapsed_millis),
        targets_live(final(world)@),
        report.destroyed@ == died_among(
            liveness(old(world)@),
            final(world)@,
            old(world)@.len() as int,
        ),
        *final(spawner) == spawner_after(
            *old(spawner),
            hostile_among(final(world)@, final(world)@.len() as int),
            elapsed_millis,
        ),
        report.wave is Some <==> old(spawner).timer_millis <= 0 && !hostile_among(
            final(world)@,
            final(world)@.len() as int,
        ),
        report.wave is Some ==> wave_fits(*old(spawner), report.wave->0),
{
    let ghost before = world@;
    let flags = world.alive_flags();
    collision_detection(world);
    let events = dispatch_events(world);
    resolve_encounters(world, &events, infection);
    clear_lost_targets(world, EntityClass::Hostile);
    clear_lost_targets(world, EntityClass::Ally);
    let ghost settled = world@;
    assert(settled == encounters_settled(before, infection));
    assign_targets(world, EntityClass::Hostile, rng);
    let ghost between = world@;
    assign_targets(world, EntityClass::Ally, rng);
    let ghost served = world@;
    assert(seekers_served(settled, served)) by {
        assert(targets_assigned(settled, between, EntityClass::Hostile));
    }
    proof {
        lemma_settling_carries_infections(before, served, infection);
    }
    decay_cell(world, elapsed_millis);
    let ghost decayed = world@;
    cells_die(world, rng);
    let ghost burst = world@;
    drop_dead_targets(world);
    assert(infections_run(served, world@, elapsed_millis)) by {
        let draws = choose|draws: Seq<Seq<u32>>|
            draws_fit(decayed, draws) && burst == hosts_burst(decayed, draws);
        assert(draws_fit(decayed, draws));
    }
    assert(ticked(before, world@, infection, elapsed_millis)) by {
        assert(seekers_served(encounters_settled(before, infection), served));
    }
    let remain = hostiles_remain(world);
    let wave = spawn_enemies(spawner, remain, elapsed_millis, rng);
    let destroyed = world.died_since(&flags);
    TickReport { destroyed, wave }
}

proof fn lemma_carried_through(
    a: Seq<EntityView>,
    b: Seq<EntityView>,
    c: Seq<EntityView>,
    template: Infected,
)
    requires
        infections_carried(a, b, template),
        infections_carried(b, c, template),
    ensures
        infections_carried(a, c, template),
{
    assert forall|i: int| 0 <= i < a.len() implies {
        &&& (#[trigger] c[i]).alive ==> a[i].alive
        &&& c[i].infected == a[i].infected || (a[i].infected is None && c[i].infected == Some(
            template,
        ))
    } by {
        assert(b[i].alive ==> a[i].alive);
    }
}

proof fn lemma_resolving_carries(
    start: Resolution,
    events: Seq<CollisionEvent>,
    k: int,
    infection: Infected,
)
    ensures
        infections_carried(
            start.world,
            events_resolved(start, events, k, infection).world,
            infection,
        ),
    decreases k,
{
    if k > 0 {
        lemma_resolving_carries(start, events, k - 1, infection);
        let so_far = events_resolved(start, events, k - 1, infection);
        let next = event_resolved(so_far, events[k - 1], infection);
        assert(infections_carried(so_far.world, next.world, infection));
        lemma_carried_through(start.world, so_far.world, next.world, infection);
    }
}

proof fn lemma_despawning_carries(
    world: Seq<EntityView>,
    doomed: Seq<EntityId>,
    k: int,
    infection: Infected,
)
    ensures
        infections_carried(world, despawned_all(world, doomed, k), infection),
    decreases k,
{
    if k > 0 {
        lemma_despawning_carries(world, doomed, k - 1, infection);
        let so_far = despawned_all(world, doomed, k - 1);
        assert(infections_carried(so_far, despawned(so_far, doomed[k - 1]), infection));
        lemma_carried_through(world, so_far, despawned(so_far, doomed[k - 1]), infection);
    }
}

/// Up to the point where infections run down, a tick brings no entity back
/// to life and changes no infection; it only starts `infection` where there
/// was none. So what can run down before can run down then.
proof fn lemma_settling_carries_infections(
    before: Seq<EntityView>,
    served: Seq<EntityView>,
    infection: Infected,
)
    requires
        seekers_served(encounters_settled(before, infection), served),
    ensures
        infections_carried(before, served, infection),
        forall|elapsed_millis: u32|
            cells_can_decay(before, elapsed_millis) && infection.spec_can_decay(elapsed_millis)
                ==> #[trigger] cells_can_decay(served, elapsed_millis),
{
    let touched = detected(before);
    let start = Resolution { world: touched, doomed: Seq::empty() };
    let events = all_events(touched);
    let end = events_resolved(start, events, events.len() as int, infection);
    let resolved = encounters_resolved(touched, events, infection);
    let cleared = lost_targets_cleared(resolved, EntityClass::Hostile);
    let settled = encounters_settled(before, infection);
    let between = choose|between: Seq<EntityView>|
        #[trigger] targets_assigned(settled, between, EntityClass::Hostile) && targets_assigned(
            between,
            served,
            EntityClass::Ally,
        );
    assert(infections_carried(before, touched, infection));
    lemma_resolving_carries(start, events, events.len() as int, infection);
    lemma_despawning_carries(end.world, end.doomed, end.doomed.len() as int, infection);
    lemma_carried_through(touched, end.world, resolved, infection);
    lemma_carried_through(before, touched, resolved, infection);
    assert(infections_carried(resolved, cleared, infection));
    assert(infections_carried(cleared, settled, infection));
    lemma_carried_through(resolved, cleared, settled, infection);
    lemma_carried_through(before, resolved, settled, infection);
    assert(infections_carried(settled, between, infection));
    assert(infections_carried(between, served, infection));
    lemma_carried_through(settled, between, served, infection);
    lemma_carried_through(before, settled, served, infection);
    assert forall|elapsed_millis: u32|
        cells_can_decay(before, elapsed_millis) && infection.spec_can_decay(
            elapsed_millis,
        ) implies #[trigger] cells_can_decay(served, elapsed_millis) by {
        assert forall|i: int|
            0 <= i < served.len() && (#[trigger] served[i]).alive && served[i].infected
                is Some implies served[i].infected->0.spec_can_decay(elapsed_millis) by {
            assert(before[i].alive);
        }
    }
}

/// Whether every entity of `before` that has attached is there, attached, in
/// `after`.
pub open spec fn attachments_kept(before: Seq<EntityView>, after: Seq<EntityView>) -> bool {
    &&& before.len() <= after.len()
    &&& forall|i: int|
        0 <= i < before.len() && before[i].virus_attached is Some ==> (
        #[trigger] after[i]).virus_attached is Some
}

proof fn lemma_kept_through(a: Seq<EntityView>, b: Seq<EntityView>, c: Seq<EntityView>)
    requires
        attachments_kept(a, b),
        attachments_kept(b, c),
    ensures
        attachments_kept(a, c),
{
    assert forall|i: int| 0 <= i < a.len() && a[i].virus_attached is Some implies (
    #[trigger] c[i]).virus_attached is Some by {
        assert(b[i].virus_attached is Some);
    }
}

proof fn lemma_resolving_keeps(
    start: Resolution,
    events: Seq<CollisionEvent>,
    k: int,
    infection: Infected,
)
    ensures
        attachments_kept(start.world, events_resolved(start, events, k, infection).world),
    decreases k,
{
    if k > 0 {
        lemma_resolving_keeps(start, events, k - 1, infection);
        let so_far = events_resolved(start, events, k - 1, infection);
        let next = event_resolved(so_far, events[k - 1], infection);
        assert(attachments_kept(so_far.world, next.world));
        lemma_kept_through(start.world, so_far.world, next.world);
    }
}

proof fn lemma_despawning_keeps(world: Seq<EntityView>, doomed: Seq<EntityId>, k: int)
    ensures
        attachments_kept(world, despawned_all(world, doomed, k)),
    decreases k,
{
    if k > 0 {
        lemma_despawning_keeps(world, doomed, k - 1);
        let so_far = despawned_all(world, doomed, k - 1);
        assert(attachments_kept(so_far, despawned(so_far, doomed[k - 1])));
        lemma_kept_through(world, so_far, despawned(so_far, doomed[k - 1]));
    }
}

proof fn lemma_bursting_keeps(before: Seq<EntityView>, draws: Seq<Seq<u32>>, n: int)
    ensures
        attachments_kept(before, hosts_burst_among(before, draws, n)),
    decreases n,
{
    if n > 0 {
        lemma_bursting_keeps(before, draws, n - 1);
        let so_far = hosts_burst_among(before, draws, n - 1);
        let next = hosts_burst_among(before, draws, n);
        if n <= before.len() && n <= draws.len() && is_dying(so_far[n - 1]) {
            let host = (n - 1) as usize;
            let grown = so_far + offspring(so_far[n - 1].transform.translation, draws[n - 1]);
            assert forall|i: int|
                0 <= i < so_far.len() && so_far[i].virus_attached is Some implies (
            #[trigger] next[i]).virus_attached is Some by {
                assert(grown[i] == so_far[i]);
            }
        }
        lemma_kept_through(before, so_far, next);
    }
}

/// Whatever chance decides in a tick, an entity that has attached stays
/// attached: the tick takes the mark from none.
pub proof fn lemma_tick_keeps_attachments(
    before: Seq<EntityView>,
    after: Seq<EntityView>,
    infection: Infected,
    elapsed_millis: u32,
)
    requires
        ticked(before, after, infection, elapsed_millis),
    ensures
        attachments_kept(before, after),
{
    let touched = detected(before);
    let start = Resolution { world: touched, doomed: Seq::empty() };
    let events = all_events(touched);
    let end = events_resolved(start, events, events.len() as int, infection);
    let resolved = encounters_resolved(touched, events, infection);
    let cleared = lost_targets_cleared(resolved, EntityClass::Hostile);
    let settled = encounters_settled(before, infection);
    let served = choose|served: Seq<EntityView>|
        #[trigger] seekers_served(settled, served) && infections_run(served, after, elapsed_millis);
    let between = choose|between: Seq<EntityView>|
        #[trigger] targets_assigned(settled, between, EntityClass::Hostile) && targets_assigned(
            between,
            served,
            EntityClass::Ally,
        );
    let decayed = cells_decayed(served, elapsed_millis);
    let draws = choose|draws: Seq<Seq<u32>>|
        #[trigger] draws_fit(decayed, draws) && after == dead_targets_dropped(
            hosts_burst(decayed, draws),
        );
    let burst = hosts_burst(decayed, draws);
    assert(attachments_kept(before, touched));
    lemma_resolving_keeps(start, events, events.len() as int, infection);
    lemma_despawning_keeps(end.world, end.doomed, end.doomed.len() as int);
    lemma_kept_through(touched, end.world, resolved);
    lemma_kept_through(before, touched, resolved);
    assert(attachments_kept(resolved, cleared));
    assert(attachments_kept(cleared, settled));
    lemma_kept_through(resolved, cleared, settled);
    lemma_kept_through(before, resolved, settled);
    assert(attachments_kept(settled, between));
    assert(attachments_kept(between, served));
    lemma_kept_through(settled, between, served);
    lemma_kept_through(before, settled, served);
    assert(attachments_kept(served, decayed));
    lemma_bursting_keeps(decayed, draws, decayed.len() as int);
    assert(attachments_kept(burst, after));
    lemma_kept_through(served, decayed, burst);
    lemma_kept_through(served, burst, after);
    lemma_kept_through(before, served, after);
}

/// Whatever chance decides in a tick, no living entity holds a dead target
/// when the tick is over.
pub proof fn lemma_tick_leaves_no_dead_target(
    before: Seq<EntityView>,
    after: Seq<EntityView>,
    infection: Infected,
    elapsed_millis: u32,
)
    requires
        ticked(before, after, infection, elapsed_millis),
    ensures
        targets_live(after),
{
    let served = choose|served: Seq<EntityView>|
        #[trigger] seekers_served(encounters_settled(before, infection), served) && infections_run(
            served,
            after,
            elapsed_millis,
        );
    let decayed = cells_decayed(served, elapsed_millis);
    let draws = choose|draws: Seq<Seq<u32>>|
        #[trigger] draws_fit(decayed, draws) && after == dead_targets_dropped(
            hosts_burst(decayed, draws),
        );
    crate::enemy::lemma_dropped_targets_live(hosts_burst(decayed, draws));
}

} // verus!
