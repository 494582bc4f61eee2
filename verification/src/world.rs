//! The entity arena.
//!
//! An entity is a slot of the arena; its identifier is the slot's index and is
//! never handed out twice. A destroyed entity keeps its slot and is marked dead,
//! so a stale identifier is found out by a liveness test, never by accident.

use crate::collision::{Collider, ColliderView, DespawnOnContact};
use crate::enemy::{Hostile, Targeting, VirusAttached};
use crate::geometry::{Offset, Transform};
use crate::host::{Host, Infected};
use crate::movement::{Speed, TurnSpeed, Velocity};
use crate::player::Player;
use crate::player_attack::{PlayerActionParams, SeekVirus};
use vstd::prelude::*;

verus! {

/// Names an entity of a [`World`].
pub type EntityId = usize;

/// Ties an entity to the one that carries it.
#[derive(Clone, Copy, Debug, PartialEq, Eq, Structural)]
pub struct ChildOf {
    pub parent: EntityId,
    /// Where the child sat, seen from the parent's origin, when it was tied.
    pub offset: Offset,
}

/// One entity: whether it lives, where it is, and the components it carries.
#[derive(Clone, Debug)]
pub struct Entity {
    pub alive: bool,
    pub transform: Transform,
    pub velocity: Option<Velocity>,
    pub speed: Option<Speed>,
    pub turn_speed: Option<TurnSpeed>,
    pub collider: Option<Collider>,
    pub despawn_on_contact: Option<DespawnOnContact>,
    pub player: Option<Player>,
    pub action_params: Option<PlayerActionParams>,
    pub seek_virus: Option<SeekVirus>,
    pub hostile: Option<Hostile>,
    pub host: Option<Host>,
    pub targeting: Option<Targeting>,
    pub virus_attached: Option<VirusAttached>,
    pub child_of: Option<ChildOf>,
    pub infected: Option<Infected>,
}

/// What an [`Entity`] holds, as a mathematical value.
pub struct EntityView {
    pub alive: bool,
    pub transform: Transform,
    pub velocity: Option<Velocity>,
    pub speed: Option<Speed>,
    pub turn_speed: Option<TurnSpeed>,
    pub collider: Option<ColliderView>,
    pub despawn_on_contact: Option<DespawnOnContact>,
    pub player: Option<Player>,
    pub action_params: Option<PlayerActionParams>,
    pub seek_virus: Option<SeekVirus>,
    pub hostile: Option<Hostile>,
    pub host: Option<Host>,
    pub targeting: Option<Targeting>,
    pub virus_attached: Option<VirusAttached>,
    pub child_of: Option<ChildOf>,
    pub infected: Option<Infected>,
}

impl View for Entity {
    type V = EntityView;

    open spec fn view(&self) -> EntityView {
        EntityView {
            alive: self.alive,
            transform: self.transform,
            velocity: self.velocity,
            speed: self.speed,
            turn_speed: self.turn_speed,
            collider: match self.collider {
                Some(c) => Some(c@),
                None => None,
            },
            despawn_on_contact: self.despawn_on_contact,
            player: self.player,
            action_params: self.action_params,
            seek_virus: self.seek_virus,
            hostile: self.hostile,
            host: self.host,
            targeting: self.targeting,
            virus_attached: self.virus_attached,
            child_of: self.child_of,
            infected: self.infected,
        }
    }
}

/// Every entity there is or was, by identifier.
pub struct World {
    pub entities: Vec<Entity>,
}

impl View for World {
    type V = Seq<EntityView>;

    open spec fn view(&self) -> Seq<EntityView> {
        Seq::new(self.entities@.len(), |i: int| self.entities@[i]@)
    }
}

/// The classes that contact events are raised for. An entity belongs to a class
/// when it carries the component that marks it.
#[derive(Clone, Copy, Debug, PartialEq, Eq, Structural)]
pub enum EntityClass {
    Player,
    Ally,
    Hostile,
    Host,
}

/// Whether `entity` carries the marker of `class`.
pub open spec fn spec_has_class(entity: EntityView, class: EntityClass) -> bool {
    match class {
        EntityClass::Player => entity.player is Some,
        EntityClass::Ally => entity.seek_virus is Some,
        EntityClass::Hostile => entity.hostile is Some,
        EntityClass::Host => entity.host is Some,
    }
}

/// Whether `id` names a living entity of `world` that belongs to `class`.
pub open spec fn in_class(world: Seq<EntityView>, id: EntityId, class: EntityClass) -> bool {
    is_live(world, id) && spec_has_class(world[id as int], class)
}

/// Whether `id` names an entity of `world` that has not been destroyed.
pub open spec fn is_live(world: Seq<EntityView>, id: EntityId) -> bool {
    id < world.len() && world[id as int].alive
}

/// Whether the entity at `i` goes when `id` is destroyed: it is that entity,
/// or one tied to it.
pub open spec fn goes_with(world: Seq<EntityView>, id: EntityId, i: int) -> bool {
    i == id || (world[i].child_of is Some && world[i].child_of.unwrap().parent == id)
}

/// `world` after the entity `id` was destroyed, along with the entities tied
/// to it. Destroying what does not live changes nothing.
pub open spec fn despawned(world: Seq<EntityView>, id: EntityId) -> Seq<EntityView> {
    if is_live(world, id) {
        Seq::new(
            world.len(),
            |i: int|
                if goes_with(world, id, i) {
                    EntityView { alive: false, ..world[i] }
                } else {
                    world[i]
                },
        )
    } else {
        world
    }
}

/// `world` after the first `k` entities of `doomed` were destroyed in turn.
pub open spec fn despawned_all(world: Seq<EntityView>, doomed: Seq<EntityId>, k: int) -> Seq<
    EntityView,
>
    decreases k,
{
    if k <= 0 {
        world
    } else {
        despawned(despawned_all(world, doomed, k - 1), doomed[k - 1])
    }
}

/// Which identifiers of `world` name a living entity.
pub open spec fn liveness(world: Seq<EntityView>) -> Seq<bool> {
    Seq::new(world.len(), |i: int| world[i].alive)
}

/// The entities below `n` that `lived` marks and that do not live in `after`,
/// in rising order.
pub open spec fn died_among(lived: Seq<bool>, after: Seq<EntityView>, n: int) -> Seq<EntityId>
    decreases n,
{
    if n <= 0 {
        Seq::empty()
    } else if n <= lived.len() && lived[n - 1] && !is_live(after, (n - 1) as usize) {
        died_among(lived, after, n - 1).push((n - 1) as usize)
    } else {
        died_among(lived, after, n - 1)
    }
}

/// The entities that lived in `before` and do not live in `after`, in rising
/// order.
pub open spec fn died_between(before: Seq<EntityView>, after: Seq<EntityView>) -> Seq<EntityId> {
    died_among(liveness(before), after, before.len() as int)
}

/// Destroying entities takes none out of the arena.
pub proof fn lemma_despawned_all_length(world: Seq<EntityView>, doomed: Seq<EntityId>, k: int)
    ensures
        despawned_all(world, doomed, k).len() == world.len(),
    decreases k,
{
    if k > 0 {
        lemma_despawned_all_length(world, doomed, k - 1);
    }
}

impl Entity {
    /// An entity with a place and nothing else.
    pub open spec fn spec_bare(transform: Transform) -> EntityView {
        EntityView {
            alive: true,
            transform,
            velocity: None,
            speed: None,
            turn_speed: None,
            collider: None,
            despawn_on_contact: None,
            player: None,
            action_params: None,
            seek_virus: None,
            hostile: None,
            host: None,
            targeting: None,
            virus_attached: None,
            child_of: None,
            infected: None,
        }
    }

    pub fn bare(transform: Transform) -> (e: Entity)
        ensures
            e@ == Entity::spec_bare(transform),
    {
        Entity {
            alive: true,
            transform,
            velocity: None,
            speed: None,
            turn_speed: None,
            collider: None,
            despawn_on_contact: None,
            player: None,
            action_params: None,
            seek_virus: None,
            hostile: None,
            host: None,
            targeting: None,
            virus_attached: None,
            child_of: None,
            infected: None,
        }
    }
}

impl World {
    pub fn new() -> (world: World)
        ensures
            world@ == Seq::<EntityView>::empty(),
    {
        let world = World { entities: Vec::new() };
        assert(world@ =~= Seq::<EntityView>::empty());
        world
    }

    /// How many identifiers have been handed out.
    pub fn len(&self) -> (n: usize)
        ensures
            n == self@.len(),
    {
        self.entities.len()
    }

    /// Adds `entity`, alive, and returns its identifier.
    pub fn spawn(&mut self, entity: Entity) -> (id: EntityId)
        ensures
            id == old(self)@.len(),
            final(self)@ == old(self)@.push(EntityView { alive: true, ..entity@ }),
    {
        let mut entity = entity;
        entity.alive = true;
        let id = self.entities.len();
        self.entities.push(entity);
        assert(self@ =~= old(self)@.push(EntityView { alive: true, ..entity@ }));
        id
    }

    /// The liveness test that every use of an identifier starts with.
    pub fn is_alive(&self, id: EntityId) -> (live: bool)
        ensures
            live == is_live(self@, id),
    {
        id < self.entities.len() && self.entities[id].alive
    }

    /// Whether `id` names a living entity that belongs to `class`.
    pub fn has_class(&self, id: EntityId, class: EntityClass) -> (member: bool)
        ensures
            member == in_class(self@, id, class),
    {
        if id < self.entities.len() && self.entities[id].alive {
            let entity = &self.entities[id];
            assert(entity@ == self@[id as int]);
            match class {
                EntityClass::Player => entity.player.is_some(),
                EntityClass::Ally => entity.seek_virus.is_some(),
                EntityClass::Hostile => entity.hostile.is_some(),
                EntityClass::Host => entity.host.is_some(),
            }
        } else {
            false
        }
    }

    /// Destroys the entity `id` and the entities tied to it.
    pub fn despawn(&mut self, id: EntityId)
        ensures
            final(self)@ == despawned(old(self)@, id),
    {
        if !self.is_alive(id) {
            return ;
        }
        let ghost before = self@;
        let n = self.entities.len();
        let mut i: usize = 0;
        while i < n
            invariant
                i <= n,
                n == before.len(),
                self@.len() == n,
                is_live(before, id),
                forall|j: int| i <= j < n ==> self@[j] == before[j],
                forall|j: int| 0 <= j < i ==> self@[j] == despawned(before, id)[j],
            decreases n - i,
        {
            let ghost now = self@;
            assert(self.entities@[i as int]@ == self@[i as int]);
            let goes = i == id || match self.entities[i].child_of {
                Some(tie) => tie.parent == id,
                None => false,
            };
            if goes {
                self.entities[i].alive = false;
            }
            assert forall|j: int| 0 <= j < n && j != i implies self@[j] == now[j] by {}
            i += 1;
        }
        assert(self@ =~= despawned(before, id));
    }

    /// Destroys the entities of `doomed` one after the other, each with the
    /// entities tied to it. One that is dead by its turn is passed over.
    pub fn despawn_all(&mut self, doomed: &Vec<EntityId>)
        ensures
            final(self)@ == despawned_all(old(self)@, doomed@, doomed@.len() as int),
    {
        let mut k: usize = 0;
        while k < doomed.len()
            invariant
                k <= doomed.len(),
                self@ == despawned_all(old(self)@, doomed@, k as int),
            decreases doomed.len() - k,
        {
            self.despawn(doomed[k]);
            k += 1;
        }
    }

    /// Which identifiers name a living entity, by identifier.
    pub fn alive_flags(&self) -> (flags: Vec<bool>)
        ensures
            flags@ == liveness(self@),
    {
        let mut flags: Vec<bool> = Vec::new();
        let mut i: usize = 0;
        while i < self.entities.len()
            invariant
                i <= self.entities.len(),
                flags@.len() == i,
                forall|j: int| 0 <= j < i ==> flags@[j] == self@[j].alive,
            decreases self.entities.len() - i,
        {
            assert(self.entities@[i as int]@ == self@[i as int]);
            flags.push(self.entities[i].alive);
            i += 1;
        }
        assert(flags@ =~= liveness(self@));
        flags
    }

    /// The entities that lived when `flags` was taken and live no more, in
    /// rising order: the destroy events of the steps in between.
    pub fn died_since(&self, flags: &Vec<bool>) -> (died: Vec<EntityId>)
        ensures
            died@ == died_among(flags@, self@, flags@.len() as int),
    {
        let mut died: Vec<EntityId> = Vec::new();
        let n = flags.len();
        let mut i: usize = 0;
        while i < n
            invariant
                i <= n,
                n == flags@.len(),
                died@ == died_among(flags@, self@, i as int),
            decreases n - i,
        {
            if flags[i] && !self.is_alive(i) {
                died.push(i);
            }
            i += 1;
        }
        died
    }

    /// The entity that `id` names, if it lives.
    pub fn get(&self, id: EntityId) -> (found: Option<&Entity>)
        ensures
            found is Some <==> is_live(self@, id),
            found is Some ==> found->0@ == self@[id as int],
    {
        if id < self.entities.len() && self.entities[id].alive {
            Some(&self.entities[id])
        } else {
            None
        }
    }
}

} // verus!
