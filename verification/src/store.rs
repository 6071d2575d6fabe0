//! The shared entity store: what an entity is, and what must always hold of
//! the store as a whole.

use vstd::prelude::*;
use crate::geometry::Point;
use crate::geometry::Velocity;

verus! {

/// Hunger at its fullest, in thousandths of a percent.
pub const FULL_HUNGER: u32 = 100_000;

/// How full a shmoop is, in thousandths of a percent; `0` is starving.
#[derive(Clone, Copy, Debug, PartialEq, Eq)]
pub struct Hunger {
    pub percentage: u32,
}

/// For how many milliseconds the current goal has been pursued.
#[derive(Clone, Copy, Debug, PartialEq, Eq)]
pub struct DestinationTime {
    pub time: u64,
}

/// The point a shmoop is walking to.
#[derive(Clone, Copy, Debug, PartialEq, Eq)]
pub struct ShmoopDestination {
    pub target: Point,
}

/// The entity a shmoop is walking to in order to touch it.
#[derive(Clone, Copy, Debug, PartialEq, Eq)]
pub struct ShmoopInteractionTarget {
    pub entity: usize,
}

/// What a shmoop carries, and the joint that holds it.
#[derive(Clone, Copy, Debug, PartialEq, Eq)]
pub struct Carrying {
    pub entity: usize,
    pub joint_entity: usize,
}

/// The half extent of the arena; its `y` is the height below which a shmoop
/// counts as fallen.
#[derive(Clone, Copy, Debug, PartialEq, Eq)]
pub struct MapBounds {
    pub half_size: Point,
}

/// Whether physics holds a body in place or lets it move.
#[derive(Clone, Copy, Debug, PartialEq, Eq)]
pub enum RigidBody {
    Static,
    Dynamic,
}

/// The state that only a shmoop has.
#[derive(Clone, Copy, Debug, PartialEq, Eq)]
pub struct Shmoop {
    pub velocity: Velocity,
    pub hunger: Hunger,
    pub destination: Option<ShmoopDestination>,
    pub destination_time: Option<DestinationTime>,
    pub interaction_target: Option<ShmoopInteractionTarget>,
    pub carrying: Option<Carrying>,
    pub picked: bool,
    pub dead: bool,
}

/// What sort of thing an entity is.
#[derive(Clone, Copy, Debug, PartialEq, Eq)]
pub enum Kind {
    Shmoop(Shmoop),
    FoodStore,
    Tree,
    Ground,
    ShipFloor,
}

/// One slot of the store. A despawned entity keeps its slot, so that a handle
/// never comes to mean another entity.
#[derive(Clone, Copy, Debug, PartialEq, Eq)]
pub struct Entity {
    pub alive: bool,
    pub kind: Kind,
    pub position: Point,
    pub body: RigidBody,
    pub can_be_carried: bool,
    pub interactable: bool,
    pub can_be_dragged_on: bool,
}

/// A distance joint between a shmoop and what it carries, anchored at a point
/// in each one's local frame.
#[derive(Clone, Copy, Debug, PartialEq, Eq)]
pub struct Joint {
    pub alive: bool,
    pub shmoop: usize,
    pub target: usize,
    pub local_anchor1: Point,
    pub local_anchor2: Point,
    /// How soft the joint is, in thousandths.
    pub compliance: u32,
}

/// How soft a carrying joint is made, in thousandths.
pub const JOINT_COMPLIANCE: u32 = 500;

/// The whole simulated world.
#[derive(Debug, PartialEq, Eq)]
pub struct World {
    pub entities: Vec<Entity>,
    pub joints: Vec<Joint>,
    pub bounds: MapBounds,
    /// Milliseconds since the hazard last dropped a ground tile.
    pub shrink_timer: u64,
}

/// The world as the contracts see it.
pub struct WorldView {
    pub entities: Seq<Entity>,
    pub joints: Seq<Joint>,
    pub bounds: MapBounds,
    pub shrink_timer: u64,
}

impl View for World {
    type V = WorldView;

    open spec fn view(&self) -> WorldView {
        WorldView {
            entities: self.entities@,
            joints: self.joints@,
            bounds: self.bounds,
            shrink_timer: self.shrink_timer,
        }
    }
}

impl Shmoop {
    /// A shmoop has a goal when any of the three goal fields is set.
    pub open spec fn has_goal(self) -> bool {
        self.destination is Some || self.interaction_target is Some
            || self.destination_time is Some
    }

    /// The same shmoop with all three goal fields cleared at once.
    pub open spec fn without_goal(self) -> Shmoop {
        Shmoop { destination: None, destination_time: None, interaction_target: None, ..self }
    }

    /// The same shmoop with a fresh goal: a destination, perhaps an entity to
    /// touch there, and an age of zero.
    pub open spec fn with_goal(self, target: Point, entity: Option<usize>) -> Shmoop {
        Shmoop {
            destination: Some(ShmoopDestination { target }),
            destination_time: Some(DestinationTime { time: 0 }),
            interaction_target: match entity {
                Some(e) => Some(ShmoopInteractionTarget { entity: e }),
                None => None,
            },
            ..self
        }
    }

    /// The goal fields agree: an age exactly when there is a destination, and
    /// no interaction target without one.
    pub open spec fn goal_consistent(self) -> bool {
        &&& self.destination_time is Some <==> self.destination is Some
        &&& self.interaction_target is Some ==> self.destination is Some
    }

    /// A shmoop is idle when it has neither destination nor interaction target
    /// and is not held by the pointer.
    pub open spec fn idle(self) -> bool {
        self.destination is None && self.interaction_target is None && !self.picked
    }

    /// Clears all three goal fields at once.
    pub fn clear_goal(self) -> (r: Shmoop)
        ensures
            r == self.without_goal(),
    {
        Shmoop { destination: None, destination_time: None, interaction_target: None, ..self }
    }

    /// Replaces whatever goal there was by a fresh one.
    pub fn set_goal(self, target: Point, entity: Option<usize>) -> (r: Shmoop)
        ensures
            r == self.with_goal(target, entity),
    {
        Shmoop {
            destination: Some(ShmoopDestination { target }),
            destination_time: Some(DestinationTime { time: 0 }),
            interaction_target: match entity {
                Some(e) => Some(ShmoopInteractionTarget { entity: e }),
                None => None,
            },
            ..self
        }
    }
}

/// When a step clears a shmoop's destination, it clears the goal's age and
/// interaction target with it.
pub open spec fn goal_cleared_atomically(before: Entity, after: Entity) -> bool {
    before.is_shmoop() && after.is_shmoop() && before.shmoop().destination is Some
        && after.shmoop().destination is None ==> after.shmoop().destination_time is None
        && after.shmoop().interaction_target is None
}

/// A step from `before` to `after` that makes no shmoop, leaves a shmoop held
/// and carrying as it was, and does not spoil a sound goal or a hunger in
/// range.
pub open spec fn keeps_bonds(before: Entity, after: Entity) -> bool {
    after.is_shmoop() ==> {
        &&& before.is_shmoop()
        &&& after.shmoop().carrying == before.shmoop().carrying
        &&& after.shmoop().picked == before.shmoop().picked
        &&& before.shmoop().goal_consistent() ==> after.shmoop().goal_consistent()
        &&& before.shmoop().hunger.percentage <= FULL_HUNGER ==> after.shmoop().hunger.percentage
            <= FULL_HUNGER
    }
}

impl Entity {
    /// A shmoop as it enters the world: at rest, full, with no goal, neither
    /// held nor carrying nor dead.
    pub fn new_shmoop(position: Point) -> (e: Entity)
        ensures
            e == (Entity {
                alive: true,
                kind: Kind::Shmoop(
                    Shmoop {
                        velocity: Velocity { x: 0, y: 0, z: 0 },
                        hunger: Hunger { percentage: FULL_HUNGER },
                        destination: None,
                        destination_time: None,
                        interaction_target: None,
                        carrying: None,
                        picked: false,
                        dead: false,
                    },
                ),
                position,
                body: RigidBody::Dynamic,
                can_be_carried: false,
                interactable: false,
                can_be_dragged_on: false,
            }),
    {
        Entity {
            alive: true,
            kind: Kind::Shmoop(
                Shmoop {
                    velocity: Velocity { x: 0, y: 0, z: 0 },
                    hunger: Hunger { percentage: FULL_HUNGER },
                    destination: None,
                    destination_time: None,
                    interaction_target: None,
                    carrying: None,
                    picked: false,
                    dead: false,
                },
            ),
            position,
            body: RigidBody::Dynamic,
            can_be_carried: false,
            interactable: false,
            can_be_dragged_on: false,
        }
    }

    /// A food store as it enters the world: loose, interactable and carryable.
    pub fn new_food_store(position: Point) -> (e: Entity)
        ensures
            e == (Entity {
                alive: true,
                kind: Kind::FoodStore,
                position,
                body: RigidBody::Dynamic,
                can_be_carried: true,
                interactable: true,
                can_be_dragged_on: false,
            }),
    {
        Entity {
            alive: true,
            kind: Kind::FoodStore,
            position,
            body: RigidBody::Dynamic,
            can_be_carried: true,
            interactable: true,
            can_be_dragged_on: false,
        }
    }

    /// A log as it enters the world: loose, interactable and carryable.
    pub fn new_tree(position: Point) -> (e: Entity)
        ensures
            e == (Entity {
                alive: true,
                kind: Kind::Tree,
                position,
                body: RigidBody::Dynamic,
                can_be_carried: true,
                interactable: true,
                can_be_dragged_on: false,
            }),
    {
        Entity {
            alive: true,
            kind: Kind::Tree,
            position,
            body: RigidBody::Dynamic,
            can_be_carried: true,
            interactable: true,
            can_be_dragged_on: false,
        }
    }

    /// A ground tile as it enters the world: held in place, and a surface
    /// that the pointer can drag over.
    pub fn new_ground(position: Point) -> (e: Entity)
        ensures
            e == (Entity {
                alive: true,
                kind: Kind::Ground,
                position,
                body: RigidBody::Static,
                can_be_carried: false,
                interactable: false,
                can_be_dragged_on: true,
            }),
    {
        Entity {
            alive: true,
            kind: Kind::Ground,
            position,
            body: RigidBody::Static,
            can_be_carried: false,
            interactable: false,
            can_be_dragged_on: true,
        }
    }

    /// A part of the ship's floor: held in place, and a surface that the
    /// pointer can drag over.
    pub fn new_ship_floor(position: Point) -> (e: Entity)
        ensures
            e == (Entity {
                alive: true,
                kind: Kind::ShipFloor,
                position,
                body: RigidBody::Static,
                can_be_carried: false,
                interactable: false,
                can_be_dragged_on: true,
            }),
    {
        Entity {
            alive: true,
            kind: Kind::ShipFloor,
            position,
            body: RigidBody::Static,
            can_be_carried: false,
            interactable: false,
            can_be_dragged_on: true,
        }
    }

    /// Whether the store takes this entity as a new one: any entity that is
    /// no shmoop, and a shmoop that is neither held nor carrying and has
    /// sound goal fields and a hunger in range.
    pub open spec fn spec_spawnable(self) -> bool {
        self.kind is Shmoop ==> {
            &&& !self.shmoop().picked
            &&& self.shmoop().carrying is None
            &&& self.shmoop().goal_consistent()
            &&& self.shmoop().hunger.percentage <= FULL_HUNGER
        }
    }

    /// Whether the store takes this entity as a new one.
    #[verifier::when_used_as_spec(spec_spawnable)]
    pub fn spawnable(self) -> (r: bool)
        ensures
            r == self.spec_spawnable(),
    {
        match self.kind {
            Kind::Shmoop(s) => !s.picked && s.carrying.is_none() && (s.destination_time.is_some()
                == s.destination.is_some()) && (s.interaction_target.is_none()
                || s.destination.is_some()) && s.hunger.percentage <= FULL_HUNGER,
            _ => true,
        }
    }

    /// A live shmoop.
    pub open spec fn is_shmoop(self) -> bool {
        self.alive && self.kind is Shmoop
    }

    /// The shmoop state of an entity that is a shmoop.
    pub open spec fn shmoop(self) -> Shmoop
        recommends
            self.kind is Shmoop,
    {
        self.kind->Shmoop_0
    }

    /// The same entity with its shmoop state replaced.
    pub open spec fn with_shmoop(self, s: Shmoop) -> Entity {
        Entity { kind: Kind::Shmoop(s), ..self }
    }

    /// A live, interactable entity that is not a shmoop.
    pub open spec fn spec_is_interactable(self) -> bool {
        self.alive && self.interactable && !(self.kind is Shmoop)
    }

    /// A live surface that the pointer may drag over.
    pub open spec fn spec_is_drag_surface(self) -> bool {
        self.alive && self.can_be_dragged_on
    }

    /// A live, interactable food store.
    pub open spec fn spec_is_food_store(self) -> bool {
        self.alive && self.interactable && self.kind is FoodStore
    }

    /// A live ground tile that physics still holds in place.
    pub open spec fn spec_is_static_ground(self) -> bool {
        self.alive && self.kind is Ground && self.body is Static
    }

    /// A live, interactable entity that is not a shmoop.
    #[verifier::when_used_as_spec(spec_is_interactable)]
    pub fn is_interactable(self) -> (r: bool)
        ensures
            r == self.spec_is_interactable(),
    {
        self.alive && self.interactable && !matches!(self.kind, Kind::Shmoop(_))
    }

    /// A live surface that the pointer may drag over.
    #[verifier::when_used_as_spec(spec_is_drag_surface)]
    pub fn is_drag_surface(self) -> (r: bool)
        ensures
            r == self.spec_is_drag_surface(),
    {
        self.alive && self.can_be_dragged_on
    }

    /// A live, interactable food store.
    #[verifier::when_used_as_spec(spec_is_food_store)]
    pub fn is_food_store(self) -> (r: bool)
        ensures
            r == self.spec_is_food_store(),
    {
        self.alive && self.interactable && matches!(self.kind, Kind::FoodStore)
    }

    /// A live ground tile that physics still holds in place.
    #[verifier::when_used_as_spec(spec_is_static_ground)]
    pub fn is_static_ground(self) -> (r: bool)
        ensures
            r == self.spec_is_static_ground(),
    {
        self.alive && matches!(self.kind, Kind::Ground) && matches!(self.body, RigidBody::Static)
    }

    /// The shmoop state, if this is a live shmoop.
    pub fn as_shmoop(&self) -> (r: Option<Shmoop>)
        ensures
            r == if self.is_shmoop() { Some(self.shmoop()) } else { None },
    {
        if !self.alive {
            return None;
        }
        match self.kind {
            Kind::Shmoop(s) => Some(s),
            _ => None,
        }
    }

    /// Replaces the shmoop state.
    pub fn replace_shmoop(&self, s: Shmoop) -> (r: Entity)
        ensures
            r == self.with_shmoop(s),
    {
        Entity { kind: Kind::Shmoop(s), ..*self }
    }
}

impl WorldView {
    /// `i` is the handle of a live entity.
    pub open spec fn is_live(self, i: int) -> bool {
        0 <= i < self.entities.len() && self.entities[i].alive
    }

    /// `i` is the handle of a live shmoop.
    pub open spec fn is_shmoop(self, i: int) -> bool {
        0 <= i < self.entities.len() && self.entities[i].is_shmoop()
    }

    /// The state of the shmoop with handle `i`.
    pub open spec fn shmoop(self, i: int) -> Shmoop
        recommends
            self.is_shmoop(i),
    {
        self.entities[i].shmoop()
    }

    /// `i` is a live shmoop that the pointer holds.
    pub open spec fn is_picked(self, i: int) -> bool {
        self.is_shmoop(i) && self.shmoop(i).picked
    }

    /// `j` is the handle of a joint that has not been destroyed.
    pub open spec fn joint_live(self, j: int) -> bool {
        0 <= j < self.joints.len() && self.joints[j].alive
    }

    /// The pointer holds at most one shmoop.
    pub open spec fn at_most_one_picked(self) -> bool {
        forall|i: int, j: int| #[trigger]
            self.is_picked(i) && #[trigger] self.is_picked(j) ==> i == j
    }

    /// If shmoop `i` carries something, its joint is live and joins the two.
    pub open spec fn carry_backed(self, i: int) -> bool {
        self.is_shmoop(i) && self.shmoop(i).carrying is Some ==> {
            let c = self.shmoop(i).carrying->0;
            &&& self.joint_live(c.joint_entity as int)
            &&& self.joints[c.joint_entity as int].shmoop == i
            &&& self.joints[c.joint_entity as int].target == c.entity
        }
    }

    /// If joint `j` is live, it names a slot of the store, and if that slot
    /// holds a live shmoop, the shmoop carries the joint's target with it.
    pub open spec fn joint_owned(self, j: int) -> bool {
        self.joint_live(j) ==> {
            let a = self.joints[j].shmoop as int;
            &&& a < self.entities.len()
            &&& self.is_shmoop(a) ==> {
                &&& self.shmoop(a).carrying is Some
                &&& self.shmoop(a).carrying->0.entity == self.joints[j].target
                &&& self.shmoop(a).carrying->0.joint_entity == j
            }
        }
    }

    /// Every carrying shmoop has its live joint, and every live joint of a
    /// live shmoop is the one that shmoop carries with.
    pub open spec fn joints_paired(self) -> bool {
        &&& forall|i: int| #[trigger] self.carry_backed(i)
        &&& forall|j: int| #[trigger] self.joint_owned(j)
    }

    /// Every shmoop's goal fields agree and its hunger is in range.
    pub open spec fn shmoops_sound(self) -> bool {
        forall|i: int| #[trigger]
            self.is_shmoop(i) ==> self.shmoop(i).goal_consistent() && self.shmoop(
                i,
            ).hunger.percentage <= FULL_HUNGER
    }

    /// What every system keeps true of the world.
    pub open spec fn wf(self) -> bool {
        &&& self.at_most_one_picked()
        &&& self.joints_paired()
        &&& self.shmoops_sound()
    }

    /// The same world with every entity replaced by what `f` makes of its
    /// handle and itself.
    pub open spec fn map_entities(self, f: spec_fn(int, Entity) -> Entity) -> WorldView {
        WorldView {
            entities: Seq::new(self.entities.len(), |i: int| f(i, self.entities[i])),
            ..self
        }
    }

    /// `after` has the same slots as `self`, no new shmoop among them, and
    /// every shmoop of it carries and is held as before.
    pub open spec fn same_bonds(self, after: WorldView) -> bool {
        &&& after.entities.len() == self.entities.len()
        &&& after.joints == self.joints
        &&& forall|i: int| #[trigger]
            after.is_shmoop(i) ==> self.is_shmoop(i) && after.shmoop(i).carrying == self.shmoop(
                i,
            ).carrying && after.shmoop(i).picked == self.shmoop(i).picked
    }

    /// A change that leaves who is held and who carries what as it was keeps
    /// the pointer's and the joints' invariants.
    pub proof fn lemma_same_bonds(self, after: WorldView)
        requires
            self.same_bonds(after),
            self.at_most_one_picked(),
            self.joints_paired(),
        ensures
            after.at_most_one_picked(),
            after.joints_paired(),
    {
        assert forall|i: int, j: int| #[trigger]
            after.is_picked(i) && #[trigger] after.is_picked(j) implies i == j by {
            assert(self.is_picked(i) && self.is_picked(j));
        }
        assert forall|i: int| #[trigger] after.carry_backed(i) by {
            assert(self.carry_backed(i));
            if after.is_shmoop(i) {
                assert(self.is_shmoop(i));
            }
        }
        assert forall|j: int| #[trigger] after.joint_owned(j) by {
            assert(self.joint_owned(j));
            if after.joint_live(j) && after.is_shmoop(after.joints[j].shmoop as int) {
                assert(self.is_shmoop(self.joints[j].shmoop as int));
            }
        }
    }

    /// A change of entities that keeps every shmoop's bonds keeps the world
    /// well formed.
    pub proof fn lemma_keeps_bonds(self, after: WorldView)
        requires
            self.wf(),
            after.entities.len() == self.entities.len(),
            after.joints == self.joints,
            forall|i: int|
                0 <= i < self.entities.len() ==> keeps_bonds(
                    self.entities[i],
                    #[trigger] after.entities[i],
                ),
        ensures
            after.wf(),
    {
        assert(self.same_bonds(after)) by {
            assert forall|i: int| #[trigger] after.is_shmoop(i) implies self.is_shmoop(i)
                && after.shmoop(i).carrying == self.shmoop(i).carrying && after.shmoop(i).picked
                == self.shmoop(i).picked by {
                assert(keeps_bonds(self.entities[i], after.entities[i]));
            }
        }
        self.lemma_same_bonds(after);
        assert forall|i: int| #[trigger] after.is_shmoop(i) implies after.shmoop(
            i,
        ).goal_consistent() && after.shmoop(i).hunger.percentage <= FULL_HUNGER by {
            assert(keeps_bonds(self.entities[i], after.entities[i]));
            assert(self.is_shmoop(i));
        }
    }
}

impl World {
    /// An empty world with the given bounds.
    pub fn new(bounds: MapBounds) -> (w: World)
        ensures
            w@.entities.len() == 0,
            w@.joints.len() == 0,
            w@.bounds == bounds,
            w@.shrink_timer == 0,
            w@.wf(),
    {
        World { entities: Vec::new(), joints: Vec::new(), bounds, shrink_timer: 0 }
    }

    /// Adds a spawnable entity and returns its handle.
    pub fn spawn(&mut self, entity: Entity) -> (id: usize)
        requires
            entity.spawnable(),
        ensures
            id == old(self)@.entities.len(),
            final(self)@ == (WorldView {
                entities: old(self)@.entities.push(entity),
                ..old(self)@
            }),
            old(self)@.wf() ==> final(self)@.wf(),
    {
        let id = self.entities.len();
        let ghost before = self@;
        self.entities.push(entity);
        proof {
            let after = self@;
            if before.wf() {
                assert forall|i: int, j: int| #[trigger]
                    after.is_picked(i) && #[trigger] after.is_picked(j) implies i == j by {
                    assert(before.is_picked(i) && before.is_picked(j));
                }
                assert forall|i: int| #[trigger] after.carry_backed(i) by {
                    assert(before.carry_backed(i));
                }
                assert forall|j: int| #[trigger] after.joint_owned(j) by {
                    assert(before.joint_owned(j));
                }
                assert forall|i: int| #[trigger] after.is_shmoop(i) implies after.shmoop(
                    i,
                ).goal_consistent() && after.shmoop(i).hunger.percentage <= FULL_HUNGER by {
                    if i < before.entities.len() {
                        assert(before.is_shmoop(i));
                    }
                }
            }
        }
        id
    }

    /// The entity with handle `id`, if there is such a slot.
    pub fn entity(&self, id: usize) -> (r: Option<Entity>)
        ensures
            r == if id < self@.entities.len() { Some(self@.entities[id as int]) } else { None },
    {
        if id < self.entities.len() {
            Some(self.entities[id])
        } else {
            None
        }
    }

    /// The joint with handle `id`, if there is such a slot.
    pub fn joint(&self, id: usize) -> (r: Option<Joint>)
        ensures
            r == if id < self@.joints.len() { Some(self@.joints[id as int]) } else { None },
    {
        if id < self.joints.len() {
            Some(self.joints[id])
        } else {
            None
        }
    }

    /// Moves entity `id` to where physics has put it. Returns whether there
    /// is such a slot.
    pub fn set_position(&mut self, id: usize, position: Point) -> (r: bool)
        ensures
            r == (id < old(self)@.entities.len()),
            final(self)@ == if r {
                WorldView {
                    entities: old(self)@.entities.update(
                        id as int,
                        Entity { position, ..old(self)@.entities[id as int] },
                    ),
                    ..old(self)@
                }
            } else {
                old(self)@
            },
            old(self)@.wf() ==> final(self)@.wf(),
    {
        if id >= self.entities.len() {
            return false;
        }
        let ghost before = self@;
        let e = self.entities[id];
        self.entities.set(id, Entity { position, ..e });
        proof {
            if before.wf() {
                before.lemma_keeps_bonds(self@);
            }
        }
        true
    }

    /// Gives shmoop `id` the velocity that physics has given it. Returns
    /// whether `id` is a live shmoop.
    pub fn set_velocity(&mut self, id: usize, velocity: Velocity) -> (r: bool)
        ensures
            r == old(self)@.is_shmoop(id as int),
            final(self)@ == if r {
                WorldView {
                    entities: old(self)@.entities.update(
                        id as int,
                        old(self)@.entities[id as int].with_shmoop(
                            Shmoop { velocity, ..old(self)@.shmoop(id as int) },
                        ),
                    ),
                    ..old(self)@
                }
            } else {
                old(self)@
            },
            old(self)@.wf() ==> final(self)@.wf(),
    {
        if id >= self.entities.len() {
            return false;
        }
        let ghost before = self@;
        let e = self.entities[id];
        match e.as_shmoop() {
            Some(s) => {
                self.entities.set(id, e.replace_shmoop(Shmoop { velocity, ..s }));
            },
            None => {
                return false;
            },
        }
        proof {
            if before.wf() {
                before.lemma_keeps_bonds(self@);
            }
        }
        true
    }
}

} // verus!
