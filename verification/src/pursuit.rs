//! Walking toward a destination, arriving, and wandering when idle.

use vstd::prelude::*;
use crate::geometry::Point;
use crate::geometry::Velocity;
use crate::geometry::dist_sq;
use crate::geometry::distance_squared;
use crate::geometry::heading;
use crate::geometry::heading_velocity;
use crate::store::Entity;
use crate::store::Joint;
use crate::store::MapBounds;
use crate::store::Shmoop;
use crate::store::World;
use crate::store::WorldView;
use crate::store::FULL_HUNGER;

verus! {

/// A shmoop this close to its destination has arrived.
pub const ARRIVAL_DISTANCE: u32 = 500;

/// Walking speed per millisecond of tick time.
pub const MOVING_SPEED: u32 = 50;

/// A live shmoop that walks: it has a destination and the pointer does not
/// hold it.
pub open spec fn seeks(e: Entity) -> bool {
    e.is_shmoop() && !e.shmoop().picked && e.shmoop().destination is Some
}

/// A walking shmoop that has arrived: it is within the arrival distance of
/// its destination and has no entity to touch there. A shmoop that is after
/// an entity never arrives by distance.
pub open spec fn arrives(e: Entity) -> bool {
    &&& seeks(e)
    &&& e.shmoop().interaction_target is None
    &&& dist_sq(e.position, e.shmoop().destination->0.target) <= ARRIVAL_DISTANCE
        * ARRIVAL_DISTANCE
}

/// The velocity of a shmoop that walks on: level toward its destination at
/// the walking speed, its vertical speed left to physics.
pub open spec fn walking_velocity(e: Entity, dt_ms: u32) -> Velocity {
    let h = heading_velocity(
        e.position,
        e.shmoop().destination->0.target,
        true,
        MOVING_SPEED * dt_ms,
    );
    Velocity { x: h.0 as i64, y: e.shmoop().velocity.y, z: h.1 as i64 }
}

/// An entity after one step of goal pursuit.
///
/// A shmoop that arrives stops, loses its destination and the goal's age, and
/// lets go of what it carries. One that walks on gets its walking velocity.
/// Everything else stays.
pub open spec fn moved(e: Entity, dt_ms: u32) -> Entity {
    if arrives(e) {
        e.with_shmoop(
            Shmoop {
                velocity: Velocity { x: 0, y: 0, z: 0 },
                destination: None,
                destination_time: None,
                carrying: None,
                ..e.shmoop()
            },
        )
    } else if seeks(e) {
        e.with_shmoop(Shmoop { velocity: walking_velocity(e, dt_ms), ..e.shmoop() })
    } else {
        e
    }
}

/// `v` is a walking velocity for `e`: in the plane no faster than the walking
/// speed, fifty per millisecond of the tick, and less than two short of it
/// unless `e` stands straight above or below its destination; vertically as
/// `e` was.
pub open spec fn walks_at_speed(e: Entity, v: Velocity, dt_ms: u32) -> bool {
    let speed = MOVING_SPEED * dt_ms;
    &&& v.planar_sq() <= speed * speed
    &&& crate::geometry::planar_dist_sq(e.position, e.shmoop().destination->0.target) > 0 && speed
        >= 2 ==> (speed - 2) * (speed - 2) <= v.planar_sq()
    &&& v.y == e.shmoop().velocity.y
}

/// A shmoop that walks on has the walking speed in the plane: never more
/// than fifty per millisecond of the tick, and, unless it stands straight
/// above or below its destination, less than two short of it. It heads the
/// way of its destination; its vertical speed and its goal stay as they were.
pub proof fn lemma_walking_speed(e: Entity, dt_ms: u32)
    requires
        seeks(e),
        !arrives(e),
    ensures
        ({
            let to = e.shmoop().destination->0.target;
            let v = moved(e, dt_ms).shmoop().velocity;
            let speed = MOVING_SPEED * dt_ms;
            &&& v.x * v.x + v.z * v.z <= speed * speed
            &&& crate::geometry::planar_dist_sq(e.position, to) > 0 && speed >= 2 ==> (speed - 2) * (speed - 2)
                <= v.x * v.x + v.z * v.z
            &&& to.x >= e.position.x ==> v.x >= 0
            &&& to.x <= e.position.x ==> v.x <= 0
            &&& to.z >= e.position.z ==> v.z >= 0
            &&& to.z <= e.position.z ==> v.z <= 0
            &&& v.y == e.shmoop().velocity.y
            &&& moved(e, dt_ms).shmoop().destination == e.shmoop().destination
            &&& moved(e, dt_ms).shmoop().destination_time == e.shmoop().destination_time
            &&& moved(e, dt_ms).shmoop().interaction_target == e.shmoop().interaction_target
            &&& moved(e, dt_ms).position == e.position
        }),
{
    let to = e.shmoop().destination->0.target;
    let speed = MOVING_SPEED * dt_ms;
    crate::geometry::lemma_heading_speed(e.position, to, true, speed as int);
    let dx = to.x - e.position.x;
    let dz = to.z - e.position.z;
    assert(0 <= dx * dx && 0 <= dz * dz) by (nonlinear_arith);
    crate::geometry::lemma_scaled_component_bound(dx, crate::geometry::planar_dist_sq(e.position, to), speed as int);
    crate::geometry::lemma_scaled_component_bound(dz, crate::geometry::planar_dist_sq(e.position, to), speed as int);
}

/// A joint after it has been destroyed.
pub open spec fn destroyed(j: Joint) -> Joint {
    Joint { alive: false, ..j }
}

/// An idle live shmoop sets out for `(x, 0, z)`; everything else stays.
pub open spec fn wandering(e: Entity, x: i32, z: i32) -> Entity {
    if e.is_shmoop() && e.shmoop().idle() {
        e.with_shmoop(e.shmoop().with_goal(Point { x, y: 0, z }, None))
    } else {
        e
    }
}

/// `(x, z)` lies in the arena's bounds doubled.
pub open spec fn in_wander_range(bounds: MapBounds, x: i32, z: i32) -> bool {
    &&& -2 * bounds.half_size.x <= x < 2 * bounds.half_size.x
    &&& -2 * bounds.half_size.z <= z < 2 * bounds.half_size.z
}

/// `after` is `before` sent wandering to some point of the doubled bounds.
pub open spec fn wander_outcome(bounds: MapBounds, before: Entity, after: Entity) -> bool {
    exists|x: i32, z: i32|
        in_wander_range(bounds, x, z) && after == #[trigger] wandering(before, x, z)
}

impl MapBounds {
    /// The doubled bounds are a non-empty box whose corners are representable.
    pub open spec fn spec_wander_ready(self) -> bool {
        0 < self.half_size.x <= 0x3fff_ffff && 0 < self.half_size.z <= 0x3fff_ffff
    }

    /// Whether wander destinations can be drawn from these bounds.
    #[verifier::when_used_as_spec(spec_wander_ready)]
    pub fn wander_ready(self) -> (r: bool)
        ensures
            r == self.spec_wander_ready(),
    {
        0 < self.half_size.x && self.half_size.x <= 0x3fff_ffff && 0 < self.half_size.z
            && self.half_size.z <= 0x3fff_ffff
    }
}

/// One step of goal pursuit for one entity.
pub fn move_entity(e: Entity, dt_ms: u32) -> (r: Entity)
    ensures
        r == moved(e, dt_ms),
{
    match e.as_shmoop() {
        Some(s) => {
            if s.picked {
                return e;
            }
            match s.destination {
                Some(d) => {
                    let limit: u128 = (ARRIVAL_DISTANCE as u128) * (ARRIVAL_DISTANCE as u128);
                    if s.interaction_target.is_none() && distance_squared(e.position, d.target)
                        <= limit {
                        e.replace_shmoop(
                            Shmoop {
                                velocity: Velocity { x: 0, y: 0, z: 0 },
                                destination: None,
                                destination_time: None,
                                carrying: None,
                                ..s
                            },
                        )
                    } else {
                        let speed: u64 = (MOVING_SPEED as u64) * (dt_ms as u64);
                        let h = heading(e.position, d.target, true, speed);
                        e.replace_shmoop(
                            Shmoop { velocity: Velocity { x: h.0, y: s.velocity.y, z: h.1 }, ..s },
                        )
                    }
                },
                None => e,
            }
        },
        None => e,
    }
}

/// Draws a number from `low..high` with `rand::random_range`, which samples
/// the thread-local generator. The generator is free to return any member of
/// the range, so that is all the contract says; an empty range, on which it
/// panics, is excluded.
#[verifier::external_body]
fn random_between(low: i32, high: i32) -> (r: i32)
    requires
        low < high,
    ensures
        low <= r < high,
{
    rand::random_range(low..high)
}

impl WorldView {
    /// Shmoop `i` arrives this step and lets joint `j` go.
    pub open spec fn drops(self, i: int, j: int) -> bool {
        &&& 0 <= i < self.entities.len()
        &&& arrives(self.entities[i])
        &&& self.entities[i].shmoop().carrying is Some
        &&& self.entities[i].shmoop().carrying->0.joint_entity == j
    }

    /// Some shmoop with a handle below `n` lets joint `j` go this step.
    pub open spec fn released_below(self, j: int, n: int) -> bool {
        exists|i: int| 0 <= i < n && #[trigger] self.drops(i, j)
    }

    /// Some shmoop lets joint `j` go this step.
    pub open spec fn released(self, j: int) -> bool {
        self.released_below(j, self.entities.len() as int)
    }

    /// The world after one step of goal pursuit: every entity has moved, and
    /// the joints of the shmoops that arrived are destroyed.
    pub open spec fn pursue(self, dt_ms: u32) -> WorldView {
        WorldView {
            entities: Seq::new(self.entities.len(), |i: int| moved(self.entities[i], dt_ms)),
            joints: Seq::new(
                self.joints.len(),
                |j: int|
                    if self.released(j) {
                        destroyed(self.joints[j])
                    } else {
                        self.joints[j]
                    },
            ),
            ..self
        }
    }

    /// Goal pursuit keeps the world well formed.
    pub proof fn lemma_pursue_keeps_wf(self, dt_ms: u32)
        requires
            self.wf(),
        ensures
            self.pursue(dt_ms).wf(),
    {
        let after = self.pursue(dt_ms);
        assert forall|i: int, j: int| #[trigger]
            after.is_picked(i) && #[trigger] after.is_picked(j) implies i == j by {
            assert(self.is_picked(i) && self.is_picked(j));
        }
        assert forall|i: int| #[trigger] after.carry_backed(i) by {
            assert(self.carry_backed(i));
            if after.is_shmoop(i) && after.shmoop(i).carrying is Some {
                let c = self.shmoop(i).carrying->0;
                let j = c.joint_entity as int;
                if self.released(j) {
                    let k = choose|k: int| 0 <= k < self.entities.len() && #[trigger] self.drops(k, j);
                    assert(self.carry_backed(k));
                    assert(self.is_shmoop(k));
                }
            }
        }
        assert forall|j: int| #[trigger] after.joint_owned(j) by {
            assert(self.joint_owned(j));
            if after.joint_live(j) {
                let a = self.joints[j].shmoop as int;
                if after.is_shmoop(a) {
                    assert(self.is_shmoop(a));
                    if arrives(self.entities[a]) {
                        assert(self.drops(a, j));
                    }
                }
            }
        }
        assert forall|i: int| #[trigger] after.is_shmoop(i) implies after.shmoop(
            i,
        ).goal_consistent() && after.shmoop(i).hunger.percentage <= FULL_HUNGER by {
            assert(self.is_shmoop(i));
        }
    }

    /// The world after entity `i` has been sent wandering to `(x, 0, z)`.
    pub open spec fn wander_one(self, i: int, x: i32, z: i32) -> WorldView {
        if 0 <= i < self.entities.len() {
            WorldView {
                entities: self.entities.update(i, wandering(self.entities[i], x, z)),
                ..self
            }
        } else {
            self
        }
    }

    /// `after` is this world with every idle shmoop sent wandering to some
    /// point of the doubled bounds, and nothing else changed.
    pub open spec fn seeded(self, after: WorldView) -> bool {
        &&& after.entities.len() == self.entities.len()
        &&& after.joints == self.joints
        &&& after.bounds == self.bounds
        &&& after.shrink_timer == self.shrink_timer
        &&& forall|i: int|
            0 <= i < self.entities.len() ==> wander_outcome(
                self.bounds,
                self.entities[i],
                #[trigger] after.entities[i],
            )
    }

    /// Wander seeding keeps the world well formed.
    pub proof fn lemma_seeded_keeps_wf(self, after: WorldView)
        requires
            self.wf(),
            self.seeded(after),
        ensures
            after.wf(),
    {
        self.lemma_keeps_bonds(after);
    }
}

impl World {
    /// One step of goal pursuit for every walking shmoop.
    pub fn shmoop_moving_to_destination_system(&mut self, dt_ms: u32)
        ensures
            final(self)@ == old(self)@.pursue(dt_ms),
            forall|i: int|
                0 <= i < old(self)@.entities.len() && seeks(old(self)@.entities[i]) && !arrives(
                    old(self)@.entities[i],
                ) ==> walks_at_speed(
                    old(self)@.entities[i],
                    (#[trigger] final(self)@.entities[i]).shmoop().velocity,
                    dt_ms,
                ),
            forall|i: int|
                0 <= i < old(self)@.entities.len() ==> crate::store::goal_cleared_atomically(
                    old(self)@.entities[i],
                    #[trigger] final(self)@.entities[i],
                ),
            old(self)@.wf() ==> final(self)@.wf(),
    {
        let ghost before = self@;
        let n = self.entities.len();
        let m = self.joints.len();
        let mut i: usize = 0;
        while i < n
            invariant
                i <= n,
                n == self.entities@.len(),
                n == before.entities.len(),
                m == self.joints@.len(),
                m == before.joints.len(),
                self@ == (WorldView { entities: self.entities@, joints: self.joints@, ..before }),
                forall|k: int|
                    0 <= k < i ==> #[trigger] self.entities@[k] == moved(before.entities[k], dt_ms),
                forall|k: int| i <= k < n ==> #[trigger] self.entities@[k] == before.entities[k],
                forall|j: int|
                    0 <= j < m ==> #[trigger] self.joints@[j] == if before.released_below(
                        j,
                        i as int,
                    ) {
                        destroyed(before.joints[j])
                    } else {
                        before.joints[j]
                    },
            decreases n - i,
        {
            let e = self.entities[i];
            let r = move_entity(e, dt_ms);
            let mut let_go: Option<usize> = None;
            if let Some(s) = e.as_shmoop() {
                if let Some(after) = r.as_shmoop() {
                    if after.carrying.is_none() {
                        if let Some(c) = s.carrying {
                            let_go = Some(c.joint_entity);
                        }
                    }
                }
            }
            proof {
                assert(let_go matches Some(j) ==> before.drops(i as int, j as int));
                assert(let_go is None ==> forall|j: int| !before.drops(i as int, j));
            }
            if let Some(j) = let_go {
                if j < m {
                    let joint = self.joints[j];
                    self.joints.set(j, Joint { alive: false, ..joint });
                }
            }
            self.entities.set(i, r);
            proof {
                assert forall|j: int| 0 <= j < m implies #[trigger] self.joints@[j]
                    == if before.released_below(j, i + 1) {
                    destroyed(before.joints[j])
                } else {
                    before.joints[j]
                } by {
                    if before.released_below(j, i as int) {
                        let k = choose|k: int| 0 <= k < i && #[trigger] before.drops(k, j);
                        assert(before.drops(k, j));
                    }
                    if before.drops(i as int, j) {
                        assert(before.released_below(j, i + 1));
                    }
                    if before.released_below(j, i + 1) && !before.drops(i as int, j) {
                        let k = choose|k: int| 0 <= k < i + 1 && #[trigger] before.drops(k, j);
                        assert(before.drops(k, j) && k < i);
                    }
                }
            }
            i += 1;
        }
        proof {
            assert(self@.entities =~= before.pursue(dt_ms).entities);
            assert(self@.joints =~= before.pursue(dt_ms).joints);
            assert forall|i: int|
                0 <= i < before.entities.len() && seeks(before.entities[i]) && !arrives(
                    before.entities[i],
                ) implies walks_at_speed(
                before.entities[i],
                (#[trigger] self@.entities[i]).shmoop().velocity,
                dt_ms,
            ) by {
                lemma_walking_speed(before.entities[i], dt_ms);
            }
            if before.wf() {
                before.lemma_pursue_keeps_wf(dt_ms);
            }
        }
    }

    /// Sends entity `i` wandering to `(x, 0, z)` if it is an idle shmoop.
    pub fn assign_wander(&mut self, i: usize, x: i32, z: i32)
        ensures
            final(self)@ == old(self)@.wander_one(i as int, x, z),
    {
        if i >= self.entities.len() {
            return ;
        }
        let e = self.entities[i];
        if let Some(s) = e.as_shmoop() {
            if s.destination.is_none() && s.interaction_target.is_none() && !s.picked {
                self.entities.set(i, e.replace_shmoop(s.set_goal(Point { x, y: 0, z }, None)));
            }
        }
        proof {
            assert(self@.entities =~= old(self)@.wander_one(i as int, x, z).entities);
        }
    }

    /// Gives every idle shmoop a destination drawn at random from the bounds
    /// doubled, at ground height, with a fresh goal age.
    pub fn shmoop_destination_selection_system(&mut self)
        requires
            old(self)@.bounds.wander_ready(),
        ensures
            old(self)@.seeded(final(self)@),
            old(self)@.wf() ==> final(self)@.wf(),
    {
        let ghost before = self@;
        let n = self.entities.len();
        let reach_x: i32 = 2 * self.bounds.half_size.x;
        let reach_z: i32 = 2 * self.bounds.half_size.z;
        let mut i: usize = 0;
        while i < n
            invariant
                i <= n,
                n == self.entities@.len(),
                n == before.entities.len(),
                self@ == (WorldView { entities: self.entities@, ..before }),
                before.bounds.wander_ready(),
                reach_x == 2 * before.bounds.half_size.x,
                reach_z == 2 * before.bounds.half_size.z,
                forall|k: int|
                    0 <= k < i ==> wander_outcome(
                        before.bounds,
                        before.entities[k],
                        #[trigger] self.entities@[k],
                    ),
                forall|k: int| i <= k < n ==> #[trigger] self.entities@[k] == before.entities[k],
            decreases n - i,
        {
            let idle = match self.entities[i].as_shmoop() {
                Some(s) => s.destination.is_none() && s.interaction_target.is_none() && !s.picked,
                None => false,
            };
            if idle {
                let x = random_between(-reach_x, reach_x);
                let z = random_between(-reach_z, reach_z);
                self.assign_wander(i, x, z);
                proof {
                    assert(in_wander_range(before.bounds, x, z));
                    assert(self.entities@[i as int] == wandering(before.entities[i as int], x, z));
                }
            } else {
                proof {
                    assert(in_wander_range(before.bounds, 0, 0));
                    assert(self.entities@[i as int] == wandering(before.entities[i as int], 0, 0));
                }
            }
            i += 1;
        }
        proof {
            if before.wf() {
                before.lemma_seeded_keeps_wf(self@);
            }
        }
    }
}

} // verus!
