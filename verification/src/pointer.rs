//! Pointer-driven selection and dragging.

use vstd::prelude::*;
use crate::geometry::Point;
use crate::geometry::Velocity;
use crate::geometry::dist_sq;
use crate::geometry::distance_squared;
use crate::geometry::heading;
use crate::geometry::heading_velocity;
use crate::store::Entity;
use crate::store::Shmoop;
use crate::store::World;
use crate::store::WorldView;
use crate::store::goal_cleared_atomically;

verus! {

/// Where the pointer's ray first meets the world.
#[derive(Clone, Copy, Debug, PartialEq, Eq)]
pub struct RayHit {
    pub entity: usize,
    pub point: Point,
}

/// The pointer as one tick sees it.
#[derive(Clone, Copy, Debug, PartialEq, Eq)]
pub struct Pointer {
    pub pressed: bool,
    pub hit: Option<RayHit>,
}

/// The colours an outline can be given.
#[derive(Clone, Copy, Debug, PartialEq, Eq)]
pub enum HighlightColour {
    Hover,
    Picking,
    TargetSelection,
}

/// The entity under the pointer that is to be outlined this frame; `colour`
/// is `None` where the outline keeps the colour it had. A held shmoop stays
/// outlined besides.
#[derive(Clone, Copy, Debug, PartialEq, Eq)]
pub struct Highlight {
    pub entity: usize,
    pub colour: Option<HighlightColour>,
}

/// A held shmoop closer than this to the pointer's point stands still.
pub const DRAG_DEAD_ZONE: u32 = 300;

/// Speed of a dragged shmoop per millisecond of tick time.
pub const DRAGGING_SPEED: u32 = 50;

/// The velocity a held shmoop at `position` is given when the pointer rests
/// on `point`: toward the point at the dragging speed, level, or none once it
/// is within the dead zone.
pub open spec fn drag_velocity(position: Point, point: Point, dt_ms: u32) -> Velocity {
    if dist_sq(position, point) > DRAG_DEAD_ZONE * DRAG_DEAD_ZONE {
        let h = heading_velocity(position, point, false, DRAGGING_SPEED * dt_ms);
        Velocity { x: h.0 as i64, y: 0, z: h.1 as i64 }
    } else {
        Velocity { x: 0, y: 0, z: 0 }
    }
}

/// An entity after one dragging step toward `point`: a held shmoop gets the
/// drag velocity, everything else stays.
pub open spec fn dragged(e: Entity, point: Point, dt_ms: u32) -> Entity {
    if e.is_shmoop() && e.shmoop().picked {
        e.with_shmoop(Shmoop { velocity: drag_velocity(e.position, point, dt_ms), ..e.shmoop() })
    } else {
        e
    }
}

/// A dragged shmoop is never faster in the plane than the dragging speed,
/// fifty per millisecond of the tick; it heads the way of the pointer's
/// point, and its vertical speed is zero whatever it was.
pub proof fn lemma_dragging_speed(e: Entity, point: Point, dt_ms: u32)
    requires
        e.is_shmoop(),
        e.shmoop().picked,
    ensures
        ({
            let v = dragged(e, point, dt_ms).shmoop().velocity;
            let speed = DRAGGING_SPEED * dt_ms;
            &&& v.x * v.x + v.z * v.z <= speed * speed
            &&& v.y == 0
            &&& point.x >= e.position.x ==> v.x >= 0
            &&& point.x <= e.position.x ==> v.x <= 0
            &&& point.z >= e.position.z ==> v.z >= 0
            &&& point.z <= e.position.z ==> v.z <= 0
        }),
{
    let speed = DRAGGING_SPEED * dt_ms;
    crate::geometry::lemma_heading_speed(e.position, point, false, speed as int);
    let dx = point.x - e.position.x;
    let dy = point.y - e.position.y;
    let dz = point.z - e.position.z;
    assert(0 <= dx * dx && 0 <= dy * dy && 0 <= dz * dz) by (nonlinear_arith);
    crate::geometry::lemma_scaled_component_bound(
        dx,
        dist_sq(e.position, point),
        speed as int,
    );
    crate::geometry::lemma_scaled_component_bound(
        dz,
        dist_sq(e.position, point),
        speed as int,
    );
    assert(0 <= speed * speed) by (nonlinear_arith);
}

/// Applies one dragging step to one entity.
pub fn drag_entity(e: Entity, point: Point, dt_ms: u32) -> (r: Entity)
    ensures
        r == dragged(e, point, dt_ms),
{
    match e.as_shmoop() {
        Some(s) => {
            if !s.picked {
                return e;
            }
            let limit: u128 = (DRAG_DEAD_ZONE as u128) * (DRAG_DEAD_ZONE as u128);
            let v = if distance_squared(e.position, point) > limit {
                let speed: u64 = (DRAGGING_SPEED as u64) * (dt_ms as u64);
                let h = heading(e.position, point, false, speed);
                Velocity { x: h.0, y: 0, z: h.1 }
            } else {
                Velocity { x: 0, y: 0, z: 0 }
            };
            e.replace_shmoop(Shmoop { velocity: v, ..s })
        },
        None => e,
    }
}

impl WorldView {
    /// The held shmoop with the greatest handle below `n`, if any.
    pub open spec fn last_picked_below(self, n: int) -> Option<int>
        decreases n,
    {
        if n <= 0 {
            None
        } else if self.is_picked(n - 1) {
            Some(n - 1)
        } else {
            self.last_picked_below(n - 1)
        }
    }

    /// The shmoop that the pointer holds. In a well-formed world there is at
    /// most one; otherwise the one with the greatest handle counts.
    pub open spec fn holder(self) -> Option<int> {
        self.last_picked_below(self.entities.len() as int)
    }

    /// What `last_picked_below` finds is held, and nothing held lies between it
    /// and `n`.
    pub proof fn lemma_last_picked_below(self, n: int)
        ensures
            self.last_picked_below(n) matches Some(i) ==> 0 <= i < n && self.is_picked(i) && forall|
                k: int,
            |
                i < k < n ==> !self.is_picked(k),
            self.last_picked_below(n) is None ==> forall|k: int| 0 <= k < n ==> !self.is_picked(k),
        decreases n,
    {
        if n > 0 {
            self.lemma_last_picked_below(n - 1);
        }
    }

    /// The hit of the pointer's ray, if it names a live entity.
    pub open spec fn valid_hit(self, pointer: Pointer) -> Option<RayHit> {
        match pointer.hit {
            Some(h) => if self.is_live(h.entity as int) {
                Some(h)
            } else {
                None
            },
            None => None,
        }
    }

    /// Whether this frame's press takes hold of the shmoop under the pointer:
    /// the button is down, the ray meets a live shmoop, and none is held yet.
    pub open spec fn picks(self, pointer: Pointer) -> bool {
        &&& pointer.pressed
        &&& self.valid_hit(pointer) is Some
        &&& self.is_shmoop(self.valid_hit(pointer)->0.entity as int)
        &&& self.holder() is None
    }

    /// The goal that a release under this pointer assigns: the interactable
    /// entity under it, at that entity's position; else the point of a drag
    /// surface under it; else none.
    pub open spec fn release_goal(self, pointer: Pointer) -> Option<(Point, Option<usize>)> {
        match self.valid_hit(pointer) {
            Some(h) => {
                let e = self.entities[h.entity as int];
                if e.is_interactable() {
                    Some((e.position, Some(h.entity)))
                } else if e.is_drag_surface() {
                    Some((h.point, None))
                } else {
                    None
                }
            },
            None => None,
        }
    }

    /// Entity `i` after the selection pass.
    ///
    /// While the button is down, the shmoop that the press takes hold of
    /// becomes held and loses its goal. Once the button is up, no shmoop is
    /// held, and the one that was gets the release goal in place of whatever
    /// goal it had.
    pub open spec fn selected(self, pointer: Pointer, i: int) -> Entity {
        let e = self.entities[i];
        if !e.is_shmoop() {
            e
        } else if pointer.pressed {
            if self.picks(pointer) && self.valid_hit(pointer)->0.entity == i {
                e.with_shmoop(Shmoop { picked: true, ..e.shmoop().without_goal() })
            } else {
                e
            }
        } else {
            let s = Shmoop { picked: false, ..e.shmoop() };
            if self.holder() == Some(i) {
                match self.release_goal(pointer) {
                    Some(g) => e.with_shmoop(s.with_goal(g.0, g.1)),
                    None => e.with_shmoop(s.without_goal()),
                }
            } else {
                e.with_shmoop(s)
            }
        }
    }

    /// What to outline after the selection pass: the shmoop under the
    /// pointer, or, while a shmoop is held with the button down, the
    /// interactable entity under the pointer.
    pub open spec fn highlight(self, pointer: Pointer) -> Option<Highlight> {
        match self.valid_hit(pointer) {
            Some(h) => {
                let e = self.entities[h.entity as int];
                if e.is_shmoop() {
                    Some(
                        Highlight {
                            entity: h.entity,
                            colour: if !pointer.pressed {
                                Some(HighlightColour::Hover)
                            } else if self.holder() is None {
                                Some(HighlightColour::Picking)
                            } else {
                                None
                            },
                        },
                    )
                } else if e.is_interactable() && pointer.pressed && self.holder() is Some {
                    Some(
                        Highlight {
                            entity: h.entity,
                            colour: Some(HighlightColour::TargetSelection),
                        },
                    )
                } else {
                    None
                }
            },
            None => None,
        }
    }

    /// Whether the pointer drives the held shmoop this tick: the button is
    /// down and the ray rests on a live drag surface.
    pub open spec fn drags(self, pointer: Pointer) -> bool {
        &&& pointer.pressed
        &&& self.valid_hit(pointer) is Some
        &&& self.entities[self.valid_hit(pointer)->0.entity as int].is_drag_surface()
    }

    /// The world after the selection pass.
    pub open spec fn select(self, pointer: Pointer) -> WorldView {
        self.map_entities(|i: int, e: Entity| self.selected(pointer, i))
    }

    /// The world after the dragging step.
    pub open spec fn drag(self, pointer: Pointer, dt_ms: u32) -> WorldView {
        if self.drags(pointer) {
            self.map_entities(
                |i: int, e: Entity| dragged(e, self.valid_hit(pointer)->0.point, dt_ms),
            )
        } else {
            self
        }
    }

    /// The selection pass keeps the world well formed.
    pub proof fn lemma_select_keeps_wf(self, pointer: Pointer)
        requires
            self.wf(),
        ensures
            self.select(pointer).wf(),
    {
        let after = self.select(pointer);
        self.lemma_last_picked_below(self.entities.len() as int);
        assert forall|i: int, j: int| #[trigger]
            after.is_picked(i) && #[trigger] after.is_picked(j) implies i == j by {
            if pointer.pressed {
                if self.picks(pointer) {
                    assert(!self.is_picked(i));
                    assert(!self.is_picked(j));
                } else {
                    assert(self.is_picked(i) && self.is_picked(j));
                }
            }
        }
        assert forall|i: int| #[trigger] after.carry_backed(i) by {
            assert(self.carry_backed(i));
        }
        assert forall|j: int| #[trigger] after.joint_owned(j) by {
            assert(self.joint_owned(j));
        }
        assert forall|i: int| #[trigger] after.is_shmoop(i) implies after.shmoop(
            i,
        ).goal_consistent() && after.shmoop(i).hunger.percentage
            <= crate::store::FULL_HUNGER by {
            assert(self.is_shmoop(i));
        }
    }

    /// The dragging step keeps the world well formed.
    pub proof fn lemma_drag_keeps_wf(self, pointer: Pointer, dt_ms: u32)
        requires
            self.wf(),
        ensures
            self.drag(pointer, dt_ms).wf(),
    {
        let after = self.drag(pointer, dt_ms);
        self.lemma_keeps_bonds(after);
    }
}

impl World {
    /// Finds the shmoop that the pointer holds.
    pub fn picked_entity(&self) -> (r: Option<usize>)
        ensures
            r is Some == self@.holder() is Some,
            r matches Some(i) ==> self@.holder() == Some(i as int) && self@.is_picked(i as int),
            r is None ==> forall|k: int| !self@.is_picked(k),
    {
        let n = self.entities.len();
        let mut found: Option<usize> = None;
        let mut i: usize = 0;
        while i < n
            invariant
                i <= n,
                n == self.entities@.len(),
                found is Some == self@.last_picked_below(i as int) is Some,
                found matches Some(f) ==> self@.last_picked_below(i as int) == Some(f as int),
            decreases n - i,
        {
            if let Some(s) = self.entities[i].as_shmoop() {
                if s.picked {
                    found = Some(i);
                }
            }
            i += 1;
        }
        proof {
            self@.lemma_last_picked_below(n as int);
        }
        found
    }

    /// Checks that a ray hit names a live entity.
    pub fn check_hit(&self, pointer: Pointer) -> (r: Option<RayHit>)
        ensures
            r == self@.valid_hit(pointer),
    {
        match pointer.hit {
            Some(h) => {
                if h.entity < self.entities.len() && self.entities[h.entity].alive {
                    Some(h)
                } else {
                    None
                }
            },
            None => None,
        }
    }

    /// Works out the goal that a release under this pointer assigns.
    pub fn goal_on_release(&self, pointer: Pointer) -> (r: Option<(Point, Option<usize>)>)
        ensures
            r == self@.release_goal(pointer),
    {
        match self.check_hit(pointer) {
            Some(h) => {
                let e = self.entities[h.entity];
                if e.is_interactable() {
                    Some((e.position, Some(h.entity)))
                } else if e.is_drag_surface() {
                    Some((h.point, None))
                } else {
                    None
                }
            },
            None => None,
        }
    }

    /// The selection pass of one frame.
    ///
    /// Takes hold of the shmoop under the pointer when the button is down and
    /// none is held; lets go when the button is up and gives the shmoop that
    /// was held its new goal. Returns what to outline.
    pub fn select_system(&mut self, pointer: Pointer) -> (r: Option<Highlight>)
        ensures
            final(self)@ == old(self)@.select(pointer),
            forall|i: int|
                0 <= i < old(self)@.entities.len() ==> goal_cleared_atomically(
                    old(self)@.entities[i],
                    #[trigger] final(self)@.entities[i],
                ),
            r == old(self)@.highlight(pointer),
            old(self)@.wf() ==> final(self)@.wf(),
    {
        let ghost before = self@;
        let n = self.entities.len();
        let holder = self.picked_entity();
        let hit = self.check_hit(pointer);
        let goal = self.goal_on_release(pointer);
        let mut outline: Option<Highlight> = None;
        if let Some(h) = hit {
            let e = self.entities[h.entity];
            if e.as_shmoop().is_some() {
                let colour = if !pointer.pressed {
                    Some(HighlightColour::Hover)
                } else if holder.is_none() {
                    Some(HighlightColour::Picking)
                } else {
                    None
                };
                outline = Some(Highlight { entity: h.entity, colour });
            } else if e.is_interactable() && pointer.pressed && holder.is_some() {
                outline =
                Some(
                    Highlight { entity: h.entity, colour: Some(HighlightColour::TargetSelection) },
                );
            }
        }
        if pointer.pressed {
            if let Some(h) = hit {
                if holder.is_none() {
                    let e = self.entities[h.entity];
                    if let Some(s) = e.as_shmoop() {
                        let taken = e.replace_shmoop(Shmoop { picked: true, ..s.clear_goal() });
                        self.entities.set(h.entity, taken);
                    }
                }
            }
        } else {
            let mut i: usize = 0;
            while i < n
                invariant
                    i <= n,
                    n == self.entities@.len(),
                    n == before.entities.len(),
                    !pointer.pressed,
                    self@ == (WorldView { entities: self.entities@, ..before }),
                    holder is Some == before.holder() is Some,
                    holder matches Some(p) ==> before.holder() == Some(p as int),
                    goal == before.release_goal(pointer),
                    forall|k: int|
                        0 <= k < i ==> #[trigger] self.entities@[k] == before.selected(pointer, k),
                    forall|k: int| i <= k < n ==> #[trigger] self.entities@[k] == before.entities[k],
                decreases n - i,
            {
                let e = self.entities[i];
                if let Some(s) = e.as_shmoop() {
                    let s1 = Shmoop { picked: false, ..s };
                    let s2 = if holder == Some(i) {
                        match goal {
                            Some(g) => s1.set_goal(g.0, g.1),
                            None => s1.clear_goal(),
                        }
                    } else {
                        s1
                    };
                    self.entities.set(i, e.replace_shmoop(s2));
                }
                i += 1;
            }
        }
        proof {
            assert(self@.entities =~= before.select(pointer).entities);
            if before.wf() {
                before.lemma_select_keeps_wf(pointer);
            }
        }
        outline
    }

    /// The dragging step of one physics tick: while the button is down and the
    /// pointer rests on a drag surface, the held shmoop is driven toward the
    /// pointer's point.
    pub fn shmoop_dragging_system(&mut self, pointer: Pointer, dt_ms: u32)
        ensures
            final(self)@ == old(self)@.drag(pointer, dt_ms),
            forall|i: int|
                old(self)@.drags(pointer) && old(self)@.is_picked(i) ==> {
                    let v = (#[trigger] final(self)@.entities[i]).shmoop().velocity;
                    &&& v.planar_sq() <= (DRAGGING_SPEED * dt_ms) * (DRAGGING_SPEED * dt_ms)
                    &&& v.y == 0
                },
            old(self)@.wf() ==> final(self)@.wf(),
    {
        let ghost before = self@;
        let n = self.entities.len();
        let hit = self.check_hit(pointer);
        proof {
            if before.wf() {
                before.lemma_drag_keeps_wf(pointer, dt_ms);
            }
        }
        if !pointer.pressed {
            return ;
        }
        let point = match hit {
            Some(h) => {
                if !self.entities[h.entity].is_drag_surface() {
                    return ;
                }
                h.point
            },
            None => { return ; },
        };
        let mut i: usize = 0;
        while i < n
            invariant
                i <= n,
                n == self.entities@.len(),
                n == before.entities.len(),
                self@ == (WorldView { entities: self.entities@, ..before }),
                forall|k: int|
                    0 <= k < i ==> #[trigger] self.entities@[k] == dragged(
                        before.entities[k],
                        point,
                        dt_ms,
                    ),
                forall|k: int| i <= k < n ==> #[trigger] self.entities@[k] == before.entities[k],
            decreases n - i,
        {
            let e = drag_entity(self.entities[i], point, dt_ms);
            self.entities.set(i, e);
            i += 1;
        }
        proof {
            assert(self@.entities =~= before.drag(pointer, dt_ms).entities);
            assert forall|i: int| before.drags(pointer) && before.is_picked(i) implies {
                let v = (#[trigger] self@.entities[i]).shmoop().velocity;
                &&& v.planar_sq() <= (DRAGGING_SPEED * dt_ms) * (DRAGGING_SPEED * dt_ms)
                &&& v.y == 0
            } by {
                lemma_dragging_speed(before.entities[i], point, dt_ms);
            }
        }
    }
}

} // verus!
