//! Picking up and feeding, both on physical contact only.

use vstd::prelude::*;
use crate::geometry::Point;
use crate::pursuit::destroyed;
use crate::store::Carrying;
use crate::store::Entity;
use crate::store::Hunger;
use crate::store::Joint;
use crate::store::Shmoop;
use crate::store::World;
use crate::store::WorldView;
use crate::store::FULL_HUNGER;
use crate::store::JOINT_COMPLIANCE;
use crate::store::goal_cleared_atomically;

verus! {

/// One point at which two colliders touch, in each collider's local frame.
#[derive(Clone, Copy, Debug, PartialEq, Eq)]
pub struct ContactPoint {
    pub local_point1: Point,
    pub local_point2: Point,
}

/// What physics reports of two touching colliders: who they are, and the
/// first contact point, if the manifold has any.
#[derive(Clone, Copy, Debug, PartialEq, Eq)]
pub struct Contact {
    pub collider1: usize,
    pub collider2: usize,
    pub point: Option<ContactPoint>,
}

impl Contact {
    /// This contact is between `a` and `b`, in either order.
    pub open spec fn spec_joins(self, a: usize, b: usize) -> bool {
        (self.collider1 == a && self.collider2 == b) || (self.collider1 == b && self.collider2
            == a)
    }

    /// This contact is between `a` and `b`, in either order.
    #[verifier::when_used_as_spec(spec_joins)]
    pub fn joins(self, a: usize, b: usize) -> (r: bool)
        ensures
            r == self.spec_joins(a, b),
    {
        (self.collider1 == a && self.collider2 == b) || (self.collider1 == b && self.collider2
            == a)
    }

    /// The contact point in the local frame of `who`.
    pub open spec fn spec_anchor(self, who: usize) -> Point
        recommends
            self.point is Some,
    {
        if self.collider1 == who {
            self.point->0.local_point1
        } else {
            self.point->0.local_point2
        }
    }
}

/// The first contact at or after position `from` that is between `a` and `b`.
pub open spec fn contact_from(contacts: Seq<Contact>, a: usize, b: usize, from: int) -> Option<
    Contact,
>
    decreases contacts.len() - from,
{
    if from < 0 || from >= contacts.len() {
        None
    } else if contacts[from].joins(a, b) {
        Some(contacts[from])
    } else {
        contact_from(contacts, a, b, from + 1)
    }
}

/// The contact point at which `a` and `b` touch: that of the first reported
/// contact between the two, if it has one.
pub open spec fn touch(contacts: Seq<Contact>, a: usize, b: usize) -> Option<Contact> {
    match contact_from(contacts, a, b, 0) {
        Some(c) => if c.point is Some {
            Some(c)
        } else {
            None
        },
        None => None,
    }
}

/// Looks up the contact point at which `a` and `b` touch.
pub fn find_touch(contacts: &Vec<Contact>, a: usize, b: usize) -> (r: Option<Contact>)
    ensures
        r == touch(contacts@, a, b),
{
    let n = contacts.len();
    let mut i: usize = 0;
    while i < n
        invariant
            i <= n,
            n == contacts@.len(),
            contact_from(contacts@, a, b, 0) == contact_from(contacts@, a, b, i as int),
        decreases n - i,
    {
        let c = contacts[i];
        if c.joins(a, b) {
            if c.point.is_some() {
                return Some(c);
            } else {
                return None;
            }
        }
        i += 1;
    }
    None
}

impl WorldView {
    /// The entity that shmoop `i` is after, if `i` is a live shmoop that the
    /// pointer does not hold and its target is a slot of the store.
    pub open spec fn pursued(self, i: int) -> Option<usize> {
        if self.is_shmoop(i) && !self.shmoop(i).picked && self.shmoop(i).interaction_target is Some
            && self.shmoop(i).interaction_target->0.entity < self.entities.len() {
            Some(self.shmoop(i).interaction_target->0.entity)
        } else {
            None
        }
    }

    /// Shmoop `i` picks its target up now: the target is live, interactable,
    /// carryable and no shmoop, and the two touch.
    pub open spec fn can_pick_up(self, contacts: Seq<Contact>, i: int) -> bool {
        &&& self.pursued(i) is Some
        &&& self.entities[self.pursued(i)->0 as int].is_interactable()
        &&& self.entities[self.pursued(i)->0 as int].can_be_carried
        &&& touch(contacts, i as usize, self.pursued(i)->0) is Some
    }

    /// Shmoop `i` feeds now: its target is a live food store and the two touch.
    pub open spec fn can_feed(self, contacts: Seq<Contact>, i: int) -> bool {
        &&& self.pursued(i) is Some
        &&& self.entities[self.pursued(i)->0 as int].is_food_store()
        &&& touch(contacts, i as usize, self.pursued(i)->0) is Some
    }

    /// The joint that shmoop `i` makes when it picks its target up.
    pub open spec fn pickup_joint(self, contacts: Seq<Contact>, i: int) -> Joint {
        let t = self.pursued(i)->0;
        let c = touch(contacts, i as usize, t)->0;
        Joint {
            alive: true,
            shmoop: i as usize,
            target: t,
            local_anchor1: c.spec_anchor(i as usize),
            local_anchor2: c.spec_anchor(t),
            compliance: JOINT_COMPLIANCE,
        }
    }

    /// The joints once shmoop `i` has let go of whatever it carried.
    pub open spec fn joints_without(self, i: int) -> Seq<Joint> {
        match self.shmoop(i).carrying {
            Some(c) => if c.joint_entity < self.joints.len() {
                self.joints.update(c.joint_entity as int, destroyed(self.joints[c.joint_entity as int]))
            } else {
                self.joints
            },
            None => self.joints,
        }
    }

    /// The world after shmoop `i` has had its turn at picking up.
    ///
    /// If it can pick its target up, a new joint between the two is made at
    /// the contact point, the joint of anything it carried before is
    /// destroyed, the shmoop carries the target and has no goal any more.
    pub open spec fn pick_up_one(self, contacts: Seq<Contact>, i: int) -> WorldView {
        if self.can_pick_up(contacts, i) {
            WorldView {
                entities: self.entities.update(
                    i,
                    self.entities[i].with_shmoop(
                        Shmoop {
                            carrying: Some(
                                Carrying {
                                    entity: self.pursued(i)->0,
                                    joint_entity: self.joints.len() as usize,
                                },
                            ),
                            ..self.shmoop(i).without_goal()
                        },
                    ),
                ),
                joints: self.joints_without(i).push(self.pickup_joint(contacts, i)),
                ..self
            }
        } else {
            self
        }
    }

    /// The world after the shmoops with handles below `n` have had their turn
    /// at picking up, in the order of their handles.
    pub open spec fn pick_up_below(self, contacts: Seq<Contact>, n: int) -> WorldView
        decreases n,
    {
        if n <= 0 {
            self
        } else {
            self.pick_up_below(contacts, n - 1).pick_up_one(contacts, n - 1)
        }
    }

    /// How many shmoops with handles below `n` pick their target up.
    pub open spec fn pickers_below(self, contacts: Seq<Contact>, n: int) -> nat
        decreases n,
    {
        if n <= 0 {
            0
        } else {
            self.pickers_below(contacts, n - 1) + if self.can_pick_up(contacts, n - 1) {
                1nat
            } else {
                0nat
            }
        }
    }

    /// Entity `i` after the pickup pass: a shmoop that picks its target up
    /// carries it, with the joint made for it, and has no goal any more;
    /// every other entity is as it was. The joints made in one pass follow
    /// those that were there, in the order of the shmoops' handles.
    pub open spec fn picked_up(self, contacts: Seq<Contact>, i: int) -> Entity {
        if self.can_pick_up(contacts, i) {
            self.entities[i].with_shmoop(
                Shmoop {
                    carrying: Some(
                        Carrying {
                            entity: self.pursued(i)->0,
                            joint_entity: (self.joints.len() + self.pickers_below(
                                contacts,
                                i,
                            )) as usize,
                        },
                    ),
                    ..self.shmoop(i).without_goal()
                },
            )
        } else {
            self.entities[i]
        }
    }

    /// After the first `n` turns at picking up, the entities below `n` are as
    /// the whole pass leaves them, the others are untouched, and one joint
    /// has been added for each shmoop that picked up.
    pub proof fn lemma_pick_up_below_entities(self, contacts: Seq<Contact>, n: int)
        requires
            n <= self.entities.len(),
        ensures
            self.pick_up_below(contacts, n).entities.len() == self.entities.len(),
            self.pick_up_below(contacts, n).joints.len() == self.joints.len() + self.pickers_below(
                contacts,
                n,
            ),
            forall|k: int|
                0 <= k < n ==> #[trigger] self.pick_up_below(contacts, n).entities[k]
                    == self.picked_up(contacts, k),
            forall|k: int|
                0 <= k < self.entities.len() && n <= k ==> #[trigger] self.pick_up_below(
                    contacts,
                    n,
                ).entities[k] == self.entities[k],
        decreases n,
    {
        if n > 0 {
            self.lemma_pick_up_below_entities(contacts, n - 1);
            let w = self.pick_up_below(contacts, n - 1);
            let i = n - 1;
            assert(w.entities[i] == self.entities[i]);
            assert(w.pursued(i) == self.pursued(i));
            if self.pursued(i) is Some {
                let t = self.pursued(i)->0 as int;
                if t < i {
                    assert(w.entities[t] == self.picked_up(contacts, t));
                } else {
                    assert(w.entities[t] == self.entities[t]);
                }
                assert(w.entities[t].is_interactable() == self.entities[t].is_interactable());
                assert(w.entities[t].can_be_carried == self.entities[t].can_be_carried);
            }
            assert(w.can_pick_up(contacts, i) == self.can_pick_up(contacts, i));
            let after = self.pick_up_below(contacts, n);
            assert(after == w.pick_up_one(contacts, i));
            assert forall|k: int| 0 <= k < n implies #[trigger] after.entities[k]
                == self.picked_up(contacts, k) by {
                if k < i {
                    assert(w.entities[k] == self.picked_up(contacts, k));
                }
            }
            assert forall|k: int| 0 <= k < self.entities.len() && n <= k implies #[trigger] after.entities[k]
                == self.entities[k] by {
                assert(w.entities[k] == self.entities[k]);
            }
        }
    }

    /// What the pickup pass makes of each entity.
    pub proof fn lemma_pick_up_entities(self, contacts: Seq<Contact>, i: int)
        requires
            0 <= i < self.entities.len(),
        ensures
            self.pick_up(contacts).entities.len() == self.entities.len(),
            self.pick_up(contacts).entities[i] == self.picked_up(contacts, i),
            self.pick_up(contacts).joints.len() == self.joints.len() + self.pickers_below(
                contacts,
                self.entities.len() as int,
            ),
    {
        self.lemma_pick_up_below_entities(contacts, self.entities.len() as int);
    }

    /// The world after the pickup pass.
    pub open spec fn pick_up(self, contacts: Seq<Contact>) -> WorldView {
        self.pick_up_below(contacts, self.entities.len() as int)
    }

    /// Entity `i` after the feeding pass: a shmoop that feeds is full again
    /// and has no goal any more.
    pub open spec fn fed(self, contacts: Seq<Contact>, i: int) -> Entity {
        if self.can_feed(contacts, i) {
            self.entities[i].with_shmoop(
                Shmoop {
                    hunger: Hunger { percentage: FULL_HUNGER },
                    ..self.shmoop(i).without_goal()
                },
            )
        } else {
            self.entities[i]
        }
    }

    /// The world after the feeding pass.
    pub open spec fn feed(self, contacts: Seq<Contact>) -> WorldView {
        self.map_entities(|i: int, e: Entity| self.fed(contacts, i))
    }

    /// One shmoop's turn at picking up keeps the world well formed.
    pub proof fn lemma_pick_up_one_keeps_wf(self, contacts: Seq<Contact>, i: int)
        requires
            self.wf(),
            self.joints.len() <= usize::MAX,
            self.entities.len() <= usize::MAX,
        ensures
            self.pick_up_one(contacts, i).wf(),
    {
        let after = self.pick_up_one(contacts, i);
        if self.can_pick_up(contacts, i) {
            let fresh = self.joints.len() as int;
            assert(self.carry_backed(i));
            assert forall|a: int, b: int| #[trigger]
                after.is_picked(a) && #[trigger] after.is_picked(b) implies a == b by {
                assert(self.is_picked(a) && self.is_picked(b));
            }
            let kept = self.joints_without(i);
            assert(kept.len() == self.joints.len());
            assert(after.joints.len() == fresh + 1);
            assert(after.joints[fresh] == self.pickup_joint(contacts, i));
            assert forall|j: int| 0 <= j < fresh implies #[trigger] after.joints[j] == kept[j] by {}
            assert forall|k: int| #[trigger] after.carry_backed(k) by {
                assert(self.carry_backed(k));
                if after.is_shmoop(k) && after.shmoop(k).carrying is Some {
                    if k == i {
                        assert(after.joint_live(fresh));
                    } else {
                        assert(self.is_shmoop(k));
                        assert(after.shmoop(k) == self.shmoop(k));
                        let j = self.shmoop(k).carrying->0.joint_entity as int;
                        assert(self.joint_live(j));
                        assert(self.joints[j].shmoop == k);
                        assert(kept[j] == self.joints[j]);
                        assert(after.joints[j] == self.joints[j]);
                    }
                }
            }
            assert forall|j: int| #[trigger] after.joint_owned(j) by {
                assert(self.joint_owned(j));
                if after.joint_live(j) {
                    if j == fresh {
                    } else {
                        assert(after.joints[j] == kept[j]);
                        assert(self.joint_live(j));
                        assert(kept[j] == self.joints[j]);
                        let a = self.joints[j].shmoop as int;
                        if after.is_shmoop(a) {
                            assert(self.is_shmoop(a));
                            if a == i {
                                assert(self.shmoop(i).carrying->0.joint_entity == j);
                                assert(kept[j] == destroyed(self.joints[j]));
                            }
                        }
                    }
                }
            }
            assert forall|k: int| #[trigger] after.is_shmoop(k) implies after.shmoop(
                k,
            ).goal_consistent() && after.shmoop(k).hunger.percentage <= FULL_HUNGER by {
                assert(self.is_shmoop(k));
            }
        }
    }

    /// The pickup pass changes neither the number of entities nor anything
    /// but shmoop state, and never shrinks the joint table.
    pub proof fn lemma_pick_up_below_shape(self, contacts: Seq<Contact>, n: int)
        ensures
            self.pick_up_below(contacts, n).entities.len() == self.entities.len(),
            self.pick_up_below(contacts, n).joints.len() >= self.joints.len(),
            self.pick_up_below(contacts, n).joints.len() <= self.joints.len() + if n > 0 {
                n
            } else {
                0
            },
            self.pick_up_below(contacts, n).bounds == self.bounds,
            self.pick_up_below(contacts, n).shrink_timer == self.shrink_timer,
            forall|k: int|
                n <= k < self.entities.len() && k >= 0 ==> #[trigger] self.pick_up_below(
                    contacts,
                    n,
                ).entities[k] == self.entities[k],
        decreases n,
    {
        if n > 0 {
            self.lemma_pick_up_below_shape(contacts, n - 1);
        }
    }

    /// The pickup pass keeps the world well formed.
    pub proof fn lemma_pick_up_below_keeps_wf(self, contacts: Seq<Contact>, n: int)
        requires
            self.wf(),
            self.entities.len() <= usize::MAX,
            self.pick_up_below(contacts, n).joints.len() <= usize::MAX,
        ensures
            self.pick_up_below(contacts, n).wf(),
        decreases n,
    {
        if n > 0 {
            let earlier = self.pick_up_below(contacts, n - 1);
            assert(earlier.joints.len() <= earlier.pick_up_one(contacts, n - 1).joints.len());
            self.lemma_pick_up_below_keeps_wf(contacts, n - 1);
            self.lemma_pick_up_below_shape(contacts, n - 1);
            earlier.lemma_pick_up_one_keeps_wf(contacts, n - 1);
        }
    }

    /// The feeding pass keeps the world well formed.
    pub proof fn lemma_feed_keeps_wf(self, contacts: Seq<Contact>)
        requires
            self.wf(),
        ensures
            self.feed(contacts).wf(),
    {
        let after = self.feed(contacts);
        self.lemma_keeps_bonds(after);
    }
}

impl World {
    /// Gives shmoop `i` its turn at picking up.
    pub fn pick_up_turn(&mut self, contacts: &Vec<Contact>, i: usize)
        ensures
            final(self)@ == old(self)@.pick_up_one(contacts@, i as int),
    {
        if i >= self.entities.len() {
            return ;
        }
        let e = self.entities[i];
        let s = match e.as_shmoop() {
            Some(s) => s,
            None => { return ; },
        };
        if s.picked {
            return ;
        }
        let t = match s.interaction_target {
            Some(t) => t.entity,
            None => { return ; },
        };
        if t >= self.entities.len() {
            return ;
        }
        let target = self.entities[t];
        if !(target.is_interactable() && target.can_be_carried) {
            return ;
        }
        let c = match find_touch(contacts, i, t) {
            Some(c) => c,
            None => { return ; },
        };
        let p = match c.point {
            Some(p) => p,
            None => { return ; },
        };
        let anchor1 = if c.collider1 == i { p.local_point1 } else { p.local_point2 };
        let anchor2 = if c.collider1 == t { p.local_point1 } else { p.local_point2 };
        if let Some(held) = s.carrying {
            if held.joint_entity < self.joints.len() {
                let j = self.joints[held.joint_entity];
                self.joints.set(held.joint_entity, Joint { alive: false, ..j });
            }
        }
        let fresh = self.joints.len();
        self.joints.push(
            Joint {
                alive: true,
                shmoop: i,
                target: t,
                local_anchor1: anchor1,
                local_anchor2: anchor2,
                compliance: JOINT_COMPLIANCE,
            },
        );
        let carrier = Shmoop {
            carrying: Some(Carrying { entity: t, joint_entity: fresh }),
            ..s.clear_goal()
        };
        self.entities.set(i, e.replace_shmoop(carrier));
        proof {
            let want = old(self)@.pick_up_one(contacts@, i as int);
            assert(self@.entities =~= want.entities);
            assert(self@.joints =~= want.joints);
        }
    }

    /// The pickup pass of one frame: every shmoop that touches the carryable
    /// entity it is after is joined to it and stops pursuing it.
    pub fn pickup_interaction_system(&mut self, contacts: &Vec<Contact>)
        ensures
            final(self)@ == old(self)@.pick_up(contacts@),
            forall|i: int|
                0 <= i < old(self)@.entities.len() ==> goal_cleared_atomically(
                    old(self)@.entities[i],
                    #[trigger] final(self)@.entities[i],
                ),
            old(self)@.wf() ==> final(self)@.wf(),
    {
        let ghost before = self@;
        let n = self.entities.len();
        let mut i: usize = 0;
        while i < n
            invariant
                i <= n,
                n == self.entities@.len(),
                n == before.entities.len(),
                self@ == before.pick_up_below(contacts@, i as int),
                before.wf() ==> self@.wf(),
                forall|k: int|
                    0 <= k < n ==> goal_cleared_atomically(
                        before.entities[k],
                        #[trigger] self@.entities[k],
                    ),
            decreases n - i,
        {
            let ghost then = self@;
            let joints_so_far = self.joints.len();
            proof {
                assert(then.joints.len() == joints_so_far);
                before.lemma_pick_up_below_shape(contacts@, i as int);
                if before.wf() {
                    then.lemma_pick_up_one_keeps_wf(contacts@, i as int);
                }
            }
            self.pick_up_turn(contacts, i);
            proof {
                assert forall|k: int| 0 <= k < n implies goal_cleared_atomically(
                    before.entities[k],
                    #[trigger] self@.entities[k],
                ) by {
                    assert(goal_cleared_atomically(before.entities[k], then.entities[k]));
                }
            }
            i += 1;
        }
    }

    /// The feeding pass of one frame: every shmoop that touches the food store
    /// it is after is full again and stops pursuing it.
    pub fn food_store_interaction_system(&mut self, contacts: &Vec<Contact>)
        ensures
            final(self)@ == old(self)@.feed(contacts@),
            forall|i: int|
                0 <= i < old(self)@.entities.len() ==> goal_cleared_atomically(
                    old(self)@.entities[i],
                    #[trigger] final(self)@.entities[i],
                ),
            old(self)@.wf() ==> final(self)@.wf(),
    {
        let ghost before = self@;
        let n = self.entities.len();
        let mut i: usize = 0;
        while i < n
            invariant
                i <= n,
                n == self.entities@.len(),
                n == before.entities.len(),
                self@ == (WorldView { entities: self.entities@, ..before }),
                forall|k: int|
                    0 <= k < i ==> #[trigger] self.entities@[k] == before.fed(contacts@, k),
                forall|k: int| i <= k < n ==> #[trigger] self.entities@[k] == before.entities[k],
            decreases n - i,
        {
            let e = self.entities[i];
            if let Some(s) = e.as_shmoop() {
                if !s.picked {
                    if let Some(t) = s.interaction_target {
                        if t.entity < n {
                            assert(self.entities@[t.entity as int].spec_is_food_store()
                                == before.entities[t.entity as int].spec_is_food_store());
                            if self.entities[t.entity].is_food_store() && find_touch(
                                contacts,
                                i,
                                t.entity,
                            ).is_some() {
                                let full = Shmoop {
                                    hunger: Hunger { percentage: FULL_HUNGER },
                                    ..s.clear_goal()
                                };
                                self.entities.set(i, e.replace_shmoop(full));
                            }
                        }
                    }
                }
            }
            i += 1;
        }
        proof {
            assert(self@.entities =~= before.feed(contacts@).entities);
            if before.wf() {
                before.lemma_feed_keeps_wf(contacts@);
            }
        }
    }
}

} // verus!
