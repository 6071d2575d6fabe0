//! Counting what is in the store: survivors, collected logs, held shmoops,
//! and how the round stands.

use vstd::prelude::*;
use crate::geometry::Point;
use crate::store::Entity;
use crate::store::Kind;
use crate::store::World;
use crate::store::WorldView;

verus! {

/// The ship's deck begins at this east coordinate and extends west of it.
pub const SHIP_EDGE_X: i32 = -6_000;

/// A point over the ship's deck.
pub open spec fn on_ship(position: Point) -> bool {
    position.x <= SHIP_EDGE_X && position.y >= 0
}

/// Whether a position is over the ship's deck.
pub fn is_object_on_ship(position: &Point) -> (r: bool)
    ensures
        r == on_ship(*position),
{
    position.x <= SHIP_EDGE_X && position.y >= 0
}

/// A live shmoop that has not fallen.
pub open spec fn survives(e: Entity) -> bool {
    e.is_shmoop() && !e.shmoop().dead
}

/// A live log.
pub open spec fn is_log(e: Entity) -> bool {
    e.alive && e.kind is Tree
}

/// A live log that lies on the ship.
pub open spec fn collected(e: Entity) -> bool {
    is_log(e) && on_ship(e.position)
}

/// A live shmoop that the pointer holds.
pub open spec fn held(e: Entity) -> bool {
    e.is_shmoop() && e.shmoop().picked
}

/// How many of the first `n` entities satisfy `p`.
pub open spec fn count_below(entities: Seq<Entity>, p: spec_fn(Entity) -> bool, n: int) -> nat
    decreases n,
{
    if n <= 0 {
        0
    } else {
        count_below(entities, p, n - 1) + if p(entities[n - 1]) {
            1nat
        } else {
            0nat
        }
    }
}

/// A count is at most the number of entities counted over.
pub proof fn lemma_count_bounded(entities: Seq<Entity>, p: spec_fn(Entity) -> bool, n: int)
    ensures
        count_below(entities, p, n) <= if n > 0 { n } else { 0 },
    decreases n,
{
    if n > 0 {
        lemma_count_bounded(entities, p, n - 1);
    }
}

/// A count of zero means that none satisfies `p`; a positive one, that some
/// does.
pub proof fn lemma_count_zero(entities: Seq<Entity>, p: spec_fn(Entity) -> bool, n: int)
    ensures
        count_below(entities, p, n) == 0 <==> forall|k: int| 0 <= k < n ==> !p(#[trigger] entities[k]),
    decreases n,
{
    if n > 0 {
        lemma_count_bounded(entities, p, n - 1);
        lemma_count_zero(entities, p, n - 1);
        if count_below(entities, p, n) == 0 {
            assert forall|k: int| 0 <= k < n implies !p(#[trigger] entities[k]) by {
                if k < n - 1 {
                }
            }
        }
    }
}

/// How the round stands.
#[derive(Clone, Copy, Debug, PartialEq, Eq)]
pub enum Standing {
    /// No shmoop survives.
    Lost,
    /// Every surviving shmoop and every log is on the ship.
    AllAboard { shmoops: usize, logs: usize },
    /// The round goes on.
    Underway { shmoops: usize, logs: usize },
}

/// The counts that the presentation layer shows.
#[derive(Clone, Copy, Debug, PartialEq, Eq)]
pub struct Census {
    pub shmoops: usize,
    pub logs: usize,
    pub all_logs_in: bool,
    pub all_shmoops_in: bool,
}

impl Census {
    /// How the round stands by these counts.
    pub open spec fn spec_standing(self) -> Standing {
        if self.shmoops == 0 {
            Standing::Lost
        } else if self.all_shmoops_in && self.all_logs_in {
            Standing::AllAboard { shmoops: self.shmoops, logs: self.logs }
        } else {
            Standing::Underway { shmoops: self.shmoops, logs: self.logs }
        }
    }

    /// How the round stands by these counts.
    #[verifier::when_used_as_spec(spec_standing)]
    pub fn standing(self) -> (r: Standing)
        ensures
            r == self.spec_standing(),
    {
        if self.shmoops == 0 {
            Standing::Lost
        } else if self.all_shmoops_in && self.all_logs_in {
            Standing::AllAboard { shmoops: self.shmoops, logs: self.logs }
        } else {
            Standing::Underway { shmoops: self.shmoops, logs: self.logs }
        }
    }
}

impl WorldView {
    /// The number of surviving shmoops.
    pub open spec fn survivors(self) -> nat {
        count_below(self.entities, |e: Entity| survives(e), self.entities.len() as int)
    }

    /// The number of logs on the ship.
    pub open spec fn logs_collected(self) -> nat {
        count_below(self.entities, |e: Entity| collected(e), self.entities.len() as int)
    }

    /// The number of shmoops that the pointer holds.
    pub open spec fn held_count(self) -> nat {
        count_below(self.entities, |e: Entity| held(e), self.entities.len() as int)
    }

    /// Every log is on the ship.
    pub open spec fn all_logs_in(self) -> bool {
        forall|i: int|
            0 <= i < self.entities.len() && is_log(#[trigger] self.entities[i]) ==> on_ship(
                self.entities[i].position,
            )
    }

    /// Every surviving shmoop is on the ship.
    pub open spec fn all_shmoops_in(self) -> bool {
        forall|i: int|
            0 <= i < self.entities.len() && survives(#[trigger] self.entities[i]) ==> on_ship(
                self.entities[i].position,
            )
    }

    /// Where the pointer holds at most one shmoop, the count of held shmoops
    /// among the first `n` entities is at most one.
    pub proof fn lemma_held_below(self, n: int)
        requires
            self.at_most_one_picked(),
            n <= self.entities.len(),
        ensures
            count_below(self.entities, |e: Entity| held(e), n) <= 1,
        decreases n,
    {
        let p = |e: Entity| held(e);
        if n > 0 {
            self.lemma_held_below(n - 1);
            if p(self.entities[n - 1]) {
                lemma_count_zero(self.entities, p, n - 1);
                if count_below(self.entities, p, n - 1) != 0 {
                    let k = choose|k: int| 0 <= k < n - 1 && p(#[trigger] self.entities[k]);
                    assert(self.is_picked(k));
                    assert(self.is_picked(n - 1));
                }
            }
        }
    }
}

impl World {
    /// Counts the surviving shmoops and the collected logs, and says whether
    /// each group is on the ship entire.
    pub fn census(&self) -> (r: Census)
        ensures
            r.shmoops == self@.survivors(),
            r.logs == self@.logs_collected(),
            r.all_logs_in == self@.all_logs_in(),
            r.all_shmoops_in == self@.all_shmoops_in(),
    {
        let n = self.entities.len();
        let mut shmoops: usize = 0;
        let mut logs: usize = 0;
        let mut all_logs_in = true;
        let mut all_shmoops_in = true;
        let ghost alive = |e: Entity| survives(e);
        let ghost stowed = |e: Entity| collected(e);
        let mut i: usize = 0;
        while i < n
            invariant
                i <= n,
                n == self.entities@.len(),
                alive == |e: Entity| survives(e),
                stowed == |e: Entity| collected(e),
                shmoops == count_below(self.entities@, alive, i as int),
                logs == count_below(self.entities@, stowed, i as int),
                shmoops <= i,
                logs <= i,
                all_logs_in == forall|k: int|
                    0 <= k < i && is_log(#[trigger] self.entities@[k]) ==> on_ship(
                        self.entities@[k].position,
                    ),
                all_shmoops_in == forall|k: int|
                    0 <= k < i && survives(#[trigger] self.entities@[k]) ==> on_ship(
                        self.entities@[k].position,
                    ),
            decreases n - i,
        {
            let e = self.entities[i];
            let aboard = is_object_on_ship(&e.position);
            if let Some(s) = e.as_shmoop() {
                if !s.dead {
                    shmoops += 1;
                    if !aboard {
                        all_shmoops_in = false;
                    }
                }
            }
            if e.alive && matches!(e.kind, Kind::Tree) {
                if aboard {
                    logs += 1;
                } else {
                    all_logs_in = false;
                }
            }
            i += 1;
        }
        Census { shmoops, logs, all_logs_in, all_shmoops_in }
    }

    /// How the round stands: lost, won, or still under way, with the counts
    /// to show.
    pub fn shmoop_count_system(&self) -> (r: Standing)
        ensures
            r == (Census {
                shmoops: self@.survivors() as usize,
                logs: self@.logs_collected() as usize,
                all_logs_in: self@.all_logs_in(),
                all_shmoops_in: self@.all_shmoops_in(),
            }).standing(),
    {
        self.census().standing()
    }

    /// The number of shmoops that the pointer holds; never more than one in
    /// a well-formed world.
    pub fn picked_count(&self) -> (r: usize)
        ensures
            r == self@.held_count(),
            self@.wf() ==> r <= 1,
    {
        let n = self.entities.len();
        let mut count: usize = 0;
        let ghost p = |e: Entity| held(e);
        let mut i: usize = 0;
        while i < n
            invariant
                i <= n,
                n == self.entities@.len(),
                p == |e: Entity| held(e),
                count == count_below(self.entities@, p, i as int),
                count <= i,
            decreases n - i,
        {
            if let Some(s) = self.entities[i].as_shmoop() {
                if s.picked {
                    count += 1;
                }
            }
            i += 1;
        }
        proof {
            if self@.wf() {
                self@.lemma_held_below(n as int);
            }
        }
        count
    }
}

} // verus!
