//! Hunger: its decay, and the goal that a starving shmoop is given.

use vstd::prelude::*;
use crate::store::Entity;
use crate::store::Hunger;
use crate::store::Shmoop;
use crate::store::World;
use crate::store::WorldView;

verus! {

/// Hunger lost per millisecond, in thousandths of a percent.
pub const HUNGER_RATE: u32 = 4;

/// How many times faster hunger drains while a shmoop carries something.
pub const CARRYING_PENALTY: u32 = 7;

/// The hunger lost over `dt_ms` milliseconds.
pub open spec fn decay(carrying: bool, dt_ms: u32) -> int {
    if carrying {
        HUNGER_RATE * dt_ms * CARRYING_PENALTY
    } else {
        HUNGER_RATE * dt_ms
    }
}

/// Hunger `percentage` after `dt_ms` milliseconds without food; it stops at
/// zero.
pub open spec fn hunger_after(percentage: u32, carrying: bool, dt_ms: u32) -> u32 {
    if decay(carrying, dt_ms) >= percentage {
        0
    } else {
        (percentage - decay(carrying, dt_ms)) as u32
    }
}

/// The decay written out: four thousandths of a percent per millisecond,
/// seven times that while carrying.
pub proof fn lemma_decay(carrying: bool, dt_ms: u32)
    ensures
        decay(carrying, dt_ms) == if carrying { 28 * dt_ms } else { 4 * dt_ms },
{
    assert(HUNGER_RATE * dt_ms == 4 * dt_ms) by (nonlinear_arith)
        requires
            HUNGER_RATE == 4,
    ;
    assert((4 * dt_ms) * CARRYING_PENALTY == 28 * dt_ms) by (nonlinear_arith)
        requires
            CARRYING_PENALTY == 7,
    ;
}

/// Computes [`hunger_after`].
pub fn decayed(percentage: u32, carrying: bool, dt_ms: u32) -> (r: u32)
    ensures
        r == hunger_after(percentage, carrying, dt_ms),
        r <= percentage,
{
    proof {
        lemma_decay(false, dt_ms);
        lemma_decay(true, dt_ms);
    }
    let base: u64 = (HUNGER_RATE as u64) * (dt_ms as u64);
    let loss: u64 = if carrying {
        base * (CARRYING_PENALTY as u64)
    } else {
        base
    };
    if loss >= percentage as u64 {
        0
    } else {
        percentage - (loss as u32)
    }
}

impl WorldView {
    /// `f` is a live, interactable food store, and the only one.
    pub open spec fn is_sole_food_store(self, f: int) -> bool {
        &&& 0 <= f < self.entities.len()
        &&& self.entities[f].is_food_store()
        &&& forall|k: int|
            0 <= k < self.entities.len() && (#[trigger] self.entities[k]).is_food_store() ==> k
                == f
    }

    /// The food store, where the world has exactly one.
    pub open spec fn sole_food_store(self) -> Option<int> {
        if exists|f: int| self.is_sole_food_store(f) {
            Some(choose|f: int| self.is_sole_food_store(f))
        } else {
            None
        }
    }

    /// Entity `i` after the hunger pass.
    ///
    /// A live shmoop's hunger has decayed, faster if it carries something.
    /// One whose hunger has run out is sent to the food store in place of
    /// whatever goal it had, provided the world has exactly one food store.
    pub open spec fn starved(self, dt_ms: u32, i: int) -> Entity {
        let e = self.entities[i];
        if !e.is_shmoop() {
            e
        } else {
            let s = e.shmoop();
            let h = hunger_after(s.hunger.percentage, s.carrying is Some, dt_ms);
            let hungrier = Shmoop { hunger: Hunger { percentage: h }, ..s };
            match self.sole_food_store() {
                Some(f) => if h == 0 {
                    e.with_shmoop(hungrier.with_goal(self.entities[f].position, Some(f as usize)))
                } else {
                    e.with_shmoop(hungrier)
                },
                None => e.with_shmoop(hungrier),
            }
        }
    }

    /// The world after the hunger pass.
    pub open spec fn starve(self, dt_ms: u32) -> WorldView {
        self.map_entities(|i: int, e: Entity| self.starved(dt_ms, i))
    }

    /// The hunger pass keeps the world well formed.
    pub proof fn lemma_starve_keeps_wf(self, dt_ms: u32)
        requires
            self.wf(),
        ensures
            self.starve(dt_ms).wf(),
    {
        let after = self.starve(dt_ms);
        self.lemma_keeps_bonds(after);
    }
}

impl World {
    /// Finds the food store, if the world has exactly one.
    pub fn find_sole_food_store(&self) -> (r: Option<usize>)
        ensures
            r is Some == self@.sole_food_store() is Some,
            r matches Some(f) ==> self@.sole_food_store() == Some(f as int)
                && self@.is_sole_food_store(f as int),
    {
        let n = self.entities.len();
        let mut found: Option<usize> = None;
        let mut many = false;
        let ghost mut one: int = 0;
        let ghost mut other: int = 0;
        let mut i: usize = 0;
        while i < n
            invariant
                i <= n,
                n == self.entities@.len(),
                many ==> 0 <= one < i && 0 <= other < i && one != other
                    && self.entities@[one].is_food_store() && self.entities@[other].is_food_store(),
                !many && found is None ==> forall|k: int|
                    0 <= k < i ==> !(#[trigger] self.entities@[k]).is_food_store(),
                !many ==> (found matches Some(f) ==> f < i && self.entities@[f as int].is_food_store()
                    && forall|k: int|
                    0 <= k < i && (#[trigger] self.entities@[k]).is_food_store() ==> k == f),
            decreases n - i,
        {
            if self.entities[i].is_food_store() {
                match found {
                    Some(f) => {
                        if !many {
                            proof {
                                one = f as int;
                                other = i as int;
                            }
                            many = true;
                        }
                    },
                    None => {
                        found = Some(i);
                    },
                }
            }
            i += 1;
        }
        let r = if many { None } else { found };
        proof {
            let w = self@;
            if many {
                assert forall|f: int| !w.is_sole_food_store(f) by {
                    if w.is_sole_food_store(f) {
                        assert(w.entities[one].is_food_store());
                        assert(w.entities[other].is_food_store());
                    }
                }
            } else {
                match found {
                    Some(f) => {
                        assert(w.is_sole_food_store(f as int));
                        let g = choose|g: int| w.is_sole_food_store(g);
                        assert(w.entities[f as int].is_food_store());
                    },
                    None => {
                        assert forall|f: int| !w.is_sole_food_store(f) by {}
                    },
                }
            }
        }
        r
    }

    /// The hunger pass of one physics tick.
    pub fn hunger_system(&mut self, dt_ms: u32)
        ensures
            final(self)@ == old(self)@.starve(dt_ms),
            old(self)@.wf() ==> final(self)@.wf(),
    {
        let ghost before = self@;
        let n = self.entities.len();
        let store = self.find_sole_food_store();
        let mut i: usize = 0;
        while i < n
            invariant
                i <= n,
                n == self.entities@.len(),
                n == before.entities.len(),
                self@ == (WorldView { entities: self.entities@, ..before }),
                store is Some == before.sole_food_store() is Some,
                store matches Some(f) ==> before.sole_food_store() == Some(f as int) && f < n,
                forall|k: int|
                    0 <= k < i ==> #[trigger] self.entities@[k] == before.starved(dt_ms, k),
                forall|k: int| i <= k < n ==> #[trigger] self.entities@[k] == before.entities[k],
                forall|k: int|
                    0 <= k < n ==> (#[trigger] self.entities@[k]).position
                        == before.entities[k].position,
            decreases n - i,
        {
            let e = self.entities[i];
            if let Some(s) = e.as_shmoop() {
                let h = decayed(s.hunger.percentage, s.carrying.is_some(), dt_ms);
                let hungrier = Shmoop { hunger: Hunger { percentage: h }, ..s };
                let next = match store {
                    Some(f) => {
                        if h == 0 {
                            hungrier.set_goal(self.entities[f].position, Some(f))
                        } else {
                            hungrier
                        }
                    },
                    None => hungrier,
                };
                self.entities.set(i, e.replace_shmoop(next));
            }
            i += 1;
        }
        proof {
            assert(self@.entities =~= before.starve(dt_ms).entities);
            if before.wf() {
                before.lemma_starve_keeps_wf(dt_ms);
            }
        }
    }
}

} // verus!
