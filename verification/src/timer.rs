//! Goal ageing and the abandonment of goals that have grown too old.

use vstd::prelude::*;
use crate::store::DestinationTime;
use crate::store::Entity;
use crate::store::Shmoop;
use crate::store::World;
use crate::store::WorldView;
use crate::store::goal_cleared_atomically;

verus! {

/// A goal this many milliseconds old is given up.
pub const ABANDON_AFTER_MS: u64 = 10_000;

/// `time + dt_ms` milliseconds, stopping at the largest representable time.
pub open spec fn time_after(time: u64, dt_ms: u32) -> u64 {
    if time + dt_ms > u64::MAX {
        u64::MAX
    } else {
        (time + dt_ms) as u64
    }
}

/// An entity after `dt_ms` milliseconds of ageing: a live shmoop's goal age
/// has grown by that much, and nothing else has changed.
pub open spec fn aged(e: Entity, dt_ms: u32) -> Entity {
    if e.is_shmoop() && e.shmoop().destination_time is Some {
        e.with_shmoop(
            Shmoop {
                destination_time: Some(
                    DestinationTime {
                        time: time_after(e.shmoop().destination_time->0.time, dt_ms),
                    },
                ),
                ..e.shmoop()
            },
        )
    } else {
        e
    }
}

/// Whether a live shmoop's goal has reached the age at which it is given up.
pub open spec fn goal_stale(e: Entity) -> bool {
    e.is_shmoop() && e.shmoop().destination_time is Some && e.shmoop().destination_time->0.time
        >= ABANDON_AFTER_MS
}

/// An entity after the abandonment pass: a stale goal is cleared whole.
pub open spec fn abandoned(e: Entity) -> Entity {
    if goal_stale(e) {
        e.with_shmoop(e.shmoop().without_goal())
    } else {
        e
    }
}

/// Ages one entity's goal.
pub fn age_entity(e: Entity, dt_ms: u32) -> (r: Entity)
    ensures
        r == aged(e, dt_ms),
{
    match e.as_shmoop() {
        Some(s) => match s.destination_time {
            Some(t) => e.replace_shmoop(
                Shmoop {
                    destination_time: Some(
                        DestinationTime { time: t.time.saturating_add(dt_ms as u64) },
                    ),
                    ..s
                },
            ),
            None => e,
        },
        None => e,
    }
}

/// Gives up one entity's goal if it is stale.
pub fn abandon_entity(e: Entity) -> (r: Entity)
    ensures
        r == abandoned(e),
{
    match e.as_shmoop() {
        Some(s) => match s.destination_time {
            Some(t) => if t.time >= ABANDON_AFTER_MS {
                e.replace_shmoop(s.clear_goal())
            } else {
                e
            },
            None => e,
        },
        None => e,
    }
}

impl WorldView {
    /// The world after every goal has aged by `dt_ms` milliseconds.
    pub open spec fn age_goals(self, dt_ms: u32) -> WorldView {
        self.map_entities(|i: int, e: Entity| aged(e, dt_ms))
    }

    /// The world after every stale goal has been given up.
    pub open spec fn abandon_goals(self) -> WorldView {
        self.map_entities(|i: int, e: Entity| abandoned(e))
    }

    /// Ageing keeps the world well formed.
    pub proof fn lemma_age_keeps_wf(self, dt_ms: u32)
        requires
            self.wf(),
        ensures
            self.age_goals(dt_ms).wf(),
    {
        let after = self.age_goals(dt_ms);
        self.lemma_keeps_bonds(after);
    }

    /// Abandonment keeps the world well formed.
    pub proof fn lemma_abandon_keeps_wf(self)
        requires
            self.wf(),
        ensures
            self.abandon_goals().wf(),
    {
        let after = self.abandon_goals();
        self.lemma_keeps_bonds(after);
    }
}

impl World {
    /// Adds `dt_ms` milliseconds to the age of every goal.
    pub fn destination_time_system(&mut self, dt_ms: u32)
        ensures
            final(self)@ == old(self)@.age_goals(dt_ms),
            forall|i: int|
                0 <= i < old(self)@.entities.len() ==> goal_cleared_atomically(
                    old(self)@.entities[i],
                    #[trigger] final(self)@.entities[i],
                ),
            old(self)@.wf() ==> final(self)@.wf(),
    {
        let ghost before = self@;
        let n = self.entities.len();
        let mut i: usize = 0;
        while i < n
            invariant
                i <= n,
                n == self.entities@.len(),
                n == before.entities.len(),
                self@ == (WorldView { entities: self.entities@, ..before }),
                forall|k: int|
                    0 <= k < i ==> #[trigger] self.entities@[k] == aged(before.entities[k], dt_ms),
                forall|k: int| i <= k < n ==> #[trigger] self.entities@[k] == before.entities[k],
            decreases n - i,
        {
            let e = age_entity(self.entities[i], dt_ms);
            self.entities.set(i, e);
            i += 1;
        }
        proof {
            assert(self@.entities =~= before.age_goals(dt_ms).entities);
            if before.wf() {
                before.lemma_age_keeps_wf(dt_ms);
            }
        }
    }

    /// Clears the whole goal of every shmoop whose goal is at least
    /// [`ABANDON_AFTER_MS`] old, whatever set it.
    pub fn destination_abandoning_system(&mut self)
        ensures
            final(self)@ == old(self)@.abandon_goals(),
            forall|i: int|
                0 <= i < old(self)@.entities.len() ==> goal_cleared_atomically(
                    old(self)@.entities[i],
                    #[trigger] final(self)@.entities[i],
                ),
            forall|i: int|
                0 <= i < old(self)@.entities.len() && goal_stale(old(self)@.entities[i]) ==> !(
                #[trigger] final(self)@.entities[i]).shmoop().has_goal(),
            old(self)@.wf() ==> final(self)@.wf(),
    {
        let ghost before = self@;
        let n = self.entities.len();
        let mut i: usize = 0;
        while i < n
            invariant
                i <= n,
                n == self.entities@.len(),
                n == before.entities.len(),
                self@ == (WorldView { entities: self.entities@, ..before }),
                forall|k: int|
                    0 <= k < i ==> #[trigger] self.entities@[k] == abandoned(before.entities[k]),
                forall|k: int| i <= k < n ==> #[trigger] self.entities@[k] == before.entities[k],
            decreases n - i,
        {
            let e = abandon_entity(self.entities[i]);
            self.entities.set(i, e);
            i += 1;
        }
        proof {
            assert(self@.entities =~= before.abandon_goals().entities);
            if before.wf() {
                before.lemma_abandon_keeps_wf();
            }
        }
    }
}

} // verus!
