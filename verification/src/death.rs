//! Falling: the death flag, and the sweep that removes what fell for good.

use vstd::prelude::*;
use crate::store::Entity;
use crate::store::MapBounds;
use crate::store::Shmoop;
use crate::store::World;
use crate::store::WorldView;

verus! {

/// An entity below this height is removed from the world.
pub const DESPAWN_DEPTH: i32 = -50_000;

/// A live shmoop with its death flag recomputed: dead exactly when it is
/// below the height of the bounds.
pub open spec fn fall_checked(e: Entity, bounds: MapBounds) -> Entity {
    if e.is_shmoop() {
        e.with_shmoop(Shmoop { dead: e.position.y < bounds.half_size.y, ..e.shmoop() })
    } else {
        e
    }
}

/// An entity after the sweep: gone if it was live and below the despawn depth.
pub open spec fn swept(e: Entity) -> Entity {
    if e.alive && e.position.y < DESPAWN_DEPTH {
        Entity { alive: false, ..e }
    } else {
        e
    }
}

/// Recomputes one entity's death flag.
pub fn check_fall(e: Entity, bounds: MapBounds) -> (r: Entity)
    ensures
        r == fall_checked(e, bounds),
{
    match e.as_shmoop() {
        Some(s) => e.replace_shmoop(Shmoop { dead: e.position.y < bounds.half_size.y, ..s }),
        None => e,
    }
}

/// Sweeps one entity.
pub fn sweep(e: Entity) -> (r: Entity)
    ensures
        r == swept(e),
{
    if e.alive && e.position.y < DESPAWN_DEPTH {
        Entity { alive: false, ..e }
    } else {
        e
    }
}

impl WorldView {
    /// The world after every shmoop's death flag has been recomputed.
    pub open spec fn check_falls(self) -> WorldView {
        self.map_entities(|i: int, e: Entity| fall_checked(e, self.bounds))
    }

    /// The world after the despawn sweep.
    pub open spec fn despawn(self) -> WorldView {
        self.map_entities(|i: int, e: Entity| swept(e))
    }

    /// Recomputing the death flags keeps the world well formed.
    pub proof fn lemma_check_falls_keeps_wf(self)
        requires
            self.wf(),
        ensures
            self.check_falls().wf(),
    {
        let after = self.check_falls();
        self.lemma_keeps_bonds(after);
    }

    /// The despawn sweep keeps the world well formed.
    pub proof fn lemma_despawn_keeps_wf(self)
        requires
            self.wf(),
        ensures
            self.despawn().wf(),
    {
        let after = self.despawn();
        self.lemma_keeps_bonds(after);
    }
}

impl World {
    /// Marks every shmoop dead or alive by its height against the bounds.
    pub fn shmoop_fall_death_system(&mut self)
        ensures
            final(self)@ == old(self)@.check_falls(),
            forall|i: int| #[trigger]
                final(self)@.is_shmoop(i) ==> (final(self)@.shmoop(i).dead
                    <==> final(self)@.entities[i].position.y
                    < final(self)@.bounds.half_size.y),
            old(self)@.wf() ==> final(self)@.wf(),
    {
        let ghost before = self@;
        let n = self.entities.len();
        let bounds = self.bounds;
        let mut i: usize = 0;
        while i < n
            invariant
                i <= n,
                n == self.entities@.len(),
                n == before.entities.len(),
                bounds == before.bounds,
                self@ == (WorldView { entities: self.entities@, ..before }),
                forall|k: int|
                    0 <= k < i ==> #[trigger] self.entities@[k] == fall_checked(
                        before.entities[k],
                        bounds,
                    ),
                forall|k: int| i <= k < n ==> #[trigger] self.entities@[k] == before.entities[k],
            decreases n - i,
        {
            let e = check_fall(self.entities[i], bounds);
            self.entities.set(i, e);
            i += 1;
        }
        proof {
            assert(self@.entities =~= before.check_falls().entities);
            if before.wf() {
                before.lemma_check_falls_keeps_wf();
            }
        }
    }

    /// Removes every entity, of whatever kind, that has fallen below the
    /// despawn depth.
    pub fn despawn_system(&mut self)
        ensures
            final(self)@ == old(self)@.despawn(),
            old(self)@.wf() ==> final(self)@.wf(),
    {
        let ghost before = self@;
        let n = self.entities.len();
        let mut i: usize = 0;
        while i < n
            invariant
                i <= n,
                n == self.entities@.len(),
                n == before.entities.len(),
                self@ == (WorldView { entities: self.entities@, ..before }),
                forall|k: int| 0 <= k < i ==> #[trigger] self.entities@[k] == swept(before.entities[k]),
                forall|k: int| i <= k < n ==> #[trigger] self.entities@[k] == before.entities[k],
            decreases n - i,
        {
            let e = sweep(self.entities[i]);
            self.entities.set(i, e);
            i += 1;
        }
        proof {
            assert(self@.entities =~= before.despawn().entities);
            if before.wf() {
                before.lemma_despawn_keeps_wf();
            }
        }
    }
}

} // verus!
