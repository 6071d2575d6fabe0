//! The hazard: every few seconds the ground tile farthest from the ship
//! falls away.

use vstd::prelude::*;
use crate::geometry::Point;
use crate::geometry::planar_dist_sq;
use crate::geometry::planar_distance_squared;
use crate::store::Entity;
use crate::store::RigidBody;
use crate::store::World;
use crate::store::WorldView;
use crate::timer::time_after;

verus! {

/// A tile falls once more than this many milliseconds have gone by.
pub const SHRINK_PERIOD_MS: u64 = 5_000;

/// Where the rescue ship lies: east coordinate.
pub const SHIP_X: i32 = -6_800;

/// Where the rescue ship lies: height.
pub const SHIP_Y: i32 = 500;

/// Where the rescue ship lies: north coordinate.
pub const SHIP_Z: i32 = 0;

/// Where the rescue ship lies.
pub open spec fn ship_position() -> Point {
    Point { x: SHIP_X, y: SHIP_Y, z: SHIP_Z }
}

/// How far an entity is from the ship in the horizontal plane, squared.
pub open spec fn remoteness(e: Entity) -> int {
    planar_dist_sq(ship_position(), e.position)
}

/// A tile after it has been let fall.
pub open spec fn loosened(e: Entity) -> Entity {
    Entity { body: RigidBody::Dynamic, ..e }
}

impl WorldView {
    /// `t` is the static ground tile farthest from the ship; among equally
    /// far ones, the one with the least handle.
    pub open spec fn is_farthest_tile(self, t: int) -> bool {
        &&& 0 <= t < self.entities.len()
        &&& self.entities[t].is_static_ground()
        &&& forall|k: int|
            0 <= k < self.entities.len() && (#[trigger] self.entities[k]).is_static_ground() ==> {
                ||| remoteness(self.entities[k]) < remoteness(self.entities[t])
                ||| remoteness(self.entities[k]) == remoteness(self.entities[t]) && t <= k
            }
    }

    /// The tile that falls next, if any static ground is left.
    pub open spec fn farthest_tile(self) -> Option<int> {
        if exists|t: int| self.is_farthest_tile(t) {
            Some(choose|t: int| self.is_farthest_tile(t))
        } else {
            None
        }
    }

    /// The world after the hazard's step.
    ///
    /// The timer runs on. Once it has passed the period it starts over, and
    /// the farthest static ground tile, if there is one, becomes dynamic. No
    /// more than that one tile falls.
    pub open spec fn shrink(self, dt_ms: u32) -> WorldView {
        let elapsed = time_after(self.shrink_timer, dt_ms);
        if elapsed <= SHRINK_PERIOD_MS {
            WorldView { shrink_timer: elapsed, ..self }
        } else {
            match self.farthest_tile() {
                Some(t) => WorldView {
                    shrink_timer: 0,
                    entities: self.entities.update(t, loosened(self.entities[t])),
                    ..self
                },
                None => WorldView { shrink_timer: 0, ..self },
            }
        }
    }

    /// The tile that the hazard's step lets fall, if it lets one fall.
    pub open spec fn falls(self, dt_ms: u32) -> Option<int> {
        if time_after(self.shrink_timer, dt_ms) <= SHRINK_PERIOD_MS {
            None
        } else {
            self.farthest_tile()
        }
    }

    /// `t` is the farthest among the static ground tiles with handles below
    /// `n`; among equally far ones, the one with the least handle.
    pub open spec fn is_farthest_below(self, t: int, n: int) -> bool {
        &&& 0 <= t < n
        &&& self.entities[t].is_static_ground()
        &&& forall|k: int|
            0 <= k < n && (#[trigger] self.entities[k]).is_static_ground() ==> {
                ||| remoteness(self.entities[k]) < remoteness(self.entities[t])
                ||| remoteness(self.entities[k]) == remoteness(self.entities[t]) && t <= k
            }
    }

    /// Where there is static ground below `n`, one of its tiles is the
    /// farthest.
    pub proof fn lemma_farthest_below(self, n: int) -> (t: int)
        requires
            0 <= n <= self.entities.len(),
            exists|k: int| 0 <= k < n && (#[trigger] self.entities[k]).is_static_ground(),
        ensures
            self.is_farthest_below(t, n),
        decreases n,
    {
        let last = n - 1;
        if exists|k: int| 0 <= k < last && (#[trigger] self.entities[k]).is_static_ground() {
            let best = self.lemma_farthest_below(last);
            if self.entities[last].is_static_ground() && remoteness(self.entities[last])
                > remoteness(self.entities[best]) {
                last
            } else {
                best
            }
        } else {
            let k = choose|k: int| 0 <= k < n && (#[trigger] self.entities[k]).is_static_ground();
            assert(k == last);
            last
        }
    }

    /// While static ground is left, the hazard lets a tile fall every time
    /// the period has passed: the farthest one, which is dynamic afterwards.
    pub proof fn lemma_tile_falls(self, dt_ms: u32)
        requires
            time_after(self.shrink_timer, dt_ms) > SHRINK_PERIOD_MS,
            exists|k: int|
                0 <= k < self.entities.len() && (#[trigger] self.entities[k]).is_static_ground(),
        ensures
            self.falls(dt_ms) is Some,
            self.is_farthest_tile(self.falls(dt_ms)->0),
            self.shrink(dt_ms).entities[self.falls(dt_ms)->0].body is Dynamic,
            self.shrink(dt_ms).shrink_timer == 0,
    {
        let t = self.lemma_farthest_below(self.entities.len() as int);
        assert(self.is_farthest_tile(t));
    }

    /// At most one tile is the farthest.
    pub proof fn lemma_farthest_unique(self, a: int, b: int)
        requires
            self.is_farthest_tile(a),
            self.is_farthest_tile(b),
        ensures
            a == b,
    {
        assert(self.entities[a].is_static_ground());
        assert(self.entities[b].is_static_ground());
    }

    /// The hazard's step keeps the world well formed.
    pub proof fn lemma_shrink_keeps_wf(self, dt_ms: u32)
        requires
            self.wf(),
        ensures
            self.shrink(dt_ms).wf(),
    {
        let after = self.shrink(dt_ms);
        self.lemma_keeps_bonds(after);
    }
}

impl World {
    /// Finds the static ground tile farthest from the ship.
    pub fn find_farthest_tile(&self) -> (r: Option<usize>)
        ensures
            r is Some == self@.farthest_tile() is Some,
            r matches Some(t) ==> self@.farthest_tile() == Some(t as int)
                && self@.is_farthest_tile(t as int),
    {
        let ship = Point { x: SHIP_X, y: SHIP_Y, z: SHIP_Z };
        let n = self.entities.len();
        let mut best: Option<usize> = None;
        let mut most: u128 = 0;
        let mut i: usize = 0;
        while i < n
            invariant
                i <= n,
                n == self.entities@.len(),
                ship == ship_position(),
                best is None ==> forall|k: int|
                    0 <= k < i ==> !(#[trigger] self.entities@[k]).is_static_ground(),
                best matches Some(t) ==> {
                    &&& t < i
                    &&& self.entities@[t as int].is_static_ground()
                    &&& most == remoteness(self.entities@[t as int])
                    &&& forall|k: int|
                        0 <= k < i && (#[trigger] self.entities@[k]).is_static_ground() ==> {
                            ||| remoteness(self.entities@[k]) < most
                            ||| remoteness(self.entities@[k]) == most && t <= k
                        }
                },
            decreases n - i,
        {
            let e = self.entities[i];
            if e.is_static_ground() {
                let far = planar_distance_squared(ship, e.position);
                let better = match best {
                    Some(_) => far > most,
                    None => true,
                };
                if better {
                    best = Some(i);
                    most = far;
                }
            }
            i += 1;
        }
        proof {
            let w = self@;
            match best {
                Some(t) => {
                    assert(w.is_farthest_tile(t as int));
                    let c = choose|c: int| w.is_farthest_tile(c);
                    w.lemma_farthest_unique(c, t as int);
                },
                None => {
                    assert forall|t: int| !w.is_farthest_tile(t) by {}
                },
            }
        }
        best
    }

    /// The hazard's step of one physics tick. Returns the tile that fell.
    pub fn map_shrinking_system(&mut self, dt_ms: u32) -> (r: Option<usize>)
        ensures
            final(self)@ == old(self)@.shrink(dt_ms),
            r is Some == old(self)@.falls(dt_ms) is Some,
            r matches Some(t) ==> old(self)@.falls(dt_ms) == Some(t as int),
            old(self)@.wf() ==> final(self)@.wf(),
    {
        let ghost before = self@;
        proof {
            if before.wf() {
                before.lemma_shrink_keeps_wf(dt_ms);
            }
        }
        self.shrink_timer = self.shrink_timer.saturating_add(dt_ms as u64);
        if self.shrink_timer <= SHRINK_PERIOD_MS {
            return None;
        }
        self.shrink_timer = 0;
        let tile = self.find_farthest_tile();
        proof {
            let now = self@;
            assert(now.entities == before.entities);
            match tile {
                Some(t) => {
                    assert(before.is_farthest_tile(t as int));
                    let c = choose|c: int| before.is_farthest_tile(c);
                    before.lemma_farthest_unique(c, t as int);
                },
                None => {
                    assert forall|t: int| !before.is_farthest_tile(t) by {
                        if before.is_farthest_tile(t) {
                            assert(now.is_farthest_tile(t));
                        }
                    }
                },
            }
        }
        if let Some(t) = tile {
            let e = self.entities[t];
            self.entities.set(t, Entity { body: RigidBody::Dynamic, ..e });
        }
        proof {
            assert(self@.entities =~= before.shrink(dt_ms).entities);
        }
        tile
    }
}

} // verus!
