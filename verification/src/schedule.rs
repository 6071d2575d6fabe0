//! The two ordered pipelines: one per rendered frame, one per physics tick.

use vstd::prelude::*;
use crate::interaction::Contact;
use crate::pointer::Highlight;
use crate::pointer::Pointer;
use crate::store::World;
use crate::store::WorldView;

verus! {

impl WorldView {
    /// The world after one frame: goals age, stale goals are given up, the
    /// pointer selects, shmoops pick up and feed on contact, death flags are
    /// recomputed and what fell too far is removed, in that order.
    pub open spec fn frame(self, pointer: Pointer, contacts: Seq<Contact>, dt_ms: u32) -> WorldView {
        self.age_goals(dt_ms).abandon_goals().select(pointer).pick_up(contacts).feed(
            contacts,
        ).check_falls().despawn()
    }

    /// The world after the first part of one physics tick: the pointer drags,
    /// hunger decays and overrides goals, and shmoops walk, in that order.
    pub open spec fn drive(self, pointer: Pointer, dt_ms: u32) -> WorldView {
        self.drag(pointer, dt_ms).starve(dt_ms).pursue(dt_ms)
    }

    /// `after` is a world that one physics tick can lead to: the first part
    /// of the tick, then a wander destination for every idle shmoop, then the
    /// hazard's step.
    ///
    /// `fell` is the ground tile that the hazard let fall, if it did.
    pub open spec fn fixed(
        self,
        pointer: Pointer,
        dt_ms: u32,
        after: WorldView,
        fell: Option<usize>,
    ) -> bool {
        exists|mid: WorldView| #[trigger]
            self.drive(pointer, dt_ms).seeded(mid) && after == mid.shrink(dt_ms) && (fell is Some
                == mid.falls(dt_ms) is Some) && (fell matches Some(t) ==> mid.falls(dt_ms)
                == Some(t as int))
    }
}

impl World {
    /// Runs the systems of one frame in their fixed order. Returns what to
    /// outline.
    pub fn frame_tick(&mut self, pointer: Pointer, contacts: &Vec<Contact>, dt_ms: u32) -> (r:
        Option<Highlight>)
        ensures
            final(self)@ == old(self)@.frame(pointer, contacts@, dt_ms),
            r == old(self)@.age_goals(dt_ms).abandon_goals().highlight(pointer),
            old(self)@.wf() ==> final(self)@.wf(),
    {
        self.destination_time_system(dt_ms);
        self.destination_abandoning_system();
        let outline = self.select_system(pointer);
        self.pickup_interaction_system(contacts);
        self.food_store_interaction_system(contacts);
        self.shmoop_fall_death_system();
        self.despawn_system();
        outline
    }

    /// Runs the systems of one physics tick in their fixed order. Returns the
    /// ground tile that fell, if one did.
    pub fn fixed_tick(&mut self, pointer: Pointer, dt_ms: u32) -> (r: Option<usize>)
        requires
            old(self)@.bounds.wander_ready(),
        ensures
            old(self)@.fixed(pointer, dt_ms, final(self)@, r),
            old(self)@.wf() ==> final(self)@.wf(),
    {
        let ghost before = self@;
        self.shmoop_dragging_system(pointer, dt_ms);
        self.hunger_system(dt_ms);
        self.shmoop_moving_to_destination_system(dt_ms);
        let ghost driven = self@;
        self.shmoop_destination_selection_system();
        let ghost mid = self@;
        let fell = self.map_shrinking_system(dt_ms);
        proof {
            assert(driven == before.drive(pointer, dt_ms));
            assert(before.drive(pointer, dt_ms).seeded(mid) && self@ == mid.shrink(dt_ms));
        }
        fell
    }
}

} // verus!
