//! What holds of the simulation as a whole, proved from the systems'
//! definitions.

use vstd::prelude::*;
use crate::geometry::planar_dist_sq;
use crate::geometry::lemma_scaled_component_exact;
use crate::geometry::scaled_component;
use crate::hunger::hunger_after;
use crate::hunger::lemma_decay;
use crate::interaction::Contact;
use crate::pointer::Pointer;
use crate::pursuit::arrives;
use crate::pursuit::moved;
use crate::pursuit::seeks;
use crate::pursuit::wander_outcome;
use crate::pursuit::ARRIVAL_DISTANCE;
use crate::pursuit::MOVING_SPEED;
use crate::hazard::loosened;
use crate::interaction::touch;
use crate::store::Carrying;
use crate::store::Entity;
use crate::store::WorldView;
use crate::store::FULL_HUNGER;
use crate::store::goal_cleared_atomically;
use crate::timer::abandoned;
use crate::timer::aged;
use crate::timer::goal_stale;
use crate::timer::ABANDON_AFTER_MS;

verus! {

/// A frame keeps a well-formed world well formed, as long as the joint table
/// stays within what a machine can index.
pub proof fn lemma_frame_keeps_wf(w: WorldView, pointer: Pointer, contacts: Seq<Contact>, dt_ms: u32)
    requires
        w.wf(),
        w.entities.len() <= usize::MAX,
        w.frame(pointer, contacts, dt_ms).joints.len() <= usize::MAX,
    ensures
        w.frame(pointer, contacts, dt_ms).wf(),
{
    w.lemma_age_keeps_wf(dt_ms);
    let a = w.age_goals(dt_ms);
    a.lemma_abandon_keeps_wf();
    let b = a.abandon_goals();
    b.lemma_select_keeps_wf(pointer);
    let c = b.select(pointer);
    c.lemma_pick_up_below_keeps_wf(contacts, c.entities.len() as int);
    let d = c.pick_up(contacts);
    d.lemma_feed_keeps_wf(contacts);
    let e = d.feed(contacts);
    e.lemma_check_falls_keeps_wf();
    e.check_falls().lemma_despawn_keeps_wf();
}

/// A physics tick keeps a well-formed world well formed, wherever the idle
/// shmoops are sent.
pub proof fn lemma_fixed_keeps_wf(
    w: WorldView,
    pointer: Pointer,
    dt_ms: u32,
    after: WorldView,
    fell: Option<usize>,
)
    requires
        w.wf(),
        w.fixed(pointer, dt_ms, after, fell),
    ensures
        after.wf(),
{
    let mid = choose|mid: WorldView| #[trigger]
        w.drive(pointer, dt_ms).seeded(mid) && after == mid.shrink(dt_ms) && (fell is Some
            == mid.falls(dt_ms) is Some) && (fell matches Some(t) ==> mid.falls(dt_ms) == Some(
            t as int,
        ));
    w.lemma_drag_keeps_wf(pointer, dt_ms);
    let a = w.drag(pointer, dt_ms);
    a.lemma_starve_keeps_wf(dt_ms);
    let b = a.starve(dt_ms);
    b.lemma_pursue_keeps_wf(dt_ms);
    b.pursue(dt_ms).lemma_seeded_keeps_wf(mid);
    mid.lemma_shrink_keeps_wf(dt_ms);
}

/// In a well-formed world the pointer holds at most one shmoop.
pub proof fn lemma_at_most_one_held(w: WorldView)
    requires
        w.wf(),
    ensures
        w.held_count() <= 1,
{
    w.lemma_held_below(w.entities.len() as int);
}

/// In a well-formed world a live shmoop carries something exactly when a live
/// joint joins it to what it carries; and then it carries that joint's target
/// with that very joint.
pub proof fn lemma_carrying_iff_joint(w: WorldView, i: int)
    requires
        w.wf(),
        w.is_shmoop(i),
    ensures
        w.shmoop(i).carrying is Some <==> exists|j: int| #[trigger]
            w.joint_live(j) && w.joints[j].shmoop == i,
        forall|j: int| #[trigger]
            w.joint_live(j) && w.joints[j].shmoop == i ==> w.shmoop(i).carrying is Some
                && w.shmoop(i).carrying->0.joint_entity == j && w.shmoop(i).carrying->0.entity
                == w.joints[j].target,
{
    assert(w.carry_backed(i));
    if w.shmoop(i).carrying is Some {
        let j = w.shmoop(i).carrying->0.joint_entity as int;
        assert(w.joint_live(j) && w.joints[j].shmoop == i);
    }
    assert forall|j: int| #[trigger] w.joint_live(j) && w.joints[j].shmoop == i implies w.shmoop(
        i,
    ).carrying is Some && w.shmoop(i).carrying->0.joint_entity == j && w.shmoop(
        i,
    ).carrying->0.entity == w.joints[j].target by {
        assert(w.joint_owned(j));
    }
}

/// Whatever led to a well-formed world, a shmoop that lost its destination on
/// the way lost the goal's age and its interaction target with it.
pub proof fn lemma_goal_clearing_atomic(before: WorldView, after: WorldView, i: int)
    requires
        after.wf(),
        0 <= i < before.entities.len(),
        before.entities.len() == after.entities.len(),
    ensures
        goal_cleared_atomically(before.entities[i], after.entities[i]),
{
    if after.entities[i].is_shmoop() {
        assert(after.is_shmoop(i));
    }
}

/// A frame clears goals atomically.
pub proof fn lemma_frame_clears_atomically(
    w: WorldView,
    pointer: Pointer,
    contacts: Seq<Contact>,
    dt_ms: u32,
    i: int,
)
    requires
        w.wf(),
        w.entities.len() <= usize::MAX,
        w.frame(pointer, contacts, dt_ms).joints.len() <= usize::MAX,
        0 <= i < w.entities.len(),
    ensures
        goal_cleared_atomically(w.entities[i], w.frame(pointer, contacts, dt_ms).entities[i]),
{
    lemma_frame_keeps_wf(w, pointer, contacts, dt_ms);
    let c = w.age_goals(dt_ms).abandon_goals().select(pointer);
    c.lemma_pick_up_below_shape(contacts, c.entities.len() as int);
    lemma_goal_clearing_atomic(w, w.frame(pointer, contacts, dt_ms), i);
}

/// A physics tick clears goals atomically.
pub proof fn lemma_fixed_clears_atomically(
    w: WorldView,
    pointer: Pointer,
    dt_ms: u32,
    after: WorldView,
    fell: Option<usize>,
    i: int,
)
    requires
        w.wf(),
        w.fixed(pointer, dt_ms, after, fell),
        0 <= i < w.entities.len(),
    ensures
        after.entities.len() == w.entities.len(),
        goal_cleared_atomically(w.entities[i], after.entities[i]),
{
    lemma_fixed_keeps_wf(w, pointer, dt_ms, after, fell);
    lemma_goal_clearing_atomic(w, after, i);
}

/// Without food, hunger never grows, and it shrinks as long as time passes
/// and there is any left.
pub proof fn lemma_hunger_decays(percentage: u32, carrying: bool, dt_ms: u32)
    ensures
        hunger_after(percentage, carrying, dt_ms) <= percentage,
        dt_ms > 0 && percentage > 0 ==> hunger_after(percentage, carrying, dt_ms) < percentage,
        hunger_after(percentage, true, dt_ms) <= hunger_after(percentage, false, dt_ms),
{
    lemma_decay(carrying, dt_ms);
    lemma_decay(true, dt_ms);
    lemma_decay(false, dt_ms);
}

/// The hunger pass lowers every shmoop's hunger by the decay, down to zero.
pub proof fn lemma_starving_lowers_hunger(w: WorldView, dt_ms: u32, i: int)
    requires
        w.is_shmoop(i),
    ensures
        w.starve(dt_ms).is_shmoop(i),
        w.starve(dt_ms).shmoop(i).hunger.percentage == hunger_after(
            w.shmoop(i).hunger.percentage,
            w.shmoop(i).carrying is Some,
            dt_ms,
        ),
{
}

/// A shmoop that feeds is exactly full afterwards.
pub proof fn lemma_feeding_resets_hunger(w: WorldView, contacts: Seq<Contact>, i: int)
    requires
        w.can_feed(contacts, i),
    ensures
        w.feed(contacts).is_shmoop(i),
        w.feed(contacts).shmoop(i).hunger.percentage == FULL_HUNGER,
        !w.feed(contacts).shmoop(i).has_goal(),
{
}

/// A goal that has been aged to ten seconds or more is stale.
pub proof fn lemma_ageing_makes_stale(e: Entity, dt_ms: u32)
    requires
        e.is_shmoop(),
        e.shmoop().destination_time is Some,
        e.shmoop().destination_time->0.time + dt_ms >= ABANDON_AFTER_MS,
    ensures
        goal_stale(aged(e, dt_ms)),
{
}

/// The abandonment pass clears every stale goal whole, whatever kind of goal
/// it is, and touches nothing else of the shmoop.
pub proof fn lemma_stale_goal_abandoned(e: Entity)
    requires
        goal_stale(e),
    ensures
        abandoned(e).is_shmoop(),
        !abandoned(e).shmoop().has_goal(),
        abandoned(e).shmoop() == e.shmoop().without_goal(),
{
}

/// After the death flags have been recomputed, a live shmoop is dead exactly
/// when it is below the height of the bounds.
pub proof fn lemma_death_flag(w: WorldView, i: int)
    requires
        w.is_shmoop(i),
    ensures
        w.check_falls().is_shmoop(i),
        w.check_falls().shmoop(i).dead <==> w.entities[i].position.y < w.bounds.half_size.y,
        w.check_falls().entities[i].position == w.entities[i].position,
{
}

/// `a / b` for a positive `b`, rounded toward zero.
pub open spec fn toward_zero(a: int, b: int) -> int {
    if a >= 0 {
        a / b
    } else {
        -((-a) / b)
    }
}

/// What is left of the offset `d` to a destination after `dt_ms` milliseconds
/// at velocity `v`, with nothing in the way.
pub open spec fn offset_after(d: int, v: int, dt_ms: int) -> int {
    d - toward_zero(v * dt_ms, 1000)
}

/// One component of the walk: while a step is no longer than twice the
/// distance left, the offset along an axis never grows.
pub proof fn lemma_component_never_recedes(d: int, len_sq: int, speed: int, dt_ms: int)
    requires
        0 < len_sq,
        d * d <= len_sq,
        0 <= speed,
        0 <= dt_ms,
        (speed * dt_ms) * (speed * dt_ms) <= 4_000_000 * len_sq,
    ensures
        ({
            let r = offset_after(d, scaled_component(d, len_sq, speed), dt_ms);
            &&& d >= 0 ==> -d <= r <= d
            &&& d <= 0 ==> d <= r <= -d
            &&& r * r <= d * d
        }),
{
    lemma_scaled_component_exact(d, len_sq, speed);
    let m = if d >= 0 { d } else { -d };
    let w = scaled_component(d, len_sq, speed);
    let v = if w >= 0 { w } else { -w };
    assert(v * v == w * w && m * m == d * d) by (nonlinear_arith)
        requires
            v == w || v == -w,
            m == d || m == -d,
    ;
    let step = speed * dt_ms;
    assert(((v * dt_ms) * (v * dt_ms)) * len_sq <= (m * m) * (step * step)) by (nonlinear_arith)
        requires
            (v * v) * len_sq <= (m * m) * (speed * speed),
            step == speed * dt_ms,
            0 <= dt_ms,
    ;
    assert((v * dt_ms) * (v * dt_ms) <= (2000 * m) * (2000 * m)) by (nonlinear_arith)
        requires
            ((v * dt_ms) * (v * dt_ms)) * len_sq <= (m * m) * (step * step),
            step * step <= 4_000_000 * len_sq,
            0 < len_sq,
            0 <= m,
    ;
    assert(0 <= v * dt_ms <= 2000 * m) by (nonlinear_arith)
        requires
            (v * dt_ms) * (v * dt_ms) <= (2000 * m) * (2000 * m),
            0 <= v,
            0 <= dt_ms,
            0 <= m,
    ;
    let s = (v * dt_ms) / 1000;
    assert(0 <= s <= 2 * m);
    if v == 0 {
        assert(v * dt_ms == 0) by (nonlinear_arith)
            requires
                v == 0,
        ;
    }
    let r = offset_after(d, w, dt_ms);
    if w >= 0 {
        assert(w * dt_ms == v * dt_ms) by (nonlinear_arith)
            requires
                w == v,
        ;
        assert(r == d - s);
    } else {
        assert(w * dt_ms == -(v * dt_ms)) by (nonlinear_arith)
            requires
                w == -v,
        ;
        assert(r == d + s);
    }
    assert(-m <= r <= m);
    assert(r * r <= d * d) by (nonlinear_arith)
        requires
            -m <= r <= m,
            m == d || m == -d,
    ;
}

/// A walking shmoop never recedes from its destination.
///
/// Take a shmoop that walks and has not arrived, and let it coast for the
/// tick at the velocity that pursuit gives it, with nothing in its way. If
/// the tick is short enough that one step is no longer than twice the
/// horizontal distance left, the shmoop ends no farther from its destination
/// along either horizontal axis than it began.
pub proof fn lemma_walking_never_recedes(e: Entity, dt_ms: u32)
    requires
        seeks(e),
        !arrives(e),
        (dt_ms * dt_ms) * (dt_ms * dt_ms) <= 1600 * planar_dist_sq(
            e.position,
            e.shmoop().destination->0.target,
        ),
    ensures
        ({
            let to = e.shmoop().destination->0.target;
            let dx = to.x - e.position.x;
            let dz = to.z - e.position.z;
            let v = moved(e, dt_ms).shmoop().velocity;
            let rx = offset_after(dx, v.x as int, dt_ms as int);
            let rz = offset_after(dz, v.z as int, dt_ms as int);
            &&& rx * rx <= dx * dx
            &&& rz * rz <= dz * dz
            &&& rx * rx + rz * rz <= dx * dx + dz * dz
        }),
{
    let to = e.shmoop().destination->0.target;
    let dx = to.x - e.position.x;
    let dz = to.z - e.position.z;
    let len_sq = planar_dist_sq(e.position, to);
    assert(dx * dx >= 0 && dz * dz >= 0) by (nonlinear_arith);
    let speed = MOVING_SPEED * dt_ms;
    crate::geometry::lemma_heading_speed(e.position, to, true, speed as int);
    if len_sq > 0 {
        assert((speed * dt_ms) * (speed * dt_ms) <= 4_000_000 * len_sq) by (nonlinear_arith)
            requires
                speed == MOVING_SPEED * dt_ms,
                MOVING_SPEED == 50,
                (dt_ms * dt_ms) * (dt_ms * dt_ms) <= 1600 * len_sq,
        ;
        lemma_component_never_recedes(dx, len_sq, speed as int, dt_ms as int);
        lemma_component_never_recedes(dz, len_sq, speed as int, dt_ms as int);
    } else {
        assert(dx == 0 && dz == 0) by (nonlinear_arith)
            requires
                dx * dx + dz * dz <= 0,
        ;
        assert(0 * (dt_ms as int) == 0);
    }
}

/// A shmoop that has arrived stops and loses its goal within the same step,
/// and lets go of what it carries.
pub proof fn lemma_arrival_stops(e: Entity, dt_ms: u32)
    requires
        arrives(e),
    ensures
        moved(e, dt_ms).is_shmoop(),
        moved(e, dt_ms).shmoop().velocity == (crate::geometry::Velocity { x: 0, y: 0, z: 0 }),
        !moved(e, dt_ms).shmoop().has_goal(),
        moved(e, dt_ms).shmoop().carrying is None,
{
}

/// On level ground and with ticks of at most 141 milliseconds, a shmoop that
/// walks to a plain destination never recedes from it until it arrives.
pub proof fn lemma_level_walk_never_recedes(e: Entity, dt_ms: u32)
    requires
        seeks(e),
        !arrives(e),
        e.shmoop().interaction_target is None,
        e.position.y == e.shmoop().destination->0.target.y,
        dt_ms <= 141,
    ensures
        ({
            let to = e.shmoop().destination->0.target;
            let dx = to.x - e.position.x;
            let dz = to.z - e.position.z;
            let v = moved(e, dt_ms).shmoop().velocity;
            let rx = offset_after(dx, v.x as int, dt_ms as int);
            let rz = offset_after(dz, v.z as int, dt_ms as int);
            rx * rx + rz * rz <= dx * dx + dz * dz
        }),
{
    let to = e.shmoop().destination->0.target;
    let dx = to.x - e.position.x;
    let dz = to.z - e.position.z;
    let dy = to.y - e.position.y;
    assert(dy * dy == 0) by (nonlinear_arith)
        requires
            dy == 0,
    ;
    assert(dx * dx >= 0 && dz * dz >= 0) by (nonlinear_arith);
    let len_sq = planar_dist_sq(e.position, to);
    assert(ARRIVAL_DISTANCE * ARRIVAL_DISTANCE == 250_000) by (nonlinear_arith)
        requires
            ARRIVAL_DISTANCE == 500,
    ;
    assert(len_sq > 250_000);
    assert((dt_ms * dt_ms) * (dt_ms * dt_ms) <= 400_000_000) by (nonlinear_arith)
        requires
            dt_ms <= 141,
    ;
    lemma_walking_never_recedes(e, dt_ms);
}

/// A press that takes hold of a shmoop leaves it held and without a goal.
pub proof fn lemma_pick_clears_goal(w: WorldView, pointer: Pointer)
    requires
        w.picks(pointer),
    ensures
        ({
            let i = w.valid_hit(pointer)->0.entity as int;
            &&& w.select(pointer).is_picked(i)
            &&& !w.select(pointer).shmoop(i).has_goal()
        }),
{
}

/// While a shmoop is held, a press changes nothing: no second shmoop is
/// taken until the button has been let go.
pub proof fn lemma_second_press_changes_nothing(w: WorldView, pointer: Pointer)
    requires
        pointer.pressed,
        w.holder() is Some,
    ensures
        w.select(pointer) == w,
{
    assert(w.select(pointer).entities =~= w.entities);
}

/// Once the button is up, the pointer holds no shmoop.
pub proof fn lemma_release_lets_go(w: WorldView, pointer: Pointer, i: int)
    requires
        !pointer.pressed,
    ensures
        !w.select(pointer).is_picked(i),
{
}

/// Without a contact point between a shmoop and what it is after, neither
/// pickup nor feeding changes anything.
pub proof fn lemma_no_contact_no_interaction(w: WorldView, contacts: Seq<Contact>)
    requires
        forall|a: usize, b: usize| #[trigger] touch(contacts, a, b) is None,
    ensures
        w.pick_up(contacts) == w,
        w.feed(contacts) == w,
{
    lemma_untouched_pick_up(w, contacts, w.entities.len() as int);
    assert(w.feed(contacts).entities =~= w.entities);
}

/// Without any contact point, the first `n` turns at picking up change
/// nothing.
pub proof fn lemma_untouched_pick_up(w: WorldView, contacts: Seq<Contact>, n: int)
    requires
        forall|a: usize, b: usize| #[trigger] touch(contacts, a, b) is None,
    ensures
        w.pick_up_below(contacts, n) == w,
    decreases n,
{
    if n > 0 {
        lemma_untouched_pick_up(w, contacts, n - 1);
    }
}

/// The hazard lets at most one tile fall at a time, and only a ground tile
/// that was static; everything else stays as it was.
pub proof fn lemma_hazard_drops_one_tile(w: WorldView, dt_ms: u32, i: int)
    requires
        0 <= i < w.entities.len(),
    ensures
        w.shrink(dt_ms).entities.len() == w.entities.len(),
        w.shrink(dt_ms).joints == w.joints,
        w.falls(dt_ms) != Some(i) ==> w.shrink(dt_ms).entities[i] == w.entities[i],
        w.falls(dt_ms) == Some(i) ==> w.entities[i].is_static_ground() && w.shrink(
            dt_ms,
        ).entities[i] == loosened(w.entities[i]),
        w.falls(dt_ms) is None ==> w.shrink(dt_ms).entities == w.entities,
{
    if w.falls(dt_ms) is Some {
        let t = w.falls(dt_ms)->0;
        assert(w.is_farthest_tile(t));
    }
}

/// A loosened tile is never chosen again: each tile falls at most once.
pub proof fn lemma_tile_falls_once(w: WorldView, dt_ms: u32, later_ms: u32)
    requires
        w.falls(dt_ms) is Some,
    ensures
        w.shrink(dt_ms).falls(later_ms) != w.falls(dt_ms),
{
    let t = w.falls(dt_ms)->0;
    assert(w.is_farthest_tile(t));
    let after = w.shrink(dt_ms);
    if after.falls(later_ms) is Some {
        assert(after.is_farthest_tile(after.falls(later_ms)->0));
    }
}

/// Turns at picking up leave a despawned entity as it is.
pub proof fn lemma_pick_up_spares_the_gone(w: WorldView, contacts: Seq<Contact>, n: int, i: int)
    requires
        0 <= i < w.entities.len(),
        !w.entities[i].alive,
    ensures
        w.pick_up_below(contacts, n).entities.len() == w.entities.len(),
        w.pick_up_below(contacts, n).entities[i] == w.entities[i],
    decreases n,
{
    if n > 0 {
        lemma_pick_up_spares_the_gone(w, contacts, n - 1, i);
    }
}

/// Removal is for good: a frame leaves a despawned entity as it is.
pub proof fn lemma_frame_spares_the_gone(
    w: WorldView,
    pointer: Pointer,
    contacts: Seq<Contact>,
    dt_ms: u32,
    i: int,
)
    requires
        0 <= i < w.entities.len(),
        !w.entities[i].alive,
    ensures
        w.frame(pointer, contacts, dt_ms).entities.len() == w.entities.len(),
        w.frame(pointer, contacts, dt_ms).entities[i] == w.entities[i],
{
    let c = w.age_goals(dt_ms).abandon_goals().select(pointer);
    lemma_pick_up_spares_the_gone(c, contacts, c.entities.len() as int, i);
}

/// Removal is for good: a physics tick leaves a despawned entity as it is.
pub proof fn lemma_fixed_spares_the_gone(
    w: WorldView,
    pointer: Pointer,
    dt_ms: u32,
    after: WorldView,
    fell: Option<usize>,
    i: int,
)
    requires
        w.fixed(pointer, dt_ms, after, fell),
        0 <= i < w.entities.len(),
        !w.entities[i].alive,
    ensures
        after.entities.len() == w.entities.len(),
        after.entities[i] == w.entities[i],
{
    let mid = choose|mid: WorldView| #[trigger]
        w.drive(pointer, dt_ms).seeded(mid) && after == mid.shrink(dt_ms) && (fell is Some
            == mid.falls(dt_ms) is Some) && (fell matches Some(t) ==> mid.falls(dt_ms) == Some(
            t as int,
        ));
    let driven = w.drive(pointer, dt_ms);
    assert(driven.entities[i] == w.entities[i]);
    assert(wander_outcome(driven.bounds, driven.entities[i], mid.entities[i]));
    lemma_hazard_drops_one_tile(mid, dt_ms, i);
    if mid.falls(dt_ms) is Some {
        assert(mid.is_farthest_tile(mid.falls(dt_ms)->0));
    }
}

/// After the pickup pass, a shmoop that picked its target up carries it by a
/// live joint between the two, and has no goal any more.
pub proof fn lemma_pick_up_joins(w: WorldView, contacts: Seq<Contact>, i: int)
    requires
        w.wf(),
        w.entities.len() <= usize::MAX,
        w.pick_up(contacts).joints.len() <= usize::MAX,
        w.can_pick_up(contacts, i),
    ensures
        ({
            let after = w.pick_up(contacts);
            let j = w.joints.len() + w.pickers_below(contacts, i);
            &&& after.is_shmoop(i)
            &&& !after.shmoop(i).has_goal()
            &&& after.shmoop(i).carrying == Some(
                Carrying { entity: w.pursued(i)->0, joint_entity: j as usize },
            )
            &&& after.joint_live(j as int)
            &&& after.joints[j as int].shmoop == i
            &&& after.joints[j as int].target == w.pursued(i)->0
        }),
{
    let n = w.entities.len() as int;
    w.lemma_pick_up_entities(contacts, i);
    w.lemma_pick_up_below_entities(contacts, i);
    w.lemma_pick_up_below_keeps_wf(contacts, n);
    let after = w.pick_up(contacts);
    lemma_pickers_grow(w, contacts, i, n);
    assert(after.carry_backed(i));
}

/// The count of shmoops that pick up grows with the handles counted over.
pub proof fn lemma_pickers_grow(w: WorldView, contacts: Seq<Contact>, a: int, b: int)
    requires
        a <= b,
    ensures
        w.pickers_below(contacts, a) <= w.pickers_below(contacts, b),
    decreases b - a,
{
    if a < b {
        lemma_pickers_grow(w, contacts, a, b - 1);
    }
}

} // verus!
