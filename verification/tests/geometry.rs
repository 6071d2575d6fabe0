use save_them_fools::geometry::{
    distance_squared, heading, isqrt, magnitude, mul_div, planar_distance_squared,
    scale_component, square_diff, Point, MAX_SPEED,
};
use save_them_fools::store::{
    DestinationTime, Entity, Hunger, Kind, ShmoopDestination, ShmoopInteractionTarget,
};

fn point(x: i32, y: i32, z: i32) -> Point {
    Point { x, y, z }
}

#[test]
fn square_roots_round_down() {
    assert_eq!(isqrt(0), 0);
    assert_eq!(isqrt(1), 1);
    assert_eq!(isqrt(3), 1);
    assert_eq!(isqrt(4), 2);
    assert_eq!(isqrt(8), 2);
    assert_eq!(isqrt(9), 3);
    assert_eq!(isqrt(18_000_000), 4242);
    assert_eq!(isqrt(1 << 64), 1 << 32);
    assert_eq!(isqrt((1 << 64) - 1), (1 << 32) - 1);
    assert_eq!(isqrt(u128::MAX), u64::MAX);
}

#[test]
fn magnitudes_cover_the_whole_range() {
    assert_eq!(magnitude(0), 0);
    assert_eq!(magnitude(-7), 7);
    assert_eq!(magnitude(7), 7);
    assert_eq!(magnitude(i64::MIN), 1 << 63);
    assert_eq!(magnitude(i64::MAX), (1 << 63) - 1);
}

#[test]
fn distances_are_exact_at_the_extremes() {
    assert_eq!(square_diff(3, -4), 49);
    assert_eq!(square_diff(i32::MIN, i32::MAX), 0xffff_ffff * 0xffff_ffff);
    assert_eq!(distance_squared(point(1, 2, 3), point(4, 6, 15)), 9 + 16 + 144);
    assert_eq!(planar_distance_squared(point(1, 2, 3), point(4, 6, 15)), 9 + 144);
    assert_eq!(
        distance_squared(point(i32::MIN, i32::MIN, i32::MIN), point(i32::MAX, i32::MAX, i32::MAX)),
        3 * 0xffff_ffff * 0xffff_ffff
    );
}

#[test]
fn components_are_rescaled_toward_zero() {
    assert_eq!(scale_component(3000, 18_000_000, 1000), 707);
    assert_eq!(scale_component(-3000, 18_000_000, 1000), -707);
    assert_eq!(scale_component(3000, 25_000_000, 1000), 600);
    assert_eq!(scale_component(-4000, 25_000_000, 1000), -800);
    assert_eq!(scale_component(0, 18_000_000, 1000), 0);
    assert_eq!(scale_component(0, 0, 1000), 0);
    assert_eq!(scale_component(5, 25, 0), 0);
    assert_eq!(scale_component(5, 25, 1000), 1000);
    assert_eq!(scale_component(1, 2, 1000), 707);
    assert_eq!(scale_component(1, 3, 1000), 577);
    assert_eq!(scale_component(-1, 1, MAX_SPEED), -(1 << 38));
    assert_eq!(scale_component(1, 3, MAX_SPEED), 158700833568);
    let widest = u32::MAX as i64;
    let square = (u32::MAX as u128) * (u32::MAX as u128);
    assert_eq!(scale_component(widest, square, MAX_SPEED), 1 << 38);
}

#[test]
fn products_too_wide_for_a_word_are_divided_exactly() {
    assert_eq!(mul_div(0, 5, 7), 0);
    assert_eq!(mul_div(6, 7, 6), 7);
    assert_eq!(mul_div(2, 10, 3), 6);
    let big = 1u128 << 76;
    assert_eq!(mul_div(1 << 65, big, 1 << 65), big);
    assert_eq!(mul_div((1 << 65) - 1, big, 1 << 65), big - (1 << 11));
    assert_eq!(mul_div(1, big - 1, 3), 25185954575304774473045);
    assert_eq!(mul_div((1 << 64) - 1, big - 1, (1 << 66) - 1), 18889465931478580854015);
}

#[test]
fn a_heading_is_never_faster_than_the_speed() {
    for (dx, dy, dz) in [(300, 0, 24), (1, 600, 1), (1, 0, 1), (-7, 3, 2), (3000, 0, 3000), (1, 0, 0)] {
        for speed in [0u64, 1, 2, 3, 4, 5, 999, 1000, 1 << 20, MAX_SPEED] {
            for planar in [true, false] {
                let (vx, vz) = heading(point(0, 0, 0), point(dx, dy, dz), planar, speed);
                let got = (vx as i128) * (vx as i128) + (vz as i128) * (vz as i128);
                let cap = (speed as i128) * (speed as i128);
                assert!(got <= cap, "{dx} {dy} {dz} {speed} {planar}: {vx} {vz}");
                assert!(vx.signum() == (dx as i64).signum() || vx == 0);
                assert!(vz.signum() == (dz as i64).signum() || vz == 0);
                if planar && speed >= 2 {
                    let floor = (speed as i128 - 2) * (speed as i128 - 2);
                    assert!(floor <= got, "{dx} {dy} {dz} {speed}: {vx} {vz}");
                }
            }
        }
    }
}

#[test]
fn headings_are_level_or_whole() {
    let from = point(0, 4000, 0);
    let to = point(3000, 0, 0);
    assert_eq!(heading(from, to, true, 1000), (1000, 0));
    assert_eq!(heading(from, to, false, 1000), (600, 0));
    assert_eq!(heading(from, from, true, 1000), (0, 0));
    assert_eq!(heading(from, from, false, 1000), (0, 0));
    assert_eq!(heading(point(0, 0, 0), point(-3000, 0, 3000), true, 1000), (-707, 707));
    assert_eq!(heading(point(0, 0, 0), point(300, 0, 24), false, 1000), (996, 79));
    assert_eq!(heading(point(0, 0, 0), point(1, 600, 1), true, 1000), (707, 707));
    assert_eq!(heading(point(0, 0, 0), point(1, 600, 1), false, 1000), (1, 1));
    assert_eq!(
        heading(point(i32::MIN, 0, i32::MIN), point(i32::MAX, 0, i32::MAX), true, 1_000_000),
        (707_106, 707_106)
    );
}

#[test]
fn only_sound_shmoops_may_be_spawned() {
    let fresh = Entity::new_shmoop(point(0, 0, 0));
    assert!(fresh.spawnable());
    assert!(Entity::new_tree(point(0, 0, 0)).spawnable());
    assert!(Entity::new_ground(point(0, 0, 0)).spawnable());
    let with = |change: &dyn Fn(&mut save_them_fools::store::Shmoop)| {
        let mut e = fresh;
        if let Kind::Shmoop(mut s) = e.kind {
            change(&mut s);
            e.kind = Kind::Shmoop(s);
        }
        e
    };
    assert!(!with(&|s| s.picked = true).spawnable());
    assert!(!with(&|s| s.hunger = Hunger { percentage: 100_001 }).spawnable());
    assert!(!with(&|s| s.destination = Some(ShmoopDestination { target: point(1, 1, 1) }))
        .spawnable());
    assert!(!with(&|s| s.destination_time = Some(DestinationTime { time: 0 })).spawnable());
    assert!(!with(&|s| s.interaction_target = Some(ShmoopInteractionTarget { entity: 0 }))
        .spawnable());
    assert!(!with(&|s| {
        s.carrying = Some(save_them_fools::store::Carrying { entity: 0, joint_entity: 0 })
    })
    .spawnable());
    assert!(with(&|s| *s = s.set_goal(point(1, 1, 1), Some(3))).spawnable());
    assert!(with(&|s| s.dead = true).spawnable());
}
