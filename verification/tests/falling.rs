use save_them_fools::census::{is_object_on_ship, Census, Standing};
use save_them_fools::geometry::Point;
use save_them_fools::store::{
    Entity, Kind, MapBounds, RigidBody, Shmoop, ShmoopInteractionTarget, World,
};

fn arena() -> World {
    World::new(MapBounds { half_size: Point { x: 5000, y: 0, z: 5000 } })
}

fn point(x: i32, y: i32, z: i32) -> Point {
    Point { x, y, z }
}

fn shmoop_of(world: &World, id: usize) -> Shmoop {
    match world.entity(id).unwrap().kind {
        Kind::Shmoop(s) => s,
        _ => panic!("entity {} is no shmoop", id),
    }
}

#[test]
fn the_death_flag_follows_the_height_both_ways() {
    let mut world = arena();
    let id = world.spawn(Entity::new_shmoop(point(0, 500, 0)));
    world.shmoop_fall_death_system();
    assert!(!shmoop_of(&world, id).dead);
    world.set_position(id, point(0, -1, 0));
    world.shmoop_fall_death_system();
    assert!(shmoop_of(&world, id).dead);
    world.set_position(id, point(0, 0, 0));
    world.shmoop_fall_death_system();
    assert!(!shmoop_of(&world, id).dead);
    world.set_position(id, point(9000, -49_999, 0));
    world.shmoop_fall_death_system();
    assert!(shmoop_of(&world, id).dead);
}

#[test]
fn the_death_flag_is_measured_against_the_bounds_height() {
    let mut world = World::new(MapBounds { half_size: Point { x: 5000, y: 250, z: 5000 } });
    let low = world.spawn(Entity::new_shmoop(point(0, 249, 0)));
    let level = world.spawn(Entity::new_shmoop(point(0, 250, 0)));
    let log = world.spawn(Entity::new_tree(point(0, -10, 0)));
    world.shmoop_fall_death_system();
    assert!(shmoop_of(&world, low).dead);
    assert!(!shmoop_of(&world, level).dead);
    assert_eq!(world.entity(log).unwrap(), Entity::new_tree(point(0, -10, 0)));
}

#[test]
fn whatever_falls_below_the_depth_is_removed() {
    let mut world = arena();
    let shmoop = world.spawn(Entity::new_shmoop(point(0, -50_001, 0)));
    let log = world.spawn(Entity::new_tree(point(0, -50_001, 0)));
    let tile = world.spawn(Entity::new_ground(point(0, -90_000, 0)));
    let edge = world.spawn(Entity::new_shmoop(point(0, -50_000, 0)));
    world.despawn_system();
    assert!(!world.entity(shmoop).unwrap().alive);
    assert!(!world.entity(log).unwrap().alive);
    assert!(!world.entity(tile).unwrap().alive);
    assert!(world.entity(edge).unwrap().alive);
    assert_eq!(world.entity(log).unwrap().position, point(0, -50_001, 0));
    world.set_position(shmoop, point(0, 0, 0));
    world.despawn_system();
    assert!(!world.entity(shmoop).unwrap().alive);
}

#[test]
fn a_goal_whose_target_is_gone_stays_pending() {
    let mut world = arena();
    let log = world.spawn(Entity::new_tree(point(100, -60_000, 0)));
    let mut e = Entity::new_shmoop(point(0, 0, 0));
    if let Kind::Shmoop(mut s) = e.kind {
        s = s.set_goal(point(100, 0, 0), Some(log));
        e.kind = Kind::Shmoop(s);
    }
    let id = world.spawn(e);
    world.despawn_system();
    let contacts = vec![save_them_fools::interaction::Contact {
        collider1: id,
        collider2: log,
        point: Some(save_them_fools::interaction::ContactPoint {
            local_point1: point(0, 0, 0),
            local_point2: point(0, 0, 0),
        }),
    }];
    world.pickup_interaction_system(&contacts);
    world.food_store_interaction_system(&contacts);
    let s = shmoop_of(&world, id);
    assert_eq!(s.carrying, None);
    assert_eq!(s.interaction_target, Some(ShmoopInteractionTarget { entity: log }));
}

#[test]
fn the_deck_is_west_of_its_edge_and_not_below_zero() {
    assert!(is_object_on_ship(&point(-6000, 0, 0)));
    assert!(is_object_on_ship(&point(-7500, 500, 9999)));
    assert!(!is_object_on_ship(&point(-5999, 0, 0)));
    assert!(!is_object_on_ship(&point(-6000, -1, 0)));
}

#[test]
fn the_round_is_lost_without_survivors() {
    let mut world = arena();
    assert_eq!(world.shmoop_count_system(), Standing::Lost);
    let id = world.spawn(Entity::new_shmoop(point(0, -5, 0)));
    world.spawn(Entity::new_tree(point(-7000, 0, 0)));
    assert_eq!(world.shmoop_count_system(), Standing::Underway { shmoops: 1, logs: 1 });
    world.shmoop_fall_death_system();
    assert!(shmoop_of(&world, id).dead);
    assert_eq!(world.shmoop_count_system(), Standing::Lost);
}

#[test]
fn the_round_is_won_with_everyone_and_every_log_aboard() {
    let mut world = arena();
    let a = world.spawn(Entity::new_shmoop(point(-7500, 500, -1000)));
    let b = world.spawn(Entity::new_shmoop(point(-7500, 500, 0)));
    let log = world.spawn(Entity::new_tree(point(-6500, 100, 0)));
    let stray = world.spawn(Entity::new_tree(point(4500, 1200, -500)));
    world.spawn(Entity::new_food_store(point(4700, 400, 500)));
    assert_eq!(
        world.census(),
        Census { shmoops: 2, logs: 1, all_logs_in: false, all_shmoops_in: true }
    );
    assert_eq!(world.shmoop_count_system(), Standing::Underway { shmoops: 2, logs: 1 });
    world.set_position(stray, point(-6000, 0, 300));
    assert_eq!(world.shmoop_count_system(), Standing::AllAboard { shmoops: 2, logs: 2 });
    world.set_position(b, point(-5000, 500, 0));
    assert_eq!(
        world.census(),
        Census { shmoops: 2, logs: 2, all_logs_in: true, all_shmoops_in: false }
    );
    world.set_position(b, point(-5000, -60_000, 0));
    world.despawn_system();
    assert_eq!(world.shmoop_count_system(), Standing::AllAboard { shmoops: 1, logs: 2 });
    assert!(world.entity(a).unwrap().alive && world.entity(log).unwrap().alive);
}

#[test]
fn standing_follows_the_counts() {
    let c = Census { shmoops: 0, logs: 3, all_logs_in: true, all_shmoops_in: true };
    assert_eq!(c.standing(), Standing::Lost);
    let c = Census { shmoops: 4, logs: 3, all_logs_in: true, all_shmoops_in: false };
    assert_eq!(c.standing(), Standing::Underway { shmoops: 4, logs: 3 });
    let c = Census { shmoops: 4, logs: 3, all_logs_in: false, all_shmoops_in: true };
    assert_eq!(c.standing(), Standing::Underway { shmoops: 4, logs: 3 });
    let c = Census { shmoops: 4, logs: 3, all_logs_in: true, all_shmoops_in: true };
    assert_eq!(c.standing(), Standing::AllAboard { shmoops: 4, logs: 3 });
}

#[test]
fn the_farthest_static_tile_falls_after_five_seconds() {
    let mut world = arena();
    let near = world.spawn(Entity::new_ground(point(-5250, -100, 0)));
    let far = world.spawn(Entity::new_ground(point(5250, -100, 0)));
    let farther_floor = world.spawn(Entity::new_ship_floor(point(9000, 0, 0)));
    for _ in 0..250 {
        assert_eq!(world.map_shrinking_system(20), None);
    }
    assert_eq!(world.shrink_timer, 5000);
    assert_eq!(world.map_shrinking_system(20), Some(far));
    assert_eq!(world.shrink_timer, 0);
    assert_eq!(world.entity(far).unwrap().body, RigidBody::Dynamic);
    assert_eq!(world.entity(near).unwrap().body, RigidBody::Static);
    assert_eq!(world.entity(farther_floor).unwrap().body, RigidBody::Static);
    assert_eq!(world.map_shrinking_system(5000), None);
    assert_eq!(world.map_shrinking_system(1), Some(near));
    assert_eq!(world.map_shrinking_system(6000), None);
    assert_eq!(world.shrink_timer, 0);
    assert_eq!(world.find_farthest_tile(), None);
}

#[test]
fn the_hazard_measures_in_the_plane_and_breaks_ties_by_handle() {
    let mut world = arena();
    let high = world.spawn(Entity::new_ground(point(-6800, 90_000, 1000)));
    let north = world.spawn(Entity::new_ground(point(-6800, -100, 3000)));
    let south = world.spawn(Entity::new_ground(point(-6800, -100, -3000)));
    let mut loose = Entity::new_ground(point(-6800, -100, 9000));
    loose.body = RigidBody::Dynamic;
    let loose = world.spawn(loose);
    world.spawn(Entity::new_ground(point(-6800, -60_000, 9500)));
    world.despawn_system();
    assert_eq!(world.find_farthest_tile(), Some(north));
    assert_eq!(world.map_shrinking_system(5001), Some(north));
    assert_eq!(world.map_shrinking_system(5001), Some(south));
    assert_eq!(world.map_shrinking_system(5001), Some(high));
    assert_eq!(world.map_shrinking_system(5001), None);
    assert_eq!(world.entity(loose).unwrap().body, RigidBody::Dynamic);
}

#[test]
fn the_hazard_timer_stops_at_its_largest_value() {
    let mut world = arena();
    world.shrink_timer = u64::MAX - 1;
    assert_eq!(world.map_shrinking_system(10), None);
    assert_eq!(world.shrink_timer, 0);
}
