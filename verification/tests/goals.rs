use save_them_fools::geometry::{Point, Velocity};
use save_them_fools::interaction::{Contact, ContactPoint};
use save_them_fools::pointer::{Pointer, RayHit};
use save_them_fools::store::{
    DestinationTime, Entity, Kind, MapBounds, Shmoop, ShmoopDestination, ShmoopInteractionTarget,
    World,
};

fn arena() -> World {
    World::new(MapBounds { half_size: Point { x: 5000, y: 0, z: 5000 } })
}

fn point(x: i32, y: i32, z: i32) -> Point {
    Point { x, y, z }
}

fn shmoop_of(world: &World, id: usize) -> Shmoop {
    match world.entity(id).unwrap().kind {
        Kind::Shmoop(s) => s,
        _ => panic!("entity {} is no shmoop", id),
    }
}

fn walker(at: Point, to: Point, age: u64) -> Entity {
    let mut e = Entity::new_shmoop(at);
    if let Kind::Shmoop(mut s) = e.kind {
        s.destination = Some(ShmoopDestination { target: to });
        s.destination_time = Some(DestinationTime { time: age });
        e.kind = Kind::Shmoop(s);
    }
    e
}

fn seeker(at: Point, to: Point, target: usize, age: u64) -> Entity {
    let mut e = walker(at, to, age);
    if let Kind::Shmoop(mut s) = e.kind {
        s.interaction_target = Some(ShmoopInteractionTarget { entity: target });
        e.kind = Kind::Shmoop(s);
    }
    e
}

fn touching(a: usize, b: usize) -> Vec<Contact> {
    vec![Contact {
        collider1: a,
        collider2: b,
        point: Some(ContactPoint {
            local_point1: Point { x: 10, y: 20, z: 30 },
            local_point2: Point { x: -10, y: -20, z: -30 },
        }),
    }]
}

#[test]
fn goal_age_grows_with_every_frame() {
    let mut world = arena();
    let id = world.spawn(walker(point(0, 0, 0), point(4000, 0, 0), 0));
    let idle = world.spawn(Entity::new_shmoop(point(0, 0, 0)));
    world.destination_time_system(16);
    world.destination_time_system(17);
    assert_eq!(shmoop_of(&world, id).destination_time, Some(DestinationTime { time: 33 }));
    assert_eq!(shmoop_of(&world, idle).destination_time, None);
}

#[test]
fn goal_age_stops_at_the_largest_age() {
    let mut world = arena();
    let id = world.spawn(walker(point(0, 0, 0), point(4000, 0, 0), u64::MAX - 5));
    world.destination_time_system(16);
    assert_eq!(shmoop_of(&world, id).destination_time, Some(DestinationTime { time: u64::MAX }));
}

#[test]
fn a_goal_is_given_up_at_ten_seconds() {
    let mut world = arena();
    let young = world.spawn(walker(point(0, 0, 0), point(4000, 0, 0), 9_999));
    let old = world.spawn(walker(point(0, 0, 0), point(4000, 0, 0), 10_000));
    let log = world.spawn(Entity::new_tree(point(3000, 0, 0)));
    let after = world.spawn(seeker(point(0, 0, 0), point(3000, 0, 0), log, 25_000));
    world.destination_abandoning_system();
    assert!(shmoop_of(&world, young).destination.is_some());
    assert_eq!(shmoop_of(&world, young).destination_time, Some(DestinationTime { time: 9_999 }));
    let s = shmoop_of(&world, old);
    assert!(s.destination.is_none() && s.destination_time.is_none());
    let s = shmoop_of(&world, after);
    assert!(s.destination.is_none() && s.destination_time.is_none());
    assert!(s.interaction_target.is_none());
}

#[test]
fn an_unreachable_goal_is_given_up_after_ten_seconds_of_frames() {
    let mut world = arena();
    let log = world.spawn(Entity::new_tree(point(3000, 0, 0)));
    let id = world.spawn(seeker(point(0, 0, 0), point(3000, 0, 0), log, 0));
    let nowhere = Pointer { pressed: false, hit: None };
    for _ in 0..624 {
        world.frame_tick(nowhere, &vec![], 16);
    }
    assert_eq!(shmoop_of(&world, id).destination_time, Some(DestinationTime { time: 9_984 }));
    assert!(shmoop_of(&world, id).interaction_target.is_some());
    world.frame_tick(nowhere, &vec![], 16);
    let s = shmoop_of(&world, id);
    assert!(s.destination.is_none() && s.destination_time.is_none());
    assert!(s.interaction_target.is_none());
}

#[test]
fn a_shmoop_after_an_entity_never_arrives_by_distance() {
    let mut world = arena();
    let log = world.spawn(Entity::new_tree(point(100, 0, 0)));
    let id = world.spawn(seeker(point(0, 0, 0), point(100, 0, 0), log, 0));
    world.shmoop_moving_to_destination_system(20);
    let s = shmoop_of(&world, id);
    assert!(s.destination.is_some());
    assert!(s.interaction_target.is_some());
    assert_eq!(s.velocity, Velocity { x: 1000, y: 0, z: 0 });
}

#[test]
fn walking_leaves_the_vertical_speed_to_physics() {
    let mut world = arena();
    let id = world.spawn(walker(point(0, 500, 0), point(3000, 0, -4000), 0));
    assert!(world.set_velocity(id, Velocity { x: 1, y: -981, z: 2 }));
    world.shmoop_moving_to_destination_system(20);
    assert_eq!(shmoop_of(&world, id).velocity, Velocity { x: 600, y: -981, z: -800 });
}

#[test]
fn a_shmoop_straight_below_its_destination_stands_still() {
    let mut world = arena();
    let id = world.spawn(walker(point(0, 0, 0), point(0, 2000, 0), 0));
    assert!(world.set_velocity(id, Velocity { x: 9, y: 3, z: 9 }));
    world.shmoop_moving_to_destination_system(20);
    let s = shmoop_of(&world, id);
    assert!(s.destination.is_some());
    assert_eq!(s.velocity, Velocity { x: 0, y: 3, z: 0 });
}

#[test]
fn a_held_shmoop_does_not_walk() {
    let mut world = arena();
    let store = world.spawn(Entity::new_food_store(point(3000, 0, 0)));
    let id = world.spawn(Entity::new_shmoop(point(0, 0, 0)));
    world.select_system(Pointer { pressed: true, hit: Some(RayHit { entity: id, point: point(0, 0, 0) }) });
    for _ in 0..1250 {
        world.hunger_system(20);
    }
    let s = shmoop_of(&world, id);
    assert!(s.picked);
    assert_eq!(s.interaction_target, Some(ShmoopInteractionTarget { entity: store }));
    world.shmoop_moving_to_destination_system(20);
    assert_eq!(shmoop_of(&world, id).velocity, Velocity { x: 0, y: 0, z: 0 });
    world.pickup_interaction_system(&touching(id, store));
    assert_eq!(shmoop_of(&world, id).carrying, None);
}

#[test]
fn arrival_lets_go_of_what_is_carried() {
    let mut world = arena();
    let log = world.spawn(Entity::new_tree(point(100, 0, 0)));
    let id = world.spawn(seeker(point(0, 0, 0), point(100, 0, 0), log, 0));
    world.pickup_interaction_system(&touching(id, log));
    let carrying = shmoop_of(&world, id).carrying.unwrap();
    assert!(world.joint(carrying.joint_entity).unwrap().alive);
    assert_eq!(world.joint(carrying.joint_entity).unwrap().compliance, 500);

    let ground = world.spawn(Entity::new_ground(point(0, -100, 0)));
    world.select_system(Pointer { pressed: true, hit: Some(RayHit { entity: id, point: point(0, 0, 0) }) });
    world.select_system(Pointer {
        pressed: false,
        hit: Some(RayHit { entity: ground, point: point(200, 0, 0) }),
    });
    assert_eq!(shmoop_of(&world, id).carrying, Some(carrying));
    world.shmoop_moving_to_destination_system(20);
    let s = shmoop_of(&world, id);
    assert_eq!(s.carrying, None);
    assert_eq!(s.destination, None);
    assert_eq!(s.destination_time, None);
    assert_eq!(s.velocity, Velocity { x: 0, y: 0, z: 0 });
    let joint = world.joint(carrying.joint_entity).unwrap();
    assert!(!joint.alive);
    assert_eq!(joint.shmoop, id);
    assert_eq!(joint.target, log);
}

#[test]
fn picking_up_again_replaces_the_joint() {
    let mut world = arena();
    let log = world.spawn(Entity::new_tree(point(100, 0, 0)));
    let melon = world.spawn(Entity::new_food_store(point(-100, 0, 0)));
    let id = world.spawn(seeker(point(0, 0, 0), point(100, 0, 0), log, 0));
    world.pickup_interaction_system(&touching(id, log));
    let first = shmoop_of(&world, id).carrying.unwrap();
    world.select_system(Pointer { pressed: true, hit: Some(RayHit { entity: id, point: point(0, 0, 0) }) });
    world.select_system(Pointer {
        pressed: false,
        hit: Some(RayHit { entity: melon, point: point(-100, 0, 0) }),
    });
    world.pickup_interaction_system(&touching(melon, id));
    let second = shmoop_of(&world, id).carrying.unwrap();
    assert_eq!(second.entity, melon);
    assert!(second.joint_entity != first.joint_entity);
    assert!(!world.joint(first.joint_entity).unwrap().alive);
    let joint = world.joint(second.joint_entity).unwrap();
    assert!(joint.alive);
    assert_eq!(joint.local_anchor1, Point { x: -10, y: -20, z: -30 });
    assert_eq!(joint.local_anchor2, Point { x: 10, y: 20, z: 30 });
}

#[test]
fn only_carryable_interactables_are_picked_up() {
    let mut world = arena();
    let ground = world.spawn(Entity::new_ground(point(100, 0, 0)));
    let mut fixed = Entity::new_tree(point(100, 0, 0));
    fixed.can_be_carried = false;
    let fixed = world.spawn(fixed);
    let mut inert = Entity::new_tree(point(100, 0, 0));
    inert.interactable = false;
    let inert = world.spawn(inert);
    let other = world.spawn(Entity::new_shmoop(point(100, 0, 0)));
    let a = world.spawn(seeker(point(0, 0, 0), point(100, 0, 0), ground, 0));
    let b = world.spawn(seeker(point(0, 0, 0), point(100, 0, 0), fixed, 0));
    let c = world.spawn(seeker(point(0, 0, 0), point(100, 0, 0), inert, 0));
    let d = world.spawn(seeker(point(0, 0, 0), point(100, 0, 0), other, 0));
    let e = world.spawn(seeker(point(0, 0, 0), point(100, 0, 0), 99, 0));
    let mut contacts = touching(a, ground);
    contacts.extend(touching(b, fixed));
    contacts.extend(touching(c, inert));
    contacts.extend(touching(d, other));
    contacts.extend(touching(e, 99));
    world.pickup_interaction_system(&contacts);
    for id in [a, b, c, d, e] {
        let s = shmoop_of(&world, id);
        assert_eq!(s.carrying, None);
        assert!(s.interaction_target.is_some());
        assert!(s.destination.is_some());
    }
    assert_eq!(world.joint(0), None);
}

#[test]
fn the_first_reported_contact_of_a_pair_decides() {
    let mut world = arena();
    let log = world.spawn(Entity::new_tree(point(100, 0, 0)));
    let id = world.spawn(seeker(point(0, 0, 0), point(100, 0, 0), log, 0));
    let mut contacts = vec![Contact { collider1: log, collider2: id, point: None }];
    contacts.extend(touching(id, log));
    world.pickup_interaction_system(&contacts);
    assert_eq!(shmoop_of(&world, id).carrying, None);
}

#[test]
fn idle_shmoops_are_sent_wandering_inside_the_doubled_bounds() {
    let mut world = World::new(MapBounds { half_size: Point { x: 5000, y: 0, z: 3 } });
    let busy = world.spawn(walker(point(0, 0, 0), point(4000, 0, 0), 77));
    let mut ids = Vec::new();
    for _ in 0..200 {
        ids.push(world.spawn(Entity::new_shmoop(point(0, 500, 0))));
    }
    let tree = world.spawn(Entity::new_tree(point(0, 0, 0)));
    let before_tree = world.entity(tree);
    assert!(world.entity(0).is_some());
    world.shmoop_destination_selection_system();
    assert_eq!(world.entity(tree), before_tree);
    let s = shmoop_of(&world, busy);
    assert_eq!(s.destination, Some(ShmoopDestination { target: point(4000, 0, 0) }));
    assert_eq!(s.destination_time, Some(DestinationTime { time: 77 }));
    let mut xs = Vec::new();
    for id in ids {
        let s = shmoop_of(&world, id);
        let target = s.destination.unwrap().target;
        assert!(-10_000 <= target.x && target.x < 10_000, "x {}", target.x);
        assert_eq!(target.y, 0);
        assert!(-6 <= target.z && target.z < 6, "z {}", target.z);
        assert_eq!(s.destination_time, Some(DestinationTime { time: 0 }));
        assert_eq!(s.interaction_target, None);
        xs.push(target.x);
    }
    assert!(xs.iter().any(|x| *x != xs[0]));
    assert!(xs.iter().any(|x| *x != -10_000));
}

#[test]
fn wandering_is_refused_for_bounds_without_room() {
    assert!(MapBounds { half_size: Point { x: 5000, y: 0, z: 5000 } }.wander_ready());
    assert!(MapBounds { half_size: Point { x: 1, y: -7, z: 0x3fff_ffff } }.wander_ready());
    assert!(!MapBounds { half_size: Point { x: 0, y: 0, z: 5000 } }.wander_ready());
    assert!(!MapBounds { half_size: Point { x: 5000, y: 0, z: -1 } }.wander_ready());
    assert!(!MapBounds { half_size: Point { x: 0x4000_0000, y: 0, z: 5000 } }.wander_ready());
}

#[test]
fn assigning_a_wander_target_touches_idle_shmoops_only() {
    let mut world = arena();
    let idle = world.spawn(Entity::new_shmoop(point(0, 0, 0)));
    let busy = world.spawn(walker(point(0, 0, 0), point(4000, 0, 0), 5));
    let log = world.spawn(Entity::new_tree(point(0, 0, 0)));
    let before = (world.entity(busy), world.entity(log));
    world.assign_wander(idle, -123, 456);
    world.assign_wander(busy, -123, 456);
    world.assign_wander(log, -123, 456);
    world.assign_wander(1000, -123, 456);
    let s = shmoop_of(&world, idle);
    assert_eq!(s.destination, Some(ShmoopDestination { target: point(-123, 0, 456) }));
    assert_eq!(s.destination_time, Some(DestinationTime { time: 0 }));
    assert_eq!((world.entity(busy), world.entity(log)), before);
}

#[test]
fn a_walking_shmoop_never_recedes_from_its_destination() {
    let mut world = arena();
    let to = point(-3100, 0, 1800);
    let id = world.spawn(walker(point(4400, 0, -3400), to, 0));
    let mut last = i64::MAX;
    let mut arrived = false;
    for _ in 0..2000 {
        world.shmoop_moving_to_destination_system(16);
        let e = world.entity(id).unwrap();
        let s = shmoop_of(&world, id);
        let p = Point {
            x: (e.position.x as i64 + s.velocity.x * 16 / 1000) as i32,
            y: e.position.y,
            z: (e.position.z as i64 + s.velocity.z * 16 / 1000) as i32,
        };
        world.set_position(id, p);
        let dx = (to.x - p.x) as i64;
        let dz = (to.z - p.z) as i64;
        let now = dx * dx + dz * dz;
        assert!(now <= last);
        last = now;
        if s.destination.is_none() {
            arrived = true;
            assert_eq!(s.velocity, Velocity { x: 0, y: 0, z: 0 });
            assert!(now <= 500 * 500);
            break;
        }
    }
    assert!(arrived);
}

#[test]
fn walking_speed_is_the_moving_speed_however_short_the_level_offset() {
    let mut world = arena();
    let id = world.spawn(walker(point(0, 0, 0), point(1, 600, 1), 0));
    assert!(world.set_velocity(id, Velocity { x: 0, y: -40, z: 0 }));
    world.shmoop_moving_to_destination_system(20);
    let v = shmoop_of(&world, id).velocity;
    assert_eq!(v, Velocity { x: 707, y: -40, z: 707 });
    assert!(v.x * v.x + v.z * v.z <= 1000 * 1000);
    assert!(v.x * v.x + v.z * v.z >= 998 * 998);
}
