use save_them_fools::geometry::Point;
use save_them_fools::hunger::decayed;
use save_them_fools::interaction::{find_touch, Contact, ContactPoint};
use save_them_fools::store::{
    Carrying, DestinationTime, Entity, Hunger, Kind, MapBounds, Shmoop, ShmoopDestination,
    ShmoopInteractionTarget, World,
};

fn arena() -> World {
    World::new(MapBounds { half_size: Point { x: 5000, y: 0, z: 5000 } })
}

fn point(x: i32, y: i32, z: i32) -> Point {
    Point { x, y, z }
}

fn shmoop_of(world: &World, id: usize) -> Shmoop {
    match world.entity(id).unwrap().kind {
        Kind::Shmoop(s) => s,
        _ => panic!("entity {} is no shmoop", id),
    }
}

fn hungry(at: Point, percentage: u32) -> Entity {
    let mut e = Entity::new_shmoop(at);
    if let Kind::Shmoop(mut s) = e.kind {
        s.hunger = Hunger { percentage };
        e.kind = Kind::Shmoop(s);
    }
    e
}

fn seeker(at: Point, to: Point, target: usize, percentage: u32) -> Entity {
    let mut e = hungry(at, percentage);
    if let Kind::Shmoop(mut s) = e.kind {
        s.destination = Some(ShmoopDestination { target: to });
        s.destination_time = Some(DestinationTime { time: 4321 });
        s.interaction_target = Some(ShmoopInteractionTarget { entity: target });
        e.kind = Kind::Shmoop(s);
    }
    e
}

fn feeder(at: Point) -> Entity {
    let mut e = Entity::new_food_store(at);
    e.can_be_carried = false;
    e
}

fn touching(a: usize, b: usize) -> Vec<Contact> {
    vec![Contact {
        collider1: a,
        collider2: b,
        point: Some(ContactPoint {
            local_point1: Point { x: 10, y: 20, z: 30 },
            local_point2: Point { x: -10, y: -20, z: -30 },
        }),
    }]
}

#[test]
fn hunger_drains_four_percent_a_second() {
    assert_eq!(decayed(100_000, false, 1000), 96_000);
    assert_eq!(decayed(100_000, false, 20), 99_920);
    assert_eq!(decayed(100_000, false, 0), 100_000);
    assert_eq!(decayed(100_000, false, 25_000), 0);
    assert_eq!(decayed(100_000, false, 24_999), 4);
}

#[test]
fn carrying_drains_hunger_seven_times_faster() {
    assert_eq!(decayed(100_000, true, 1000), 72_000);
    assert_eq!(decayed(100_000, true, 20), 99_440);
    assert_eq!(decayed(560, true, 20), 0);
    assert_eq!(decayed(561, true, 20), 1);
}

#[test]
fn hunger_stops_at_zero() {
    assert_eq!(decayed(3, false, 1), 0);
    assert_eq!(decayed(0, false, 1000), 0);
    assert_eq!(decayed(100_000, true, u32::MAX), 0);
    assert_eq!(decayed(u32::MAX, false, u32::MAX), 0);
}

#[test]
fn the_hunger_pass_drains_every_live_shmoop() {
    let mut world = arena();
    let free = world.spawn(Entity::new_shmoop(point(0, 0, 0)));
    let log = world.spawn(Entity::new_tree(point(100, 0, 0)));
    let loaded = world.spawn(seeker(point(0, 0, 0), point(100, 0, 0), log, 100_000));
    let fallen = world.spawn(Entity::new_shmoop(point(0, -60_000, 0)));
    world.pickup_interaction_system(&touching(loaded, log));
    world.despawn_system();
    world.hunger_system(50);
    assert_eq!(shmoop_of(&world, free).hunger, Hunger { percentage: 99_800 });
    assert_eq!(shmoop_of(&world, loaded).hunger, Hunger { percentage: 98_600 });
    assert_eq!(shmoop_of(&world, fallen).hunger, Hunger { percentage: 100_000 });
    assert_eq!(world.entity(log).unwrap(), Entity::new_tree(point(100, 0, 0)));
}

#[test]
fn a_starving_shmoop_drops_its_goal_for_the_food_store() {
    let mut world = arena();
    let log = world.spawn(Entity::new_tree(point(100, 0, 0)));
    let id = world.spawn(seeker(point(0, 0, 0), point(100, 0, 0), log, 40));
    let store = world.spawn(Entity::new_food_store(point(-3000, 400, 1200)));
    world.hunger_system(10);
    let s = shmoop_of(&world, id);
    assert_eq!(s.hunger, Hunger { percentage: 0 });
    assert_eq!(s.interaction_target, Some(ShmoopInteractionTarget { entity: store }));
    assert_eq!(s.destination, Some(ShmoopDestination { target: point(-3000, 400, 1200) }));
    assert_eq!(s.destination_time, Some(DestinationTime { time: 0 }));
    world.destination_time_system(16);
    world.hunger_system(10);
    assert_eq!(shmoop_of(&world, id).destination_time, Some(DestinationTime { time: 0 }));
}

#[test]
fn starving_without_a_food_store_changes_no_goal() {
    let mut world = arena();
    let log = world.spawn(Entity::new_tree(point(100, 0, 0)));
    let id = world.spawn(seeker(point(0, 0, 0), point(100, 0, 0), log, 40));
    assert_eq!(world.find_sole_food_store(), None);
    world.hunger_system(10);
    let s = shmoop_of(&world, id);
    assert_eq!(s.hunger, Hunger { percentage: 0 });
    assert_eq!(s.interaction_target, Some(ShmoopInteractionTarget { entity: log }));
    assert_eq!(s.destination_time, Some(DestinationTime { time: 4321 }));
}

#[test]
fn starving_with_two_food_stores_changes_no_goal() {
    let mut world = arena();
    let id = world.spawn(hungry(point(0, 0, 0), 0));
    let first = world.spawn(Entity::new_food_store(point(1000, 0, 0)));
    assert_eq!(world.find_sole_food_store(), Some(first));
    world.spawn(Entity::new_food_store(point(2000, 0, 0)));
    assert_eq!(world.find_sole_food_store(), None);
    world.hunger_system(10);
    let s = shmoop_of(&world, id);
    assert_eq!(s.interaction_target, None);
    assert_eq!(s.destination, None);
}

#[test]
fn a_food_store_that_is_gone_or_inert_does_not_count() {
    let mut world = arena();
    let mut inert = Entity::new_food_store(point(1000, 0, 0));
    inert.interactable = false;
    world.spawn(inert);
    world.spawn(Entity::new_food_store(point(1000, -70_000, 0)));
    world.spawn(Entity::new_tree(point(1000, 0, 0)));
    let real = world.spawn(Entity::new_food_store(point(3000, 0, 0)));
    world.despawn_system();
    assert_eq!(world.find_sole_food_store(), Some(real));
}

#[test]
fn feeding_fills_up_and_clears_the_goal() {
    let mut world = arena();
    let store = world.spawn(feeder(point(100, 0, 0)));
    let id = world.spawn(seeker(point(0, 0, 0), point(100, 0, 0), store, 17));
    let other = world.spawn(seeker(point(0, 0, 0), point(100, 0, 0), store, 23));
    world.food_store_interaction_system(&touching(store, id));
    let s = shmoop_of(&world, id);
    assert_eq!(s.hunger, Hunger { percentage: 100_000 });
    assert_eq!(s.interaction_target, None);
    assert_eq!(s.destination, None);
    assert_eq!(s.destination_time, None);
    assert_eq!(s.carrying, None);
    assert_eq!(world.joint(0), None);
    let s = shmoop_of(&world, other);
    assert_eq!(s.hunger, Hunger { percentage: 23 });
    assert_eq!(s.interaction_target, Some(ShmoopInteractionTarget { entity: store }));
}

#[test]
fn feeding_needs_a_contact_point_and_a_food_store() {
    let mut world = arena();
    let store = world.spawn(feeder(point(100, 0, 0)));
    let log = world.spawn(Entity::new_tree(point(100, 0, 0)));
    let a = world.spawn(seeker(point(0, 0, 0), point(100, 0, 0), store, 17));
    let b = world.spawn(seeker(point(0, 0, 0), point(100, 0, 0), log, 17));
    let mut contacts = vec![Contact { collider1: a, collider2: store, point: None }];
    contacts.extend(touching(b, log));
    world.food_store_interaction_system(&contacts);
    for id in [a, b] {
        let s = shmoop_of(&world, id);
        assert_eq!(s.hunger, Hunger { percentage: 17 });
        assert!(s.interaction_target.is_some());
        assert_eq!(s.destination_time, Some(DestinationTime { time: 4321 }));
    }
}

#[test]
fn a_carryable_food_store_is_picked_up_before_it_is_fed_on() {
    let mut world = arena();
    let melon = world.spawn(Entity::new_food_store(point(100, 0, 0)));
    let id = world.spawn(seeker(point(0, 0, 0), point(100, 0, 0), melon, 50_000));
    let nowhere = save_them_fools::pointer::Pointer { pressed: false, hit: None };
    world.frame_tick(nowhere, &touching(id, melon), 16);
    let s = shmoop_of(&world, id);
    assert_eq!(s.carrying, Some(Carrying { entity: melon, joint_entity: 0 }));
    assert_eq!(s.hunger, Hunger { percentage: 50_000 });
    assert_eq!(s.interaction_target, None);
}

#[test]
fn contacts_are_found_in_either_order() {
    let contacts = vec![
        Contact { collider1: 1, collider2: 2, point: None },
        Contact {
            collider1: 3,
            collider2: 4,
            point: Some(ContactPoint { local_point1: point(1, 1, 1), local_point2: point(2, 2, 2) }),
        },
    ];
    assert_eq!(find_touch(&contacts, 1, 2), None);
    assert_eq!(find_touch(&contacts, 3, 4), Some(contacts[1]));
    assert_eq!(find_touch(&contacts, 4, 3), Some(contacts[1]));
    assert_eq!(find_touch(&contacts, 3, 2), None);
    assert_eq!(find_touch(&vec![], 3, 4), None);
    assert!(contacts[0].joins(2, 1));
    assert!(!contacts[0].joins(2, 2));
}
