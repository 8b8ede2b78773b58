use std::collections::VecDeque;

use game_plugin::behaviour::{Task, TravelToPosition, TravelToTarget, Walker};
use game_plugin::hexagon::Rectangle;
use game_plugin::physics::{Mobile, PhysicalObject, Point, Speed, COORD_LIMIT};
use game_plugin::tree_cutting::{ResourceCarrier, ResourceStorage, TaskQue};
use game_plugin::world::{Agent, EntityId, Travel, World};
use game_plugin::world_gen::SimParams;

fn params() -> SimParams {
    SimParams {
        start_pos: Point { x: 1, y: 2 },
        world_rect: Rectangle { position: Point { x: 0, y: 0 }, size: Point { x: 10, y: 10 } },
    }
}

fn thing(x: i64, y: i64) -> Agent {
    Agent {
        creature: None,
        tree: None,
        physical_object: PhysicalObject { position: Point { x, y } },
        mobile: Mobile(Speed(0)),
        walker: Walker { acceleration: 0, max_speed: 0 },
        travel: None,
        task_que: Some(TaskQue(VecDeque::from(vec![Task::DropOffResources]))),
        carrier: None,
    }
}

#[test]
fn a_new_world_is_empty() {
    let world = World::new(params());
    assert_eq!(world.sim_params, params());
    assert!(world.agents.is_empty());
    assert_eq!(world.stockpile, None);
    assert_eq!(world.storage, ResourceStorage { wood: 0 });
    assert!(world.changed.is_empty());
    assert!(world.task_events.is_empty());
}

#[test]
fn spawn_gives_handles_in_order() {
    let mut world = World::new(params());
    assert_eq!(world.spawn(thing(1, 1)), EntityId(0));
    assert_eq!(world.spawn(thing(2, 2)), EntityId(1));
    assert_eq!(world.spawn(thing(3, 3)), EntityId(2));
    assert_eq!(world.position_of(EntityId(1)), Some(Point { x: 2, y: 2 }));
    assert!(world.contains(EntityId(2)));
    assert!(!world.contains(EntityId(3)));
    assert_eq!(world.position_of(EntityId(3)), None);
    assert_eq!(world.position_of(EntityId(usize::MAX)), None);
}

#[test]
fn despawn_empties_the_slot_and_the_handle_is_not_given_again() {
    let mut world = World::new(params());
    let a = world.spawn(thing(1, 1));
    let b = world.spawn(thing(2, 2));
    world.despawn(a);
    assert!(!world.contains(a));
    assert!(world.contains(b));
    assert_eq!(world.position_of(a), None);
    assert_eq!(world.agents.len(), 2);
    let c = world.spawn(thing(3, 3));
    assert_eq!(c, EntityId(2));
    assert!(!world.contains(a));
    world.despawn(a);
    world.despawn(EntityId(50));
    assert_eq!(world.agents.len(), 3);
    assert!(world.contains(b) && world.contains(c));
}

#[test]
fn a_world_is_sound_while_its_entities_are() {
    let mut world = World::new(params());
    assert!(world.is_wf());
    let a = world.spawn(thing(1, 1));
    let _b = world.spawn(thing(2, 2));
    assert!(world.is_wf());
    world.agents[a.0].as_mut().unwrap().physical_object.position =
        Point { x: COORD_LIMIT + 1, y: 0 };
    assert!(!world.is_wf());
    world.agents[a.0] = None;
    assert!(world.is_wf());
    world.sim_params.world_rect.size = Point { x: 0, y: 10 };
    assert!(!world.is_wf());
}

#[test]
fn an_entity_is_sound_with_a_load_that_fits_and_an_order_in_bounds() {
    let mut agent = thing(0, 0);
    assert!(agent.is_wf());
    agent.carrier = Some(ResourceCarrier { wood: 3, max_wood: 3 });
    assert!(agent.is_wf());
    agent.carrier = Some(ResourceCarrier { wood: 4, max_wood: 3 });
    assert!(!agent.is_wf());
    agent.carrier = None;
    agent.travel = Some(Travel::ToPosition(TravelToPosition {
        position: Point { x: 0, y: -COORD_LIMIT - 1 },
    }));
    assert!(!agent.is_wf());
    agent.travel = Some(Travel::ToPosition(TravelToPosition {
        position: Point { x: 0, y: -COORD_LIMIT },
    }));
    assert!(agent.is_wf());
}

#[test]
fn an_order_to_follow_is_sound_once_it_has_seen_its_target_or_looks_at_once() {
    let unseen_at_zero = TravelToTarget {
        time_to_next_location_check: 0,
        target_id: EntityId(1),
        last_target_position: None,
    };
    assert!(unseen_at_zero.is_wf());
    assert!(Travel::ToTarget(unseen_at_zero).is_wf());
    let unseen_and_waiting = TravelToTarget {
        time_to_next_location_check: 5,
        target_id: EntityId(1),
        last_target_position: None,
    };
    assert!(!unseen_and_waiting.is_wf());
    let seen = TravelToTarget {
        time_to_next_location_check: 5,
        target_id: EntityId(1),
        last_target_position: Some(Point { x: 1, y: 1 }),
    };
    assert!(seen.is_wf());
    let seen_too_far = TravelToTarget {
        time_to_next_location_check: 0,
        target_id: EntityId(1),
        last_target_position: Some(Point { x: i64::MAX, y: 1 }),
    };
    assert!(!seen_too_far.is_wf());
    assert!(!Travel::ToTarget(seen_too_far).is_wf());
}

#[test]
fn a_point_is_in_bounds_up_to_the_limit() {
    assert!(Point { x: COORD_LIMIT, y: -COORD_LIMIT }.is_in_bounds());
    assert!(!Point { x: COORD_LIMIT + 1, y: 0 }.is_in_bounds());
    assert!(!Point { x: 0, y: i64::MIN }.is_in_bounds());
}

#[test]
fn a_carrier_is_sound_with_a_load_that_fits() {
    assert!(ResourceCarrier { wood: 0, max_wood: 0 }.is_wf());
    assert!(ResourceCarrier { wood: 2, max_wood: 3 }.is_wf());
    assert!(!ResourceCarrier { wood: 4, max_wood: 3 }.is_wf());
}
