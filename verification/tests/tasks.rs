use std::collections::VecDeque;

use game_plugin::behaviour::{
    CheckTaskEvent, Task, TravelToPosition, TravelToTarget, Walker,
};
use game_plugin::buildings::{spawn_house, spawn_stockpile};
use game_plugin::creatures::{Creature, CreatureActivity};
use game_plugin::hexagon::Rectangle;
use game_plugin::physics::{Mobile, PhysicalObject, Point, Speed, STEPS_PER_UNIT};
use game_plugin::plants::{spawn_tree, Tree};
use game_plugin::residence::{spawn_villager, VILLAGER_ACCELERATION, VILLAGER_MAX_SPEED};
use game_plugin::simulation_step;
use game_plugin::tree_cutting::{
    accomplish_task, assign_intent, check_task, check_tasks, creatures_to_check,
    is_located_near, try_accomplish_task, ResourceCarrier, TaskQue, NEAR_DISTANCE,
};
use game_plugin::village::{LivingSpace, LivingSpaceAvailableEvent};
use game_plugin::world::{Agent, EntityId, Travel, World};
use game_plugin::world_gen::{
    cut_tree, first_tree, gen_in_rect, CreatureAvailableForTasks, SimParams, WOOD_PER_TREE,
};

const UNIT: i64 = STEPS_PER_UNIT as i64;

fn at(x: i64, y: i64) -> Point {
    Point { x, y }
}

fn rect() -> Rectangle {
    Rectangle { position: at(100 * UNIT, -50 * UNIT), size: at(800 * UNIT, 700 * UNIT) }
}

fn new_world() -> World {
    World::new(SimParams { start_pos: at(0, 0), world_rect: rect() })
}

fn in_rect(point: Point) -> bool {
    -300 * UNIT <= point.x
        && point.x < 500 * UNIT
        && -400 * UNIT <= point.y
        && point.y < 300 * UNIT
}

fn worker(position: Point, tasks: Vec<Task>, carrier: Option<ResourceCarrier>) -> Agent {
    Agent {
        creature: Some(Creature { name: "Ada", activity: CreatureActivity::Standing }),
        tree: None,
        physical_object: PhysicalObject { position },
        mobile: Mobile(Speed(0)),
        walker: Walker { acceleration: 15, max_speed: 3 * STEPS_PER_UNIT },
        travel: None,
        task_que: Some(TaskQue(VecDeque::from(tasks))),
        carrier,
    }
}

fn tasks_of(world: &World, id: EntityId) -> Vec<Task> {
    let agent = world.agents[id.0].as_ref().unwrap();
    agent.task_que.as_ref().unwrap().0.iter().copied().collect()
}

fn travel_of(world: &World, id: EntityId) -> Option<Travel> {
    world.agents[id.0].as_ref().unwrap().travel
}

fn carrier_of(world: &World, id: EntityId) -> Option<ResourceCarrier> {
    world.agents[id.0].as_ref().unwrap().carrier
}

fn following(target: EntityId) -> Option<Travel> {
    Some(Travel::ToTarget(TravelToTarget {
        time_to_next_location_check: 0,
        target_id: target,
        last_target_position: None,
    }))
}

#[test]
fn near_distance_is_four_units() {
    assert_eq!(NEAR_DISTANCE, 4_000_000);
}

#[test]
fn is_located_near_is_strict() {
    let mut world = new_world();
    let a = world.spawn(worker(at(0, 0), vec![], None));
    let b = world.spawn(worker(at(3, 4), vec![], None));
    assert!(!is_located_near(&world, &a, &b, 5));
    assert!(is_located_near(&world, &a, &b, 6));
    assert!(!is_located_near(&world, &a, &b, 0));
    assert!(!is_located_near(&world, &a, &a, 0));
    assert!(is_located_near(&world, &a, &a, 1));
    assert!(is_located_near(&world, &b, &a, u64::MAX));
}

#[test]
fn is_located_near_at_four_units() {
    let mut world = new_world();
    let a = world.spawn(worker(at(0, 0), vec![], None));
    let just_inside = world.spawn(worker(at(4 * UNIT - 1, 0), vec![], None));
    let on_the_edge = world.spawn(worker(at(0, -4 * UNIT), vec![], None));
    assert!(is_located_near(&world, &a, &just_inside, NEAR_DISTANCE));
    assert!(!is_located_near(&world, &a, &on_the_edge, NEAR_DISTANCE));
}

#[test]
fn cutting_a_tree_that_is_gone_is_done() {
    let mut world = new_world();
    let tree = spawn_tree(&mut world, at(0, 0));
    let id = world.spawn(worker(at(0, 0), vec![], None));
    world.despawn(tree);
    assert!(accomplish_task(&mut world, &id, &Task::CutTree(tree), at(0, 0)));
    assert!(accomplish_task(&mut world, &id, &Task::CutTree(EntityId(99)), at(0, 0)));
    assert_eq!(travel_of(&world, id), None);
    assert_eq!(world.agents.len(), 2);
}

#[test]
fn cutting_a_tree_within_reach_removes_it() {
    let mut world = new_world();
    let tree = spawn_tree(&mut world, at(UNIT, UNIT));
    let id = world.spawn(worker(at(0, 0), vec![], None));
    assert!(world.contains(tree));
    assert!(accomplish_task(&mut world, &id, &Task::CutTree(tree), at(0, 0)));
    assert!(!world.contains(tree));
    assert!(world.contains(id));
    assert_eq!(travel_of(&world, id), None);
    assert_eq!(world.position_of(tree), None);
}

#[test]
fn cutting_a_tree_out_of_reach_sends_the_worker_after_it() {
    let mut world = new_world();
    let tree = spawn_tree(&mut world, at(4 * UNIT, 0));
    let id = world.spawn(worker(at(0, 0), vec![], None));
    assert!(!accomplish_task(&mut world, &id, &Task::CutTree(tree), at(0, 0)));
    assert!(world.contains(tree));
    assert_eq!(travel_of(&world, id), following(tree));
}

#[test]
fn cutting_replaces_an_older_order() {
    let mut world = new_world();
    let tree = spawn_tree(&mut world, at(40 * UNIT, 0));
    let mut agent = worker(at(0, 0), vec![], None);
    agent.travel = Some(Travel::ToPosition(TravelToPosition { position: at(1, 1) }));
    let id = world.spawn(agent);
    assert!(!accomplish_task(&mut world, &id, &Task::CutTree(tree), at(0, 0)));
    assert_eq!(travel_of(&world, id), following(tree));
}

#[test]
fn picking_up_is_done_at_once_and_keeps_to_the_capacity() {
    let mut world = new_world();
    let id = world.spawn(worker(at(0, 0), vec![], Some(ResourceCarrier { wood: 3, max_wood: 5 })));
    assert!(accomplish_task(&mut world, &id, &Task::PickUpWood(1), at(0, 0)));
    assert_eq!(carrier_of(&world, id), Some(ResourceCarrier { wood: 4, max_wood: 5 }));
    assert!(accomplish_task(&mut world, &id, &Task::PickUpWood(5), at(0, 0)));
    assert_eq!(carrier_of(&world, id), Some(ResourceCarrier { wood: 5, max_wood: 5 }));
    assert!(accomplish_task(&mut world, &id, &Task::PickUpWood(u64::MAX), at(0, 0)));
    assert_eq!(carrier_of(&world, id), Some(ResourceCarrier { wood: 5, max_wood: 5 }));
    assert_eq!(travel_of(&world, id), None);
}

#[test]
fn dropping_off_within_reach_stores_the_load() {
    let mut world = new_world();
    let stockpile = spawn_stockpile(&mut world, at(0, 0));
    let id = world.spawn(worker(
        at(3 * UNIT, 2 * UNIT),
        vec![],
        Some(ResourceCarrier { wood: 4, max_wood: 5 }),
    ));
    assert!(accomplish_task(&mut world, &id, &Task::DropOffResources, at(0, 0)));
    assert_eq!(world.storage.wood, 4);
    assert_eq!(carrier_of(&world, id), Some(ResourceCarrier { wood: 0, max_wood: 5 }));
    assert_eq!(travel_of(&world, id), None);
    assert_eq!(world.stockpile, Some(stockpile));
}

#[test]
fn dropping_off_out_of_reach_sends_the_worker_and_keeps_the_load() {
    let mut world = new_world();
    let stockpile = spawn_stockpile(&mut world, at(0, 0));
    let id = world.spawn(worker(
        at(3 * UNIT, 3 * UNIT),
        vec![],
        Some(ResourceCarrier { wood: 4, max_wood: 5 }),
    ));
    assert!(!accomplish_task(&mut world, &id, &Task::DropOffResources, at(0, 0)));
    assert_eq!(world.storage.wood, 0);
    assert_eq!(carrier_of(&world, id), Some(ResourceCarrier { wood: 4, max_wood: 5 }));
    assert_eq!(travel_of(&world, id), following(stockpile));
}

#[test]
fn dropping_off_without_a_stockpile_does_nothing() {
    let mut world = new_world();
    let id = world.spawn(worker(at(0, 0), vec![], Some(ResourceCarrier { wood: 4, max_wood: 5 })));
    assert!(!accomplish_task(&mut world, &id, &Task::DropOffResources, at(0, 0)));
    assert_eq!(world.storage.wood, 0);
    assert_eq!(carrier_of(&world, id), Some(ResourceCarrier { wood: 4, max_wood: 5 }));
    assert_eq!(travel_of(&world, id), None);
}

#[test]
fn dropping_off_at_a_stockpile_that_is_gone_does_nothing() {
    let mut world = new_world();
    let stockpile = spawn_stockpile(&mut world, at(0, 0));
    let id = world.spawn(worker(at(0, 0), vec![], Some(ResourceCarrier { wood: 4, max_wood: 5 })));
    world.despawn(stockpile);
    assert!(!accomplish_task(&mut world, &id, &Task::DropOffResources, at(0, 0)));
    assert_eq!(world.storage.wood, 0);
    assert_eq!(carrier_of(&world, id), Some(ResourceCarrier { wood: 4, max_wood: 5 }));
    assert_eq!(travel_of(&world, id), None);
}

#[test]
fn dropping_off_without_a_carrier_is_done_within_reach() {
    let mut world = new_world();
    let _stockpile = spawn_stockpile(&mut world, at(0, 0));
    let id = world.spawn(worker(at(0, 0), vec![], None));
    assert!(accomplish_task(&mut world, &id, &Task::DropOffResources, at(0, 0)));
    assert_eq!(world.storage.wood, 0);
}

#[test]
fn wandering_sends_the_worker_to_the_point_and_is_never_done() {
    let mut world = new_world();
    let id = world.spawn(worker(at(0, 0), vec![], None));
    assert!(!accomplish_task(&mut world, &id, &Task::WanderAimlessly, at(17, -4)));
    assert_eq!(
        travel_of(&world, id),
        Some(Travel::ToPosition(TravelToPosition { position: at(17, -4) }))
    );
    assert!(!accomplish_task(&mut world, &id, &Task::WanderAimlessly, at(0, 0)));
    assert_eq!(
        travel_of(&world, id),
        Some(Travel::ToPosition(TravelToPosition { position: at(0, 0) }))
    );
}

#[test]
fn try_accomplish_task_wanders_to_random_points_of_the_world() {
    let mut world = new_world();
    let id = world.spawn(worker(at(0, 0), vec![], None));
    let mut seen: Vec<Point> = Vec::new();
    for _ in 0..200 {
        assert!(!try_accomplish_task(&mut world, &id, &Task::WanderAimlessly));
        match travel_of(&world, id) {
            Some(Travel::ToPosition(order)) => {
                assert!(in_rect(order.position));
                if !seen.contains(&order.position) {
                    seen.push(order.position);
                }
            }
            other => panic!("no order to walk to a point: {:?}", other),
        }
    }
    assert!(seen.len() > 100);
    assert!(seen.iter().any(|point| point.x != -300 * UNIT));
    assert!(seen.iter().any(|point| point.y != -400 * UNIT));
}

#[test]
fn try_accomplish_task_does_the_other_tasks_as_accomplish_task_does() {
    let mut world = new_world();
    let tree = spawn_tree(&mut world, at(0, UNIT));
    let _stockpile = spawn_stockpile(&mut world, at(0, 0));
    let id = world.spawn(worker(at(0, 0), vec![], Some(ResourceCarrier { wood: 0, max_wood: 9 })));
    assert!(try_accomplish_task(&mut world, &id, &Task::CutTree(tree)));
    assert!(!world.contains(tree));
    assert!(try_accomplish_task(&mut world, &id, &Task::PickUpWood(4)));
    assert_eq!(carrier_of(&world, id), Some(ResourceCarrier { wood: 4, max_wood: 9 }));
    assert!(try_accomplish_task(&mut world, &id, &Task::DropOffResources));
    assert_eq!(world.storage.wood, 4);
    assert_eq!(travel_of(&world, id), None);
}

#[test]
fn gen_in_rect_stays_in_the_rectangle_and_varies() {
    let mut rng = rand::thread_rng();
    let mut xs: Vec<i64> = Vec::new();
    let mut ys: Vec<i64> = Vec::new();
    for _ in 0..300 {
        let point = gen_in_rect(&mut rng, &rect());
        assert!(in_rect(point));
        xs.push(point.x);
        ys.push(point.y);
    }
    xs.sort();
    xs.dedup();
    ys.sort();
    ys.dedup();
    assert!(xs.len() > 250);
    assert!(ys.len() > 250);
}

#[test]
fn gen_in_rect_of_the_smallest_rectangle() {
    let mut rng = rand::thread_rng();
    let smallest = Rectangle { position: at(10, 20), size: at(2, 3) };
    let mut low = false;
    let mut high = false;
    for _ in 0..200 {
        let point = gen_in_rect(&mut rng, &smallest);
        assert!(point.x == 9 || point.x == 10);
        assert!(point.y == 19 || point.y == 20);
        low = low || point.x == 9;
        high = high || point.x == 10;
    }
    assert!(low && high);
}

#[test]
fn check_task_pops_a_task_that_is_done() {
    let mut world = new_world();
    let id = world.spawn(worker(
        at(0, 0),
        vec![Task::PickUpWood(2), Task::PickUpWood(1)],
        Some(ResourceCarrier { wood: 0, max_wood: 9 }),
    ));
    assert!(check_task(&mut world, id));
    assert_eq!(tasks_of(&world, id), vec![Task::PickUpWood(1)]);
    assert_eq!(carrier_of(&world, id), Some(ResourceCarrier { wood: 2, max_wood: 9 }));
    assert!(check_task(&mut world, id));
    assert_eq!(tasks_of(&world, id), vec![]);
    assert!(!check_task(&mut world, id));
    assert_eq!(carrier_of(&world, id), Some(ResourceCarrier { wood: 3, max_wood: 9 }));
}

#[test]
fn check_task_keeps_a_task_that_is_not_done() {
    let mut world = new_world();
    let tree = spawn_tree(&mut world, at(50 * UNIT, 0));
    let id = world.spawn(worker(at(0, 0), vec![Task::CutTree(tree), Task::PickUpWood(1)], None));
    assert!(!check_task(&mut world, id));
    assert_eq!(tasks_of(&world, id), vec![Task::CutTree(tree), Task::PickUpWood(1)]);
    assert_eq!(travel_of(&world, id), following(tree));
}

#[test]
fn check_task_of_nobody_does_nothing() {
    let mut world = new_world();
    let tree = spawn_tree(&mut world, at(0, 0));
    assert!(!check_task(&mut world, EntityId(5)));
    assert!(!check_task(&mut world, tree));
    world.despawn(tree);
    assert!(!check_task(&mut world, tree));
    assert_eq!(world.agents.len(), 1);
}

#[test]
fn check_task_of_one_who_cuts_itself_down() {
    let mut world = new_world();
    let id = world.spawn(worker(at(0, 0), vec![Task::CutTree(EntityId(0)), Task::PickUpWood(1)], None));
    assert_eq!(id, EntityId(0));
    assert!(check_task(&mut world, id));
    assert!(!world.contains(id));
    assert!(!check_task(&mut world, id));
}

#[test]
fn creatures_to_check_lists_each_once_changed_first() {
    let mut world = new_world();
    world.changed = vec![EntityId(4), EntityId(2), EntityId(4)];
    world.task_events = vec![
        CheckTaskEvent(EntityId(2)),
        CheckTaskEvent(EntityId(7)),
        CheckTaskEvent(EntityId(4)),
        CheckTaskEvent(EntityId(7)),
        CheckTaskEvent(EntityId(0)),
    ];
    let ids: Vec<EntityId> = creatures_to_check(&world).into_iter().collect();
    assert_eq!(ids, vec![EntityId(4), EntityId(2), EntityId(7), EntityId(0)]);
    assert_eq!(world.changed.len(), 3);
    assert_eq!(world.task_events.len(), 5);
}

#[test]
fn creatures_to_check_of_a_quiet_world_is_empty() {
    let world = new_world();
    assert!(creatures_to_check(&world).is_empty());
}

#[test]
fn check_tasks_goes_on_to_the_next_task_in_the_same_pass() {
    let mut world = new_world();
    let tree = spawn_tree(&mut world, at(0, 0));
    let _stockpile = spawn_stockpile(&mut world, at(2 * UNIT, 0));
    let id = world.spawn(worker(
        at(UNIT, 0),
        vec![Task::CutTree(tree), Task::PickUpWood(5), Task::DropOffResources],
        Some(ResourceCarrier { wood: 0, max_wood: 8 }),
    ));
    world.despawn(tree);
    world.changed.push(id);
    check_tasks(&mut world);
    assert_eq!(tasks_of(&world, id), vec![]);
    assert_eq!(world.storage.wood, 5);
    assert_eq!(carrier_of(&world, id), Some(ResourceCarrier { wood: 0, max_wood: 8 }));
    assert_eq!(travel_of(&world, id), None);
    assert!(world.changed.is_empty());
    assert!(world.task_events.is_empty());
}

#[test]
fn check_tasks_with_the_stockpile_out_of_reach_stops_at_dropping_off() {
    let mut world = new_world();
    let tree = spawn_tree(&mut world, at(0, 0));
    let stockpile = spawn_stockpile(&mut world, at(20 * UNIT, 0));
    let id = world.spawn(worker(
        at(UNIT, 0),
        vec![Task::CutTree(tree), Task::PickUpWood(5), Task::DropOffResources],
        Some(ResourceCarrier { wood: 0, max_wood: 8 }),
    ));
    world.despawn(tree);
    world.task_events.push(CheckTaskEvent(id));
    check_tasks(&mut world);
    assert_eq!(tasks_of(&world, id), vec![Task::DropOffResources]);
    assert_eq!(world.storage.wood, 0);
    assert_eq!(carrier_of(&world, id), Some(ResourceCarrier { wood: 5, max_wood: 8 }));
    assert_eq!(travel_of(&world, id), following(stockpile));
    assert!(world.task_events.is_empty());
}

#[test]
fn check_tasks_looks_only_at_those_that_are_named() {
    let mut world = new_world();
    let named = world.spawn(worker(
        at(0, 0),
        vec![Task::PickUpWood(1)],
        Some(ResourceCarrier { wood: 0, max_wood: 8 }),
    ));
    let unnamed = world.spawn(worker(
        at(0, 0),
        vec![Task::PickUpWood(1)],
        Some(ResourceCarrier { wood: 0, max_wood: 8 }),
    ));
    world.changed.push(named);
    world.changed.push(EntityId(40));
    check_tasks(&mut world);
    assert_eq!(tasks_of(&world, named), vec![]);
    assert_eq!(tasks_of(&world, unnamed), vec![Task::PickUpWood(1)]);
    assert_eq!(carrier_of(&world, unnamed), Some(ResourceCarrier { wood: 0, max_wood: 8 }));
}

#[test]
fn check_tasks_takes_turns_among_those_that_wait() {
    let mut world = new_world();
    let victim = world.spawn(worker(
        at(0, 0),
        vec![Task::PickUpWood(1), Task::PickUpWood(1)],
        Some(ResourceCarrier { wood: 0, max_wood: 8 }),
    ));
    let cutter = world.spawn(worker(at(0, 0), vec![Task::CutTree(victim)], None));
    let witness = world.spawn(worker(
        at(0, 0),
        vec![Task::CutTree(victim), Task::PickUpWood(3)],
        Some(ResourceCarrier { wood: 0, max_wood: 8 }),
    ));
    world.changed = vec![victim, cutter, witness];
    check_tasks(&mut world);
    assert!(!world.contains(victim));
    assert_eq!(tasks_of(&world, cutter), vec![]);
    assert_eq!(tasks_of(&world, witness), vec![]);
    assert_eq!(carrier_of(&world, witness), Some(ResourceCarrier { wood: 3, max_wood: 8 }));
}

#[test]
fn check_tasks_keeps_wandering_in_front() {
    let mut world = new_world();
    let id = world.spawn(worker(
        at(0, 0),
        vec![Task::WanderAimlessly, Task::PickUpWood(1)],
        Some(ResourceCarrier { wood: 0, max_wood: 8 }),
    ));
    world.changed.push(id);
    check_tasks(&mut world);
    assert_eq!(tasks_of(&world, id), vec![Task::WanderAimlessly, Task::PickUpWood(1)]);
    assert_eq!(carrier_of(&world, id), Some(ResourceCarrier { wood: 0, max_wood: 8 }));
    match travel_of(&world, id) {
        Some(Travel::ToPosition(order)) => assert!(in_rect(order.position)),
        other => panic!("no order to walk to a point: {:?}", other),
    }
}

#[test]
fn assign_intent_gives_idle_creatures_the_task_to_wander() {
    let mut world = new_world();
    let busy = world.spawn(worker(at(0, 0), vec![Task::PickUpWood(1)], None));
    let idle = world.spawn(worker(at(0, 0), vec![], None));
    let mut fresh = worker(at(0, 0), vec![], None);
    fresh.task_que = None;
    let fresh = world.spawn(fresh);
    let tree = spawn_tree(&mut world, at(0, 0));
    let mut ghost = worker(at(0, 0), vec![], None);
    ghost.creature = None;
    let ghost = world.spawn(ghost);
    assign_intent(&mut world);
    assert_eq!(tasks_of(&world, busy), vec![Task::PickUpWood(1)]);
    assert_eq!(tasks_of(&world, idle), vec![Task::WanderAimlessly]);
    assert_eq!(tasks_of(&world, fresh), vec![Task::WanderAimlessly]);
    assert!(world.agents[tree.0].as_ref().unwrap().task_que.is_none());
    assert_eq!(tasks_of(&world, ghost), vec![]);
    assert_eq!(world.changed, vec![idle, fresh]);
    assign_intent(&mut world);
    assert_eq!(world.changed, vec![idle, fresh]);
}

#[test]
fn a_queue_that_runs_empty_is_refilled_before_the_next_pass() {
    let mut world = new_world();
    let id = world.spawn(worker(
        at(0, 0),
        vec![Task::PickUpWood(1)],
        Some(ResourceCarrier { wood: 0, max_wood: 8 }),
    ));
    world.changed.push(id);
    check_tasks(&mut world);
    assert_eq!(tasks_of(&world, id), vec![]);
    assert_eq!(travel_of(&world, id), None);
    simulation_step(&mut world, 16);
    assert_eq!(tasks_of(&world, id), vec![Task::WanderAimlessly]);
    match travel_of(&world, id) {
        Some(Travel::ToPosition(order)) => assert!(in_rect(order.position)),
        other => panic!("no order to walk to a point: {:?}", other),
    }
    assert!(world.changed.is_empty());
    assert!(world.task_events.is_empty());
}

#[test]
fn spawn_villager_makes_a_creature_that_means_to_wander() {
    let mut world = new_world();
    let id = spawn_villager(&mut world, at(5, 6), "Bo");
    assert_eq!(id, EntityId(0));
    let agent = world.agents[0].as_ref().unwrap();
    assert_eq!(agent.creature.unwrap().name, "Bo");
    assert_eq!(agent.creature.unwrap().activity, CreatureActivity::Standing);
    assert_eq!(agent.physical_object.position, at(5, 6));
    assert_eq!(agent.mobile, Mobile(Speed(0)));
    assert_eq!(agent.walker, Walker { acceleration: 15, max_speed: 3_000_000 });
    assert_eq!(VILLAGER_ACCELERATION, 15);
    assert_eq!(VILLAGER_MAX_SPEED, 3_000_000);
    assert_eq!(agent.travel, None);
    assert_eq!(agent.carrier, None);
    assert_eq!(agent.tree, None);
    assert_eq!(tasks_of(&world, id), vec![Task::WanderAimlessly]);
    assert_eq!(world.changed, vec![id]);
}

#[test]
fn spawn_tree_and_buildings() {
    let mut world = new_world();
    let tree = spawn_tree(&mut world, at(1, 2));
    let (house, space, notice) = spawn_house(&mut world, at(3, 4), 2);
    let stockpile = spawn_stockpile(&mut world, at(5, 6));
    assert_eq!((tree, house, stockpile), (EntityId(0), EntityId(1), EntityId(2)));
    assert_eq!(world.agents[0].as_ref().unwrap().tree, Some(Tree));
    assert_eq!(world.agents[1].as_ref().unwrap().tree, None);
    assert_eq!(world.position_of(tree), Some(at(1, 2)));
    assert_eq!(world.position_of(house), Some(at(3, 4)));
    assert_eq!(world.position_of(stockpile), Some(at(5, 6)));
    assert_eq!(space, LivingSpace { max_people: 2, current_people: 0 });
    assert_eq!(notice, LivingSpaceAvailableEvent { residence_id: house });
    assert_eq!(world.stockpile, Some(stockpile));
    assert_eq!(world.storage.wood, 0);
    assert!(world.changed.is_empty());
}

#[test]
fn first_tree_is_the_one_in_the_lowest_slot() {
    let mut world = new_world();
    assert_eq!(first_tree(&world), None);
    let _villager = spawn_villager(&mut world, at(0, 0), "Cy");
    assert_eq!(first_tree(&world), None);
    let oak = spawn_tree(&mut world, at(1, 1));
    let elm = spawn_tree(&mut world, at(2, 2));
    assert_eq!(first_tree(&world), Some(oak));
    world.despawn(oak);
    assert_eq!(first_tree(&world), Some(elm));
    world.despawn(elm);
    assert_eq!(first_tree(&world), None);
}

#[test]
fn cut_tree_tells_the_first_free_creature_to_fell_the_first_tree() {
    let mut world = new_world();
    let villager = spawn_villager(&mut world, at(0, 0), "Di");
    let other = spawn_villager(&mut world, at(0, 0), "Ed");
    let oak = spawn_tree(&mut world, at(1, 1));
    let _elm = spawn_tree(&mut world, at(2, 2));
    world.changed.clear();
    let free = vec![CreatureAvailableForTasks(villager), CreatureAvailableForTasks(other)];
    cut_tree(&mut world, &free);
    assert_eq!(WOOD_PER_TREE, 5);
    assert_eq!(
        tasks_of(&world, villager),
        vec![
            Task::WanderAimlessly,
            Task::CutTree(oak),
            Task::PickUpWood(5),
            Task::DropOffResources
        ]
    );
    assert_eq!(tasks_of(&world, other), vec![Task::WanderAimlessly]);
    assert_eq!(world.changed, vec![villager]);
}

#[test]
fn cut_tree_without_a_tree_or_a_free_creature_does_nothing() {
    let mut world = new_world();
    let villager = spawn_villager(&mut world, at(0, 0), "Di");
    world.changed.clear();
    cut_tree(&mut world, &vec![CreatureAvailableForTasks(villager)]);
    assert_eq!(tasks_of(&world, villager), vec![Task::WanderAimlessly]);
    let _oak = spawn_tree(&mut world, at(1, 1));
    cut_tree(&mut world, &vec![]);
    assert_eq!(tasks_of(&world, villager), vec![Task::WanderAimlessly]);
    assert!(world.changed.is_empty());
}

#[test]
fn a_villager_fells_a_tree_and_brings_the_wood_home() {
    let mut world = new_world();
    let stockpile = spawn_stockpile(&mut world, at(0, 0));
    let tree = spawn_tree(&mut world, at(30 * UNIT, 40 * UNIT));
    let id = world.spawn(worker(
        at(-20 * UNIT, 0),
        vec![Task::CutTree(tree), Task::PickUpWood(5), Task::DropOffResources],
        Some(ResourceCarrier { wood: 0, max_wood: 3 }),
    ));
    world.changed.push(id);
    let mut ticks = 0;
    while world.storage.wood == 0 {
        simulation_step(&mut world, 16);
        ticks += 1;
        assert!(ticks < 5_000);
        let agent = world.agents[id.0].as_ref().unwrap();
        assert!(agent.mobile.0 .0 <= agent.walker.max_speed);
        let carrier = agent.carrier.unwrap();
        assert!(carrier.wood <= carrier.max_wood);
    }
    assert!(!world.contains(tree));
    assert!(world.contains(stockpile));
    assert_eq!(world.storage.wood, 3);
    assert_eq!(carrier_of(&world, id), Some(ResourceCarrier { wood: 0, max_wood: 3 }));
    assert_eq!(world.position_of(id), Some(at(0, 0)));
    assert_eq!(tasks_of(&world, id), vec![]);
    simulation_step(&mut world, 16);
    assert_eq!(tasks_of(&world, id), vec![Task::WanderAimlessly]);
}
