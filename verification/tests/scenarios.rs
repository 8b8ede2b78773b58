use std::collections::VecDeque;

use game_plugin::behaviour::{go_to_position, go_to_target, Task, Walker};
use game_plugin::buildings::spawn_stockpile;
use game_plugin::hexagon::Rectangle;
use game_plugin::physics::{Mobile, PhysicalObject, Point, Speed, STEPS_PER_UNIT};
use game_plugin::tree_cutting::{check_tasks, ResourceCarrier, TaskQue};
use game_plugin::world::{Agent, EntityId, Travel, World};
use game_plugin::world_gen::SimParams;

const UNIT: i64 = STEPS_PER_UNIT as i64;

fn params() -> SimParams {
    SimParams {
        start_pos: Point { x: 0, y: 0 },
        world_rect: Rectangle {
            position: Point { x: 0, y: 0 },
            size: Point { x: 800 * UNIT, y: 700 * UNIT },
        },
    }
}

fn worker_at(x: i64, y: i64, tasks: Vec<Task>, wood: u64, max_wood: u64) -> Agent {
    Agent {
        creature: None,
        tree: None,
        physical_object: PhysicalObject { position: Point { x, y } },
        mobile: Mobile(Speed(0)),
        walker: Walker { acceleration: 15, max_speed: 3 * STEPS_PER_UNIT },
        travel: None,
        task_que: Some(TaskQue(VecDeque::from(tasks))),
        carrier: Some(ResourceCarrier { wood, max_wood }),
    }
}

fn tasks_of(world: &World, id: EntityId) -> Vec<Task> {
    let agent = world.agents[id.0].as_ref().unwrap();
    agent.task_que.as_ref().unwrap().0.iter().copied().collect()
}

#[test]
fn drop_off_walks_to_the_stockpile_then_stores() {
    let mut world = World::new(params());
    let stockpile = spawn_stockpile(&mut world, Point { x: 0, y: 0 });
    let worker = world.spawn(worker_at(10 * UNIT, 0, vec![Task::DropOffResources], 5, 5));
    world.changed.push(worker);

    check_tasks(&mut world);
    assert_eq!(tasks_of(&world, worker), vec![Task::DropOffResources]);
    assert_eq!(world.storage.wood, 0);
    match world.agents[worker.0].as_ref().unwrap().travel {
        Some(Travel::ToTarget(order)) => {
            assert_eq!(order.target_id, stockpile);
            assert_eq!(order.time_to_next_location_check, 0);
            assert_eq!(order.last_target_position, None);
        }
        other => panic!("no order to follow the stockpile: {:?}", other),
    }
    assert!(world.changed.is_empty());
    assert!(world.task_events.is_empty());

    let mut ticks = 0;
    while world.task_events.is_empty() {
        go_to_target(&mut world, 16);
        go_to_position(&mut world, 16);
        ticks += 1;
        assert!(ticks < 10_000);
    }
    let agent = world.agents[worker.0].as_ref().unwrap();
    assert_eq!(agent.physical_object.position, Point { x: 0, y: 0 });
    assert_eq!(agent.mobile, Mobile(Speed(0)));
    assert_eq!(agent.travel, None);

    check_tasks(&mut world);
    assert_eq!(tasks_of(&world, worker), vec![]);
    assert_eq!(world.storage.wood, 5);
    assert_eq!(
        world.agents[worker.0].as_ref().unwrap().carrier,
        Some(ResourceCarrier { wood: 0, max_wood: 5 })
    );
}

#[test]
fn drop_off_is_done_as_soon_as_the_stockpile_is_within_reach() {
    let mut world = World::new(params());
    let _stockpile = spawn_stockpile(&mut world, Point { x: 0, y: 0 });
    let worker = world.spawn(worker_at(10 * UNIT, 0, vec![Task::DropOffResources], 5, 5));
    world.changed.push(worker);
    check_tasks(&mut world);

    let mut ticks = 0;
    while world.position_of(worker).unwrap().x >= 4 * UNIT {
        go_to_target(&mut world, 16);
        ticks += 1;
        assert!(ticks < 10_000);
        world.task_events.push(game_plugin::behaviour::CheckTaskEvent(worker));
        let before = world.position_of(worker).unwrap();
        check_tasks(&mut world);
        assert_eq!(world.position_of(worker), Some(before));
        if before.x >= 4 * UNIT {
            assert_eq!(world.storage.wood, 0);
            assert_eq!(tasks_of(&world, worker), vec![Task::DropOffResources]);
        }
    }
    assert_eq!(world.storage.wood, 5);
    assert_eq!(tasks_of(&world, worker), vec![]);
    assert_eq!(
        world.agents[worker.0].as_ref().unwrap().carrier,
        Some(ResourceCarrier { wood: 0, max_wood: 5 })
    );
}
