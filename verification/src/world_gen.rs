//! The bounds of the world, random points of a rectangle, and the order to
//! fell a tree.

use vstd::prelude::*;
use rand::Rng;
use rand::rngs::ThreadRng;
use crate::behaviour::Task;
use crate::hexagon::Rectangle;
use crate::physics::Point;
use crate::world::{AgentView, EntityId, World, WorldView};

verus! {

/// Where the village starts and how far the world reaches.
#[derive(Clone, Copy, PartialEq, Eq, Structural, Debug)]
pub struct SimParams {
    pub start_pos: Point,
    pub world_rect: Rectangle,
}

/// Says that a creature is free to take tasks.
#[derive(Clone, Copy, PartialEq, Eq, Structural, Debug)]
pub struct CreatureAvailableForTasks(pub EntityId);

/// The generator of random numbers that `rand` keeps for each thread.
#[verifier::external_type_specification]
#[verifier::external_body]
pub struct ExThreadRng(ThreadRng);

/// `rand::thread_rng` hands out the calling thread's generator. Nothing is
/// claimed of it.
pub assume_specification[ rand::thread_rng ]() -> (rng: ThreadRng)
;

/// `Rng::gen_range` on the half-open range `low..high` of `i64`: it panics on
/// an empty range, which `requires` leaves out, and else returns some value
/// of the range. Which one is not claimed.
#[verifier::external_body]
fn gen_range(rng: &mut ThreadRng, low: i64, high: i64) -> (value: i64)
    requires
        low < high,
    ensures
        low <= value < high,
{
    rng.gen_range(low..high)
}

/// A random point of `rect`: any point of it may come.
pub fn gen_in_rect(rng: &mut ThreadRng, rect: &Rectangle) -> (point: Point)
    requires
        rect.wf(),
    ensures
        rect.contains(point),
        point.in_bounds(),
{
    let half_x: i64 = rect.size.x / 2;
    let half_y: i64 = rect.size.y / 2;
    let x: i64 = gen_range(rng, rect.position.x - half_x, rect.position.x + half_x);
    let y: i64 = gen_range(rng, rect.position.y - half_y, rect.position.y + half_y);
    Point { x, y }
}

/// Wood that a villager is told to pick up from a tree it has cut.
pub const WOOD_PER_TREE: u64 = 5;

/// The first tree among the first `n` slots.
pub open spec fn first_tree_upto(agents: Seq<Option<AgentView>>, n: nat) -> Option<EntityId>
    decreases n,
{
    if n == 0 {
        None
    } else {
        match first_tree_upto(agents, (n - 1) as nat) {
            Some(id) => Some(id),
            None => match agents[n - 1] {
                Some(agent) => if agent.tree is Some {
                    Some(EntityId((n - 1) as usize))
                } else {
                    None
                },
                None => None,
            },
        }
    }
}

/// The tasks that fell a tree and bring its wood home.
pub open spec fn felling(tree: EntityId) -> Seq<Task> {
    seq![Task::CutTree(tree), Task::PickUpWood(WOOD_PER_TREE), Task::DropOffResources]
}

/// The world after the first creature that is free, if there is one, has
/// been told to fell the first tree, if there is one: the three tasks stand
/// at the end of its queue, and it is listed as changed.
pub open spec fn with_tree_to_cut(
    w: WorldView,
    available: Seq<CreatureAvailableForTasks>,
) -> WorldView {
    if available.len() == 0 {
        w
    } else {
        match first_tree_upto(w.agents, w.agents.len()) {
            Some(tree) => {
                let villager = available[0].0;
                let agent = w.get(villager)->0;
                WorldView {
                    changed: w.changed.push(villager),
                    ..w.with_agent(
                        villager,
                        AgentView { tasks: Some(agent.tasks->0 + felling(tree)), ..agent },
                    )
                }
            },
            None => w,
        }
    }
}

/// The first tree of the world.
pub fn first_tree(world: &World) -> (tree: Option<EntityId>)
    ensures
        tree == first_tree_upto(world@.agents, world@.agents.len()),
{
    let mut i: usize = 0;
    while i < world.agents.len()
        invariant
            i <= world.agents@.len(),
            first_tree_upto(world@.agents, i as nat) is None,
        decreases world.agents@.len() - i,
    {
        let found: bool = match &world.agents[i] {
            Some(agent) => agent.tree.is_some(),
            None => false,
        };
        if found {
            proof {
                lemma_first_tree_stays(world@.agents, (i + 1) as nat, world@.agents.len());
            }
            return Some(EntityId(i));
        }
        i = i + 1;
    }
    None
}

/// A tree found among the first `n` slots is the first among more slots too.
proof fn lemma_first_tree_stays(agents: Seq<Option<AgentView>>, n: nat, m: nat)
    requires
        n <= m,
        first_tree_upto(agents, n) is Some,
    ensures
        first_tree_upto(agents, m) == first_tree_upto(agents, n),
    decreases m,
{
    if n < m {
        lemma_first_tree_stays(agents, n, (m - 1) as nat);
    }
}

/// Tells the first creature that is free to fell the first tree of the
/// world, to pick up its wood and to bring it to the stockpile. Nothing
/// happens where no creature is free or no tree stands.
pub fn cut_tree(world: &mut World, ev_creature_available_for_tasks: &Vec<CreatureAvailableForTasks>)
    requires
        old(world).wf(),
        ev_creature_available_for_tasks@.len() > 0 && first_tree_upto(
            old(world)@.agents,
            old(world)@.agents.len(),
        ) is Some ==> old(world)@.has(ev_creature_available_for_tasks@[0].0) && old(world)@.get(
            ev_creature_available_for_tasks@[0].0,
        )->0.tasks is Some,
    ensures
        final(world).wf(),
        final(world)@ == with_tree_to_cut(old(world)@, ev_creature_available_for_tasks@),
{
    if ev_creature_available_for_tasks.len() == 0 {
        return ;
    }
    let villager_id: EntityId = ev_creature_available_for_tasks[0].0;
    if let Some(tree_id) = first_tree(world) {
        match &mut world.agents[villager_id.0] {
            Some(agent) => {
                match &mut agent.task_que {
                    Some(task_que) => {
                        task_que.0.push_back(Task::CutTree(tree_id));
                        task_que.0.push_back(Task::PickUpWood(WOOD_PER_TREE));
                        task_que.0.push_back(Task::DropOffResources);
                    },
                    None => {},
                }
            },
            None => {},
        }
        world.changed.push(villager_id);
        proof {
            let agent = old(world)@.get(villager_id)->0;
            assert(world@.get(villager_id)->0.tasks->0 =~= agent.tasks->0 + felling(tree_id));
            assert(world@.agents =~= with_tree_to_cut(
                old(world)@,
                ev_creature_available_for_tasks@,
            ).agents);
        }
    }
}

} // verus!
