//! Tasks and resources: what a villager carries, where it is stored, and the
//! executor that works through each villager's queue of tasks.

use vstd::prelude::*;
use std::collections::VecDeque;
use crate::behaviour::{CheckTaskEvent, Task, TravelToPosition, TravelToTarget};
use crate::physics::{Point, STEPS_PER_UNIT};
use crate::world::{
    lemma_total_tasks_update, total_tasks, AgentView, EntityId, Travel, World, WorldView,
};
use crate::world_gen::gen_in_rect;

verus! {

/// Two entities closer than this, four distance units, are together.
pub const NEAR_DISTANCE: u64 = 4 * STEPS_PER_UNIT;

/// Marks a villager as busy cutting a tree.
#[derive(Clone, Copy, PartialEq, Eq, Structural, Debug)]
pub struct CuttingTree {
    pub tree_id: EntityId,
}

/// The wood a villager carries and the most it can carry.
#[derive(Clone, Copy, PartialEq, Eq, Structural, Debug)]
pub struct ResourceCarrier {
    pub wood: u64,
    pub max_wood: u64,
}

/// The wood laid down in the village's one store.
#[derive(Clone, Copy, PartialEq, Eq, Structural, Debug)]
pub struct ResourceStorage {
    pub wood: u64,
}

/// The tasks of one villager, the next one in front.
pub struct TaskQue(pub VecDeque<Task>);

impl View for TaskQue {
    type V = Seq<Task>;

    open spec fn view(&self) -> Seq<Task> {
        self.0@
    }
}

impl ResourceCarrier {
    /// The load is within the capacity.
    pub open spec fn wf(self) -> bool {
        self.wood <= self.max_wood
    }

    /// Computes `wf`.
    pub fn is_wf(&self) -> (ok: bool)
        ensures
            ok == self.wf(),
    {
        self.wood <= self.max_wood
    }

    /// The carrier after taking up as much of `amount` as still fits.
    pub open spec fn picked_up(self, amount: u64) -> ResourceCarrier {
        if amount <= self.max_wood - self.wood {
            ResourceCarrier { wood: (self.wood + amount) as u64, max_wood: self.max_wood }
        } else {
            ResourceCarrier { wood: self.max_wood, max_wood: self.max_wood }
        }
    }

    /// Takes up `amount`, or as much of it as the capacity leaves room for.
    pub fn pick_up(&mut self, amount: u64)
        requires
            old(self).wf(),
        ensures
            *final(self) == old(self).picked_up(amount),
            final(self).wf(),
            final(self).wood >= old(self).wood,
    {
        let amount_can_carry: u64 = self.max_wood - self.wood;
        if amount <= amount_can_carry {
            self.wood = self.wood + amount;
        } else {
            self.wood = self.wood + amount_can_carry;
        }
    }
}

impl ResourceStorage {
    /// The store after `amount` is laid down. It holds at most `u64::MAX`.
    pub open spec fn stored(self, amount: u64) -> ResourceStorage {
        if self.wood + amount > u64::MAX {
            ResourceStorage { wood: u64::MAX }
        } else {
            ResourceStorage { wood: (self.wood + amount) as u64 }
        }
    }

    /// Moves the whole load of `carrier` into the store.
    pub fn store(&mut self, carrier: &mut ResourceCarrier)
        ensures
            *final(self) == old(self).stored(old(carrier).wood),
            final(self).wood >= old(self).wood,
            *final(carrier) == (ResourceCarrier { wood: 0, max_wood: old(carrier).max_wood }),
    {
        self.wood = self.wood.saturating_add(carrier.wood);
        carrier.wood = 0;
    }
}

/// Whether two positions are closer than `within_distance`.
pub open spec fn located_near(who: Point, place: Point, within_distance: u64) -> bool {
    who.distance_squared_to(place) < within_distance * within_distance
}

/// Whether the entity `who_id` is closer than `within_distance` to the entity `where_id`.
pub fn is_located_near(
    world: &World,
    who_id: &EntityId,
    where_id: &EntityId,
    within_distance: u64,
) -> (near: bool)
    requires
        world.wf(),
        world@.has(*who_id),
        world@.has(*where_id),
    ensures
        near == located_near(
            world@.position_of(*who_id)->0,
            world@.position_of(*where_id)->0,
            within_distance,
        ),
{
    let who: Point = world.position_of(*who_id).unwrap();
    let place: Point = world.position_of(*where_id).unwrap();
    let within: u128 = within_distance as u128;
    proof {
        assert(within * within <= 0xFFFF_FFFF_FFFF_FFFF * 0xFFFF_FFFF_FFFF_FFFF)
            by (nonlinear_arith)
            requires
                0 <= within <= 0xFFFF_FFFF_FFFF_FFFF,
        ;
    }
    who.distance_squared(&place) < within * within
}

/// The order that the executor gives: follow `target`, and look at once where it is.
pub open spec fn following(target: EntityId) -> Travel {
    Travel::ToTarget(
        TravelToTarget {
            time_to_next_location_check: 0,
            target_id: target,
            last_target_position: None,
        },
    )
}

/// The world in which `worker` has the travel order `travel` in place of any other.
pub open spec fn with_travel(w: WorldView, worker: EntityId, travel: Travel) -> WorldView {
    match w.get(worker) {
        Some(agent) => w.with_agent(worker, AgentView { travel: Some(travel), ..agent }),
        None => w,
    }
}

/// The world in which `worker` has taken up `amount` of wood, as far as it
/// fits. One who carries nothing at all takes nothing.
pub open spec fn with_wood_picked_up(w: WorldView, worker: EntityId, amount: u64) -> WorldView {
    match w.get(worker) {
        Some(agent) => match agent.carrier {
            Some(carrier) => w.with_agent(
                worker,
                AgentView { carrier: Some(carrier.picked_up(amount)), ..agent },
            ),
            None => w,
        },
        None => w,
    }
}

/// The world in which `worker` has laid its whole load into the store.
pub open spec fn with_wood_stored(w: WorldView, worker: EntityId) -> WorldView {
    match w.get(worker) {
        Some(agent) => match agent.carrier {
            Some(carrier) => WorldView {
                storage: w.storage.stored(carrier.wood),
                ..w.with_agent(
                    worker,
                    AgentView {
                        carrier: Some(ResourceCarrier { wood: 0, max_wood: carrier.max_wood }),
                        ..agent
                    },
                )
            },
            None => w,
        },
        None => w,
    }
}

/// The world in which the front task of `worker` is gone.
pub open spec fn with_task_popped(w: WorldView, worker: EntityId) -> WorldView {
    match w.get(worker) {
        Some(agent) => match agent.tasks {
            Some(tasks) => if tasks.len() > 0 {
                w.with_agent(worker, AgentView { tasks: Some(tasks.skip(1)), ..agent })
            } else {
                w
            },
            None => w,
        },
        None => w,
    }
}

/// What an attempt at `task` by `worker` makes of the world, and whether the
/// task is done. `wander_to` is where an aimless walk is to lead; no other
/// task reads it.
///
/// - Cutting: a target that is gone counts as done. One within reach is
///   removed. Else the worker is sent after it.
/// - Picking up wood is done at once.
/// - Dropping off: within reach of the stockpile the whole load goes into the
///   store. Else the worker is sent to it. Without a stockpile nothing happens.
/// - Wandering sends the worker to `wander_to` and is never done.
pub open spec fn accomplished(
    w: WorldView,
    worker: EntityId,
    task: Task,
    wander_to: Point,
) -> (WorldView, bool) {
    let here = w.position_of(worker)->0;
    match task {
        Task::CutTree(tree) => match w.position_of(tree) {
            None => (w, true),
            Some(place) => if located_near(here, place, NEAR_DISTANCE) {
                (w.without(tree), true)
            } else {
                (with_travel(w, worker, following(tree)), false)
            },
        },
        Task::PickUpWood(amount) => (with_wood_picked_up(w, worker, amount), true),
        Task::DropOffResources => match w.stockpile {
            Some(stockpile) => match w.position_of(stockpile) {
                Some(place) => if located_near(here, place, NEAR_DISTANCE) {
                    (with_wood_stored(w, worker), true)
                } else {
                    (with_travel(w, worker, following(stockpile)), false)
                },
                None => (w, false),
            },
            None => (w, false),
        },
        Task::WanderAimlessly => (
            with_travel(w, worker, Travel::ToPosition(TravelToPosition { position: wander_to })),
            false,
        ),
    }
}

/// What one look of the executor at `worker` makes of the world, and whether
/// it asks for another look: the front task is attempted, and where it is
/// done it leaves the queue. Nothing happens where `worker` is gone or has no
/// task.
pub open spec fn checked(w: WorldView, worker: EntityId, wander_to: Point) -> (WorldView, bool) {
    match w.get(worker) {
        Some(agent) => match agent.tasks {
            Some(tasks) => if tasks.len() > 0 {
                let (after, done) = accomplished(w, worker, tasks[0], wander_to);
                if done {
                    (with_task_popped(after, worker), true)
                } else {
                    (after, false)
                }
            } else {
                (w, false)
            },
            None => (w, false),
        },
        None => (w, false),
    }
}

/// Picking up never leaves more in the carrier than it can hold, whatever is
/// asked for: the load grows by the amount asked, or by the room that was left.
pub proof fn lemma_pick_up_within_capacity(carrier: ResourceCarrier, amount: u64)
    requires
        carrier.wf(),
    ensures
        carrier.picked_up(amount).wf(),
        carrier.picked_up(amount).max_wood == carrier.max_wood,
        carrier.picked_up(amount).wood == carrier.wood + if amount <= carrier.max_wood
            - carrier.wood {
            amount as int
        } else {
            carrier.max_wood - carrier.wood
        },
{
}

/// Dropping off is done exactly when the worker is within reach of the
/// stockpile. Then its whole load is in the store and it carries nothing.
/// Else it is sent after the stockpile, and load and store are as before.
pub proof fn lemma_drop_off_only_within_reach(w: WorldView, worker: EntityId, wander_to: Point)
    requires
        w.has(worker),
        w.stockpile matches Some(stockpile) && w.has(stockpile),
    ensures
        ({
            let (after, done) = accomplished(w, worker, Task::DropOffResources, wander_to);
            let agent = w.get(worker)->0;
            let near = located_near(
                agent.physical_object.position,
                w.position_of(w.stockpile->0)->0,
                NEAR_DISTANCE,
            );
            &&& done <==> near
            &&& after.has(worker)
            &&& near ==> match agent.carrier {
                Some(carrier) => {
                    &&& after.storage == w.storage.stored(carrier.wood)
                    &&& after.get(worker)->0.carrier == Some(
                        ResourceCarrier { wood: 0, max_wood: carrier.max_wood },
                    )
                },
                None => after == w,
            }
            &&& near ==> after.get(worker)->0.travel == agent.travel
            &&& !near ==> {
                &&& after.storage == w.storage
                &&& after.get(worker)->0.carrier == agent.carrier
                &&& after.get(worker)->0.travel == Some(following(w.stockpile->0))
            }
        }),
{
}

/// Gives `worker` the travel order `travel` in place of any other.
fn install_travel(world: &mut World, worker_id: EntityId, travel: Travel)
    requires
        old(world).wf(),
        old(world)@.has(worker_id),
        travel.wf(),
    ensures
        final(world).wf(),
        final(world)@ == with_travel(old(world)@, worker_id, travel),
{
    match &mut world.agents[worker_id.0] {
        Some(agent) => {
            agent.travel = Some(travel);
        },
        None => {},
    }
    assert(world@.agents =~= with_travel(old(world)@, worker_id, travel).agents);
}

/// Lets `worker_id` take up `amount` of wood, as far as it fits.
pub fn pick_up_wood(world: &mut World, worker_id: &EntityId, amount: u64)
    requires
        old(world).wf(),
        old(world)@.has(*worker_id),
    ensures
        final(world).wf(),
        final(world)@ == with_wood_picked_up(old(world)@, *worker_id, amount),
{
    match &mut world.agents[worker_id.0] {
        Some(agent) => {
            match &mut agent.carrier {
                Some(carrier) => {
                    carrier.pick_up(amount);
                },
                None => {},
            }
        },
        None => {},
    }
    assert(world@.agents =~= with_wood_picked_up(old(world)@, *worker_id, amount).agents);
}

/// Lets `worker_id` lay its whole load into the store.
pub fn store_wood(world: &mut World, worker_id: &EntityId)
    requires
        old(world).wf(),
        old(world)@.has(*worker_id),
    ensures
        final(world).wf(),
        final(world)@ == with_wood_stored(old(world)@, *worker_id),
{
    let mut storage: ResourceStorage = world.storage;
    match &mut world.agents[worker_id.0] {
        Some(agent) => {
            match &mut agent.carrier {
                Some(carrier) => {
                    storage.store(carrier);
                },
                None => {},
            }
        },
        None => {},
    }
    world.storage = storage;
    assert(world@.agents =~= with_wood_stored(old(world)@, *worker_id).agents);
}

/// Attempts `task` for `worker_id`, an aimless walk leading to `wander_to`.
pub fn accomplish_task(
    world: &mut World,
    worker_id: &EntityId,
    task: &Task,
    wander_to: Point,
) -> (done: bool)
    requires
        old(world).wf(),
        old(world)@.has(*worker_id),
        wander_to.in_bounds(),
    ensures
        final(world).wf(),
        (final(world)@, done) == accomplished(old(world)@, *worker_id, *task, wander_to),
{
    match *task {
        Task::CutTree(tree_id) => {
            if !world.contains(tree_id) {
                return true;
            }
            if is_located_near(world, worker_id, &tree_id, NEAR_DISTANCE) {
                world.despawn(tree_id);
                true
            } else {
                install_travel(
                    world,
                    *worker_id,
                    Travel::ToTarget(
                        TravelToTarget {
                            time_to_next_location_check: 0,
                            target_id: tree_id,
                            last_target_position: None,
                        },
                    ),
                );
                false
            }
        },
        Task::PickUpWood(amount) => {
            pick_up_wood(world, worker_id, amount);
            true
        },
        Task::DropOffResources => {
            let storage_id: EntityId = match world.stockpile {
                Some(storage_id) => storage_id,
                None => {
                    return false;
                },
            };
            if !world.contains(storage_id) {
                return false;
            }
            if is_located_near(world, worker_id, &storage_id, NEAR_DISTANCE) {
                store_wood(world, worker_id);
                true
            } else {
                install_travel(
                    world,
                    *worker_id,
                    Travel::ToTarget(
                        TravelToTarget {
                            time_to_next_location_check: 0,
                            target_id: storage_id,
                            last_target_position: None,
                        },
                    ),
                );
                false
            }
        },
        Task::WanderAimlessly => {
            install_travel(
                world,
                *worker_id,
                Travel::ToPosition(TravelToPosition { position: wander_to }),
            );
            false
        },
    }
}

/// Attempts `task` for `worker_id` and says whether it is done. An aimless
/// walk leads to a random point of the world: any point of it may come.
pub fn try_accomplish_task(world: &mut World, worker_id: &EntityId, task: &Task) -> (done: bool)
    requires
        old(world).wf(),
        old(world)@.has(*worker_id),
    ensures
        final(world).wf(),
        exists|wander_to: Point|
            old(world)@.sim_params.world_rect.contains(wander_to) && (final(world)@, done)
                == #[trigger] accomplished(old(world)@, *worker_id, *task, wander_to),
{
    let ghost corner = Point {
        x: world.sim_params.world_rect.left() as i64,
        y: world.sim_params.world_rect.bottom() as i64,
    };
    match *task {
        Task::WanderAimlessly => {
            let mut rng = rand::thread_rng();
            let position: Point = gen_in_rect(&mut rng, &world.sim_params.world_rect);
            accomplish_task(world, worker_id, task, position)
        },
        _ => {
            let done = accomplish_task(world, worker_id, task, Point { x: 0, y: 0 });
            assert(old(world)@.sim_params.world_rect.contains(corner));
            assert((world@, done) == accomplished(old(world)@, *worker_id, *task, corner));
            done
        },
    }
}

/// Looks at `creature_id` once: attempts its front task and, where that is
/// done, takes the task off the queue and asks for another look.
pub fn check_task(world: &mut World, creature_id: EntityId) -> (again: bool)
    requires
        old(world).wf(),
    ensures
        final(world).wf(),
        exists|wander_to: Point|
            old(world)@.sim_params.world_rect.contains(wander_to) && (final(world)@, again)
                == #[trigger] checked(old(world)@, creature_id, wander_to),
{
    let ghost corner = Point {
        x: world.sim_params.world_rect.left() as i64,
        y: world.sim_params.world_rect.bottom() as i64,
    };
    assert(old(world)@.sim_params.world_rect.contains(corner));
    if creature_id.0 >= world.agents.len() {
        assert((world@, false) == checked(old(world)@, creature_id, corner));
        return false;
    }
    let front: Option<Task> = match &world.agents[creature_id.0] {
        Some(agent) => match &agent.task_que {
            Some(tasks) => if tasks.0.len() > 0 {
                Some(tasks.0[0])
            } else {
                None
            },
            None => None,
        },
        None => None,
    };
    match front {
        None => {
            assert((world@, false) == checked(old(world)@, creature_id, corner));
            false
        },
        Some(task) => {
            let done: bool = try_accomplish_task(world, &creature_id, &task);
            let ghost wander_to = choose|wander_to: Point|
                old(world)@.sim_params.world_rect.contains(wander_to) && (world@, done)
                    == #[trigger] accomplished(old(world)@, creature_id, task, wander_to);
            let ghost attempted = world@;
            if done {
                match &mut world.agents[creature_id.0] {
                    Some(agent) => {
                        match &mut agent.task_que {
                            Some(tasks) => {
                                let _ = tasks.0.pop_front();
                            },
                            None => {},
                        }
                    },
                    None => {},
                }
                assert(world@.agents =~= with_task_popped(attempted, creature_id).agents);
            }
            assert((world@, done) == checked(old(world)@, creature_id, wander_to));
            done
        },
    }
}

/// Whether `after` is what is left of `before` once some tasks in front are gone.
pub open spec fn is_rest_of(after: Seq<Task>, before: Seq<Task>) -> bool {
    exists|k: int| 0 <= k <= before.len() && after == #[trigger] before.skip(k)
}

/// What the executor may make of one slot: it may empty the slot; in an
/// entity that stays it changes neither what the entity is, nor where it is,
/// nor how fast it walks, nor how much it can carry, and it takes tasks from
/// the front of the queue only.
pub open spec fn slot_follows(before: Option<AgentView>, after: Option<AgentView>) -> bool {
    match after {
        None => true,
        Some(a) => {
            &&& before matches Some(b)
            &&& a.creature == b.creature
            &&& a.tree == b.tree
            &&& a.physical_object == b.physical_object
            &&& a.mobile == b.mobile
            &&& a.walker == b.walker
            &&& match (b.carrier, a.carrier) {
                (Some(had), Some(has)) => has.max_wood == had.max_wood,
                (None, None) => true,
                _ => false,
            }
            &&& match (b.tasks, a.tasks) {
                (Some(had), Some(has)) => is_rest_of(has, had),
                (None, None) => true,
                _ => false,
            }
        },
    }
}

/// What the executor may make of the world: the bounds, the stockpile and the
/// number of slots stay, the store loses nothing, and every slot follows its
/// former state.
pub open spec fn follows(before: WorldView, after: WorldView) -> bool {
    &&& after.sim_params == before.sim_params
    &&& after.stockpile == before.stockpile
    &&& after.agents.len() == before.agents.len()
    &&& after.storage.wood >= before.storage.wood
    &&& forall|i: int|
        0 <= i < before.agents.len() ==> slot_follows(before.agents[i], #[trigger] after.agents[i])
}

proof fn lemma_rest_of_itself(tasks: Seq<Task>)
    ensures
        is_rest_of(tasks, tasks),
{
    assert(tasks == tasks.skip(0));
}

proof fn lemma_rest_of_rest(last: Seq<Task>, middle: Seq<Task>, first: Seq<Task>)
    requires
        is_rest_of(last, middle),
        is_rest_of(middle, first),
    ensures
        is_rest_of(last, first),
{
    let j = choose|j: int| 0 <= j <= first.len() && middle == #[trigger] first.skip(j);
    let k = choose|k: int| 0 <= k <= middle.len() && last == #[trigger] middle.skip(k);
    assert(last =~= first.skip(j + k));
}

proof fn lemma_slot_follows_itself(slot: Option<AgentView>)
    ensures
        slot_follows(slot, slot),
{
    if let Some(agent) = slot {
        if let Some(tasks) = agent.tasks {
            lemma_rest_of_itself(tasks);
        }
    }
}

proof fn lemma_slot_follows_twice(
    first: Option<AgentView>,
    middle: Option<AgentView>,
    last: Option<AgentView>,
)
    requires
        slot_follows(first, middle),
        slot_follows(middle, last),
    ensures
        slot_follows(first, last),
{
    if let Some(a) = last {
        let m = middle->0;
        let b = first->0;
        if let Some(tasks) = a.tasks {
            lemma_rest_of_rest(tasks, m.tasks->0, b.tasks->0);
        }
    }
}

/// A world follows itself.
pub proof fn lemma_follows_itself(w: WorldView)
    ensures
        follows(w, w),
{
    assert forall|i: int| 0 <= i < w.agents.len() implies slot_follows(
        w.agents[i],
        #[trigger] w.agents[i],
    ) by {
        lemma_slot_follows_itself(w.agents[i]);
    }
}

/// What follows a world that follows another, follows that other.
pub proof fn lemma_follows_twice(first: WorldView, middle: WorldView, last: WorldView)
    requires
        follows(first, middle),
        follows(middle, last),
    ensures
        follows(first, last),
{
    assert forall|i: int| 0 <= i < first.agents.len() implies slot_follows(
        first.agents[i],
        #[trigger] last.agents[i],
    ) by {
        lemma_slot_follows_twice(first.agents[i], middle.agents[i], last.agents[i]);
    }
}

/// Replacing the slot of `id` by one that follows it gives a world that follows.
proof fn lemma_follows_with_slot(w: WorldView, id: EntityId, slot: Option<AgentView>)
    requires
        id.0 < w.agents.len(),
        slot_follows(w.agents[id.0 as int], slot),
    ensures
        follows(w, WorldView { agents: w.agents.update(id.0 as int, slot), ..w }),
{
    let after = WorldView { agents: w.agents.update(id.0 as int, slot), ..w };
    assert forall|i: int| 0 <= i < w.agents.len() implies slot_follows(
        w.agents[i],
        #[trigger] after.agents[i],
    ) by {
        lemma_slot_follows_itself(w.agents[i]);
    }
}

/// One look of the executor gives a world that follows and leaves the
/// notices alone; it never adds a task, and it asks for another look only
/// where a task has gone. A well-formed world stays well formed where an
/// aimless walk leads to a point in bounds.
pub proof fn lemma_checked_follows(w: WorldView, worker: EntityId, wander_to: Point)
    ensures
        w.wf() && wander_to.in_bounds() ==> checked(w, worker, wander_to).0.wf(),
        follows(w, checked(w, worker, wander_to).0),
        checked(w, worker, wander_to).0.changed == w.changed,
        checked(w, worker, wander_to).0.task_events == w.task_events,
        total_tasks(checked(w, worker, wander_to).0.agents) <= total_tasks(w.agents),
        checked(w, worker, wander_to).1 ==> total_tasks(checked(w, worker, wander_to).0.agents)
            < total_tasks(w.agents),
{
    lemma_follows_itself(w);
    if let Some(agent) = w.get(worker) {
        if agent.task_count() > 0 {
            let tasks = agent.tasks->0;
            let (attempted, done) = accomplished(w, worker, tasks[0], wander_to);
            lemma_slot_follows_itself(w.agents[worker.0 as int]);
            lemma_rest_of_itself(tasks);
            match tasks[0] {
                Task::CutTree(tree) => {
                    if w.position_of(tree) is Some {
                        lemma_total_tasks_update(w.agents, tree.0 as int, None);
                        lemma_total_tasks_update(
                            w.agents,
                            worker.0 as int,
                            with_travel(w, worker, following(tree)).agents[worker.0 as int],
                        );
                        lemma_follows_with_slot(w, tree, None);
                        lemma_follows_with_slot(
                            w,
                            worker,
                            with_travel(w, worker, following(tree)).agents[worker.0 as int],
                        );
                        assert(w.without(tree) == (WorldView {
                            agents: w.agents.update(tree.0 as int, None),
                            ..w
                        }));
                    }
                },
                Task::PickUpWood(amount) => {
                    lemma_total_tasks_update(
                        w.agents,
                        worker.0 as int,
                        attempted.agents[worker.0 as int],
                    );
                    lemma_follows_with_slot(w, worker, attempted.agents[worker.0 as int]);
                },
                Task::DropOffResources => {
                    lemma_total_tasks_update(
                        w.agents,
                        worker.0 as int,
                        attempted.agents[worker.0 as int],
                    );
                    lemma_follows_with_slot(w, worker, attempted.agents[worker.0 as int]);
                },
                Task::WanderAimlessly => {
                    lemma_total_tasks_update(
                        w.agents,
                        worker.0 as int,
                        attempted.agents[worker.0 as int],
                    );
                    lemma_follows_with_slot(w, worker, attempted.agents[worker.0 as int]);
                },
            }
            if done {
                let after = with_task_popped(attempted, worker);
                if attempted.has(worker) {
                    assert(is_rest_of(tasks.skip(1), tasks));
                    lemma_total_tasks_update(
                        attempted.agents,
                        worker.0 as int,
                        after.agents[worker.0 as int],
                    );
                    lemma_follows_with_slot(attempted, worker, after.agents[worker.0 as int]);
                    assert(after == (WorldView {
                        agents: attempted.agents.update(
                            worker.0 as int,
                            after.agents[worker.0 as int],
                        ),
                        ..attempted
                    }));
                    lemma_follows_twice(w, attempted, after);
                }
            }
        }
    }
}

/// The entities that `events` name, in order.
pub open spec fn named_by(events: Seq<CheckTaskEvent>) -> Seq<EntityId> {
    Seq::new(events.len(), |i: int| events[i].0)
}

/// `ids` with every entity kept where it first stands.
pub open spec fn without_repeats(ids: Seq<EntityId>) -> Seq<EntityId>
    decreases ids.len(),
{
    if ids.len() == 0 {
        Seq::empty()
    } else {
        let head = without_repeats(ids.drop_last());
        if head.contains(ids.last()) {
            head
        } else {
            head.push(ids.last())
        }
    }
}

/// `without_repeats` names what `ids` names, each entity once.
pub proof fn lemma_without_repeats(ids: Seq<EntityId>)
    ensures
        without_repeats(ids).no_duplicates(),
        forall|id: EntityId| without_repeats(ids).contains(id) <==> ids.contains(id),
    decreases ids.len(),
{
    if ids.len() > 0 {
        let head = without_repeats(ids.drop_last());
        let last = ids.last();
        lemma_without_repeats(ids.drop_last());
        assert forall|id: EntityId| without_repeats(ids).contains(id) <==> ids.contains(
            id,
        ) by {
            if ids.contains(id) {
                let i = choose|i: int| 0 <= i < ids.len() && ids[i] == id;
                if i < ids.len() - 1 {
                    assert(ids.drop_last()[i] == id);
                    assert(ids.drop_last().contains(id));
                    assert(head.contains(id));
                }
                if !head.contains(last) {
                    assert(head.push(last)[head.len() as int] == last);
                    if head.contains(id) {
                        let j = choose|j: int| 0 <= j < head.len() && head[j] == id;
                        assert(head.push(last)[j] == id);
                    }
                }
            }
            if without_repeats(ids).contains(id) {
                let j = choose|j: int|
                    0 <= j < without_repeats(ids).len() && without_repeats(ids)[j] == id;
                if j < head.len() {
                    assert(head[j] == id);
                    assert(head.contains(id));
                    assert(ids.drop_last().contains(id));
                    let i = choose|i: int|
                        0 <= i < ids.drop_last().len() && ids.drop_last()[i] == id;
                    assert(ids[i] == id);
                } else {
                    assert(ids[ids.len() - 1] == id);
                }
            }
        }
    }
}

/// Whether `ids` names `id`.
fn names(ids: &VecDeque<EntityId>, id: EntityId) -> (found: bool)
    ensures
        found == ids@.contains(id),
{
    let mut i: usize = 0;
    while i < ids.len()
        invariant
            i <= ids@.len(),
            forall|j: int| 0 <= j < i ==> ids@[j] != id,
        decreases ids@.len() - i,
    {
        if ids[i] == id {
            return true;
        }
        i = i + 1;
    }
    false
}

/// The entities that the executor is to look at: those whose queue changed,
/// then those that a notice names, each once.
pub fn creatures_to_check(world: &World) -> (creature_ids: VecDeque<EntityId>)
    ensures
        creature_ids@ == without_repeats(world@.changed + named_by(world@.task_events)),
{
    let ghost all = world@.changed + named_by(world@.task_events);
    let mut creature_ids: VecDeque<EntityId> = VecDeque::new();
    let mut i: usize = 0;
    assert(all.take(0) =~= Seq::<EntityId>::empty());
    while i < world.changed.len()
        invariant
            i <= world.changed@.len(),
            all == world@.changed + named_by(world@.task_events),
            creature_ids@ == without_repeats(all.take(i as int)),
        decreases world.changed@.len() - i,
    {
        let id: EntityId = world.changed[i];
        assert(all.take(i + 1).drop_last() =~= all.take(i as int));
        if !names(&creature_ids, id) {
            creature_ids.push_back(id);
        }
        i = i + 1;
    }
    let changed: usize = i;
    let mut k: usize = 0;
    while k < world.task_events.len()
        invariant
            k <= world.task_events@.len(),
            changed == world.changed@.len(),
            all == world@.changed + named_by(world@.task_events),
            creature_ids@ == without_repeats(all.take(changed + k)),
        decreases world.task_events@.len() - k,
    {
        let id: EntityId = world.task_events[k].0;
        assert(all.take(changed + k + 1).drop_last() =~= all.take(changed + k));
        if !names(&creature_ids, id) {
            creature_ids.push_back(id);
        }
        k = k + 1;
    }
    assert(all.take(changed + k) =~= all);
    creature_ids
}

/// The world without its notices: the executor takes them all at the start of a pass.
pub open spec fn with_notices_taken(w: WorldView) -> WorldView {
    WorldView { changed: Seq::empty(), task_events: Seq::empty(), ..w }
}

/// The world after the executor has looked at the entities of `ids` in
/// order, each one that got a task done going to the end of the line for
/// another look, until the line is empty. The `n`-th look in all sends an
/// aimless walk to the `n`-th point of `wander_to`.
pub open spec fn passed(w: WorldView, ids: Seq<EntityId>, wander_to: Seq<Point>) -> WorldView
    decreases total_tasks(w.agents), ids.len(),
{
    if ids.len() == 0 {
        w
    } else {
        let (after, again) = checked(w, ids[0], wander_to[0]);
        proof {
            lemma_checked_follows(w, ids[0], wander_to[0]);
        }
        passed(
            after,
            if again {
                ids.skip(1).push(ids[0])
            } else {
                ids.skip(1)
            },
            wander_to.skip(1),
        )
    }
}

/// One pass of the executor. It looks at every entity whose queue changed or
/// that a notice names; whoever gets a task done is looked at again in the
/// same pass, after the others that wait. The pass ends when nobody is left
/// to look at, and then no notice is left either.
pub fn check_tasks(world: &mut World)
    requires
        old(world).wf(),
    ensures
        final(world).wf(),
        exists|wander_to: Seq<Point>|
            {
                &&& forall|n: int|
                    0 <= n < wander_to.len() ==> old(world)@.sim_params.world_rect.contains(
                        #[trigger] wander_to[n],
                    )
                &&& final(world)@ == #[trigger] passed(
                    with_notices_taken(old(world)@),
                    without_repeats(old(world)@.changed + named_by(old(world)@.task_events)),
                    wander_to,
                )
            },
        follows(old(world)@, final(world)@),
        final(world)@.changed.len() == 0,
        final(world)@.task_events.len() == 0,
{
    let mut creature_ids: VecDeque<EntityId> = creatures_to_check(world);
    world.changed.clear();
    world.task_events.clear();
    assert(world@.agents =~= old(world)@.agents);
    assert(world@ == with_notices_taken(old(world)@));
    let ghost start = world@;
    let ghost line = creature_ids@;
    let ghost mut used: Seq<Point> = Seq::empty();
    proof {
        lemma_follows_itself(old(world)@);
        assert forall|rest: Seq<Point>| #[trigger]
            passed(start, line, used + rest) == passed(world@, creature_ids@, rest) by {
            assert(used + rest =~= rest);
        }
    }
    loop
        invariant
            world.wf(),
            follows(old(world)@, world@),
            world@.changed.len() == 0,
            world@.task_events.len() == 0,
            world@.sim_params == old(world)@.sim_params,
            forall|n: int|
                0 <= n < used.len() ==> old(world)@.sim_params.world_rect.contains(
                    #[trigger] used[n],
                ),
            forall|rest: Seq<Point>| #[trigger]
                passed(start, line, used + rest) == passed(world@, creature_ids@, rest),
        ensures
            world.wf(),
            follows(old(world)@, world@),
            world@.changed.len() == 0,
            world@.task_events.len() == 0,
            forall|n: int|
                0 <= n < used.len() ==> old(world)@.sim_params.world_rect.contains(
                    #[trigger] used[n],
                ),
            world@ == passed(start, line, used),
        decreases total_tasks(world@.agents), creature_ids@.len(),
    {
        let ghost before = world@;
        let ghost waiting = creature_ids@;
        match creature_ids.pop_front() {
            None => {
                proof {
                    assert(used + Seq::<Point>::empty() =~= used);
                    assert(passed(start, line, used + Seq::<Point>::empty()) == passed(
                        world@,
                        creature_ids@,
                        Seq::<Point>::empty(),
                    ));
                }
                break ;
            },
            Some(creature_id) => {
                let again: bool = check_task(world, creature_id);
                if again {
                    creature_ids.push_back(creature_id);
                }
                proof {
                    let wander_to = choose|wander_to: Point|
                        before.sim_params.world_rect.contains(wander_to) && (world@, again)
                            == #[trigger] checked(before, creature_id, wander_to);
                    lemma_checked_follows(before, creature_id, wander_to);
                    lemma_follows_twice(old(world)@, before, world@);
                    let longer = used.push(wander_to);
                    assert(creature_ids@ =~= if again {
                        waiting.skip(1).push(waiting[0])
                    } else {
                        waiting.skip(1)
                    });
                    assert forall|rest: Seq<Point>| #[trigger]
                        passed(start, line, longer + rest) == passed(
                            world@,
                            creature_ids@,
                            rest,
                        ) by {
                        let whole = seq![wander_to] + rest;
                        assert(used + whole =~= longer + rest);
                        assert(whole.skip(1) =~= rest);
                        assert(whole[0] == wander_to);
                        assert(passed(start, line, used + whole) == passed(
                            before,
                            waiting,
                            whole,
                        ));
                    }
                    used = longer;
                }
            },
        }
    }
}

/// Whether an entity is to be given something to do: a creature that has no
/// queue, or an empty one.
pub open spec fn lacks_intent(agent: AgentView) -> bool {
    agent.creature is Some && agent.task_count() == 0
}

/// An entity with a fresh queue that holds the one task to wander.
pub open spec fn with_intent(agent: AgentView) -> AgentView {
    AgentView { tasks: Some(seq![Task::WanderAimlessly]), ..agent }
}

/// The world after slot `i` has been seen to: a creature that lacks intent
/// gets its fresh queue and is listed as changed.
pub open spec fn intent_step(w: WorldView, i: int) -> WorldView {
    match w.agents[i] {
        Some(agent) => if lacks_intent(agent) {
            WorldView {
                agents: w.agents.update(i, Some(with_intent(agent))),
                changed: w.changed.push(EntityId(i as usize)),
                ..w
            }
        } else {
            w
        },
        None => w,
    }
}

/// The world after the first `n` slots, in order, have been seen to.
pub open spec fn assign_intent_upto(w: WorldView, n: nat) -> WorldView
    decreases n,
{
    if n == 0 {
        w
    } else {
        intent_step(assign_intent_upto(w, (n - 1) as nat), n - 1)
    }
}

/// Gives every creature that has nothing to do a fresh queue with the one
/// task to wander, so that the executor finds no creature without a task.
pub fn assign_intent(world: &mut World)
    requires
        old(world).wf(),
    ensures
        final(world).wf(),
        final(world)@ == assign_intent_upto(old(world)@, old(world)@.agents.len()),
        final(world)@.agents.len() == old(world)@.agents.len(),
        final(world)@.sim_params == old(world)@.sim_params,
        final(world)@.stockpile == old(world)@.stockpile,
        final(world)@.storage == old(world)@.storage,
        final(world)@.task_events == old(world)@.task_events,
        forall|i: int|
            0 <= i < old(world)@.agents.len() ==> #[trigger] final(world)@.agents[i] == match old(
                world,
            )@.agents[i] {
                Some(agent) => Some(
                    if lacks_intent(agent) {
                        with_intent(agent)
                    } else {
                        agent
                    },
                ),
                None => None::<AgentView>,
            },
        forall|i: int|
            0 <= i < final(world)@.agents.len() ==> (#[trigger] final(world)@.agents[i] matches Some(
                agent,
            ) ==> !lacks_intent(agent)),
{
    let n: usize = world.agents.len();
    let mut i: usize = 0;
    while i < n
        invariant
            i <= n,
            n == world.agents.len(),
            n == old(world)@.agents.len(),
            world.wf(),
            world@ == assign_intent_upto(old(world)@, i as nat),
            world@.sim_params == old(world)@.sim_params,
            world@.stockpile == old(world)@.stockpile,
            world@.storage == old(world)@.storage,
            world@.task_events == old(world)@.task_events,
            forall|j: int|
                0 <= j < i ==> #[trigger] world@.agents[j] == match old(world)@.agents[j] {
                    Some(agent) => Some(
                        if lacks_intent(agent) {
                            with_intent(agent)
                        } else {
                            agent
                        },
                    ),
                    None => None::<AgentView>,
                },
            forall|j: int| i <= j < n ==> #[trigger] world@.agents[j] == old(world)@.agents[j],
        decreases n - i,
    {
        let ghost before = world@;
        let mut assigned: bool = false;
        match &mut world.agents[i] {
            Some(agent) => {
                if agent.creature.is_some() {
                    let idle: bool = match &agent.task_que {
                        Some(tasks) => tasks.0.len() == 0,
                        None => true,
                    };
                    if idle {
                        let mut tasks: VecDeque<Task> = VecDeque::new();
                        tasks.push_back(Task::WanderAimlessly);
                        assert(tasks@ =~= seq![Task::WanderAimlessly]);
                        agent.task_que = Some(TaskQue(tasks));
                        assigned = true;
                    }
                }
            },
            None => {},
        }
        if assigned {
            world.changed.push(EntityId(i));
        }
        assert(world@.agents =~= intent_step(before, i as int).agents);
        assert(world@ == intent_step(before, i as int));
        i = i + 1;
    }
    assert forall|i: int| 0 <= i < world@.agents.len() implies (
    #[trigger] world@.agents[i] matches Some(agent) ==> !lacks_intent(agent)) by {
        assert(seq![Task::WanderAimlessly].len() == 1);
    }
}

} // verus!
