//! Villagers: who lives in the village and how one comes into the world.

use vstd::prelude::*;
use std::collections::VecDeque;
use crate::behaviour::{Task, Walker};
use crate::creatures::{Creature, CreatureActivity};
use crate::physics::{Mobile, PhysicalObject, Point, Speed, STEPS_PER_UNIT};
use crate::tree_cutting::TaskQue;
use crate::village::VillageTask;
use crate::world::{Agent, AgentView, EntityId, World, WorldView};

verus! {

/// Says that a creature has joined the village.
#[derive(Clone, Copy, PartialEq, Eq, Structural, Debug)]
pub struct CreatureJoinedVillageEvent(pub EntityId);

/// Says that a creature has left the village.
#[derive(Clone, Copy, PartialEq, Eq, Structural, Debug)]
pub struct CreatureLeftVillageEvent(pub EntityId);

/// Says that a villager has moved into a residence.
#[derive(Clone, Copy, PartialEq, Eq, Structural, Debug)]
pub struct VillagerSettledEvent {
    pub resident: EntityId,
    pub residence: EntityId,
}

/// Where a creature lives.
#[derive(Clone, Copy, PartialEq, Eq, Structural, Debug)]
pub struct Resident {
    pub residence_id: EntityId,
}

/// What the village has a villager do, if anything.
pub struct Villager {
    pub task: Option<VillageTask>,
}

/// Speed that a villager gains in one millionth of an hour.
pub const VILLAGER_ACCELERATION: u64 = 15;

/// Top speed of a villager: three distance units a move.
pub const VILLAGER_MAX_SPEED: u64 = 3 * STEPS_PER_UNIT;

/// A villager as it comes into the world: a creature that stands at
/// `position`, walks like a villager, carries nothing and means to wander.
pub open spec fn villager(position: Point, name: &'static str) -> AgentView {
    AgentView {
        creature: Some(Creature { name, activity: CreatureActivity::Standing }),
        tree: None,
        physical_object: PhysicalObject { position },
        mobile: Mobile(Speed(0)),
        walker: Walker { acceleration: VILLAGER_ACCELERATION, max_speed: VILLAGER_MAX_SPEED },
        travel: None,
        tasks: Some(seq![Task::WanderAimlessly]),
        carrier: None,
    }
}

/// Puts a villager named `name` at `position` and lists it as changed, so
/// that the executor looks at it in its next pass.
pub fn spawn_villager(world: &mut World, position: Point, name: &'static str) -> (id: EntityId)
    requires
        old(world).wf(),
        position.in_bounds(),
    ensures
        final(world).wf(),
        id.0 == old(world)@.agents.len(),
        final(world)@ == (WorldView {
            changed: old(world)@.changed.push(id),
            ..old(world)@.with_new(villager(position, name))
        }),
{
    let mut tasks: VecDeque<Task> = VecDeque::new();
    tasks.push_back(Task::WanderAimlessly);
    assert(tasks@ =~= seq![Task::WanderAimlessly]);
    let id = world.spawn(
        Agent {
            creature: Some(Creature { name, activity: CreatureActivity::Standing }),
            tree: None,
            physical_object: PhysicalObject { position },
            mobile: Mobile(Speed(0)),
            walker: Walker { acceleration: VILLAGER_ACCELERATION, max_speed: VILLAGER_MAX_SPEED },
            travel: None,
            task_que: Some(TaskQue(tasks)),
            carrier: None,
        },
    );
    world.changed.push(id);
    assert(world@.agents =~= old(world)@.with_new(villager(position, name)).agents);
    id
}

} // verus!
