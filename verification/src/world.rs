//! The registry of everything that has a position: villagers, trees, the stockpile.

use vstd::prelude::*;
use crate::behaviour::{CheckTaskEvent, Task, TravelToPosition, TravelToTarget, Walker};
use crate::creatures::Creature;
use crate::physics::{Mobile, PhysicalObject, Point};
use crate::plants::Tree;
use crate::tree_cutting::{ResourceCarrier, ResourceStorage, TaskQue};
use crate::world_gen::SimParams;

verus! {

/// The handle of an entity: its slot in the registry. A handle is never given
/// out twice, so one that outlives its entity simply finds nothing.
#[derive(Clone, Copy, PartialEq, Eq, Structural, Debug, Hash)]
pub struct EntityId(pub usize);

/// A travel order: an entity has at most one.
#[derive(Clone, Copy, PartialEq, Eq, Structural, Debug)]
pub enum Travel {
    ToPosition(TravelToPosition),
    ToTarget(TravelToTarget),
}

impl Travel {
    /// Every position the order names is in bounds, and a followed target
    /// with a running countdown has been seen.
    pub open spec fn wf(self) -> bool {
        match self {
            Travel::ToPosition(order) => order.position.in_bounds(),
            Travel::ToTarget(order) => order.wf(),
        }
    }
}

impl Travel {
    /// Computes `wf`.
    pub fn is_wf(&self) -> (ok: bool)
        ensures
            ok == self.wf(),
    {
        match self {
            Travel::ToPosition(order) => order.position.is_in_bounds(),
            Travel::ToTarget(order) => order.is_wf(),
        }
    }
}

/// An entity: a position, what it needs to walk, and what it may have besides.
/// A tree or a building is an entity that never gets a travel order.
pub struct Agent {
    pub creature: Option<Creature>,
    pub tree: Option<Tree>,
    pub physical_object: PhysicalObject,
    pub mobile: Mobile,
    pub walker: Walker,
    pub travel: Option<Travel>,
    pub task_que: Option<TaskQue>,
    pub carrier: Option<ResourceCarrier>,
}

/// An entity as contracts see it: the task queue is a sequence.
pub struct AgentView {
    pub creature: Option<Creature>,
    pub tree: Option<Tree>,
    pub physical_object: PhysicalObject,
    pub mobile: Mobile,
    pub walker: Walker,
    pub travel: Option<Travel>,
    pub tasks: Option<Seq<Task>>,
    pub carrier: Option<ResourceCarrier>,
}

impl View for Agent {
    type V = AgentView;

    open spec fn view(&self) -> AgentView {
        AgentView {
            creature: self.creature,
            tree: self.tree,
            physical_object: self.physical_object,
            mobile: self.mobile,
            walker: self.walker,
            travel: self.travel,
            tasks: match self.task_que {
                Some(que) => Some(que@),
                None => None,
            },
            carrier: self.carrier,
        }
    }
}

impl Agent {
    /// Whether the entity is sound: see `AgentView::wf`.
    pub fn is_wf(&self) -> (ok: bool)
        ensures
            ok == self@.wf(),
    {
        let travel_ok: bool = match &self.travel {
            Some(order) => order.is_wf(),
            None => true,
        };
        let carrier_ok: bool = match &self.carrier {
            Some(carrier) => carrier.is_wf(),
            None => true,
        };
        self.physical_object.position.is_in_bounds() && travel_ok && carrier_ok
    }
}

impl AgentView {
    /// The position is in bounds, the travel order is sound, the load fits.
    pub open spec fn wf(self) -> bool {
        &&& self.physical_object.position.in_bounds()
        &&& self.travel matches Some(order) ==> order.wf()
        &&& self.carrier matches Some(carrier) ==> carrier.wf()
    }

    /// The number of tasks that wait.
    pub open spec fn task_count(self) -> nat {
        match self.tasks {
            Some(tasks) => tasks.len(),
            None => 0,
        }
    }
}

/// The view of a registry slot.
pub open spec fn slot_view(slot: Option<Agent>) -> Option<AgentView> {
    match slot {
        Some(agent) => Some(agent@),
        None => None,
    }
}

/// The number of tasks that wait in a registry slot.
pub open spec fn slot_tasks(slot: Option<AgentView>) -> nat {
    match slot {
        Some(agent) => agent.task_count(),
        None => 0,
    }
}

/// The number of tasks that wait in all the slots together.
pub open spec fn total_tasks(agents: Seq<Option<AgentView>>) -> nat
    decreases agents.len(),
{
    if agents.len() == 0 {
        0
    } else {
        total_tasks(agents.drop_last()) + slot_tasks(agents.last())
    }
}

/// Replacing one slot changes the total by the difference of the two slots.
pub proof fn lemma_total_tasks_update(agents: Seq<Option<AgentView>>, i: int, slot: Option<AgentView>)
    requires
        0 <= i < agents.len(),
    ensures
        total_tasks(agents.update(i, slot)) + slot_tasks(agents[i]) == total_tasks(agents)
            + slot_tasks(slot),
    decreases agents.len(),
{
    let updated = agents.update(i, slot);
    if i == agents.len() - 1 {
        assert(updated.drop_last() =~= agents.drop_last());
    } else {
        assert(updated.drop_last() =~= agents.drop_last().update(i, slot));
        lemma_total_tasks_update(agents.drop_last(), i, slot);
    }
}

/// The whole simulation: its bounds, its entities, the one store and where it
/// stands, and the notices that wait for the task executor.
pub struct World {
    pub sim_params: SimParams,
    pub agents: Vec<Option<Agent>>,
    pub stockpile: Option<EntityId>,
    pub storage: ResourceStorage,
    pub changed: Vec<EntityId>,
    pub task_events: Vec<CheckTaskEvent>,
}

/// The simulation as contracts see it.
pub struct WorldView {
    pub sim_params: SimParams,
    pub agents: Seq<Option<AgentView>>,
    pub stockpile: Option<EntityId>,
    pub storage: ResourceStorage,
    pub changed: Seq<EntityId>,
    pub task_events: Seq<CheckTaskEvent>,
}

impl View for World {
    type V = WorldView;

    open spec fn view(&self) -> WorldView {
        WorldView {
            sim_params: self.sim_params,
            agents: Seq::new(self.agents@.len(), |i: int| slot_view(self.agents@[i])),
            stockpile: self.stockpile,
            storage: self.storage,
            changed: self.changed@,
            task_events: self.task_events@,
        }
    }
}

impl WorldView {
    /// The bounds of the world are usable and every entity is sound.
    pub open spec fn wf(self) -> bool {
        &&& self.sim_params.world_rect.wf()
        &&& forall|i: int|
            0 <= i < self.agents.len() ==> (#[trigger] self.agents[i] matches Some(agent)
                ==> agent.wf())
    }

    /// The entity that `id` names, if it is still there.
    pub open spec fn get(self, id: EntityId) -> Option<AgentView> {
        if id.0 < self.agents.len() {
            self.agents[id.0 as int]
        } else {
            None
        }
    }

    /// Whether `id` names an entity that is still there.
    pub open spec fn has(self, id: EntityId) -> bool {
        self.get(id) is Some
    }

    /// The position of the entity that `id` names, if it is still there.
    pub open spec fn position_of(self, id: EntityId) -> Option<Point> {
        match self.get(id) {
            Some(agent) => Some(agent.physical_object.position),
            None => None,
        }
    }

    /// The world with `agent` in the slot of `id`.
    pub open spec fn with_agent(self, id: EntityId, agent: AgentView) -> WorldView {
        WorldView { agents: self.agents.update(id.0 as int, Some(agent)), ..self }
    }

    /// The world without the entity that `id` names.
    pub open spec fn without(self, id: EntityId) -> WorldView {
        if id.0 < self.agents.len() {
            WorldView { agents: self.agents.update(id.0 as int, None), ..self }
        } else {
            self
        }
    }

    /// The world with one more entity, in a new last slot.
    pub open spec fn with_new(self, agent: AgentView) -> WorldView {
        WorldView { agents: self.agents.push(Some(agent)), ..self }
    }
}

impl World {
    /// The world is well formed.
    pub open spec fn wf(&self) -> bool {
        self@.wf()
    }

    /// Computes `wf`.
    pub fn is_wf(&self) -> (ok: bool)
        ensures
            ok == self.wf(),
    {
        if !self.sim_params.world_rect.is_wf() {
            return false;
        }
        let mut i: usize = 0;
        while i < self.agents.len()
            invariant
                i <= self.agents@.len(),
                self.sim_params.world_rect.wf(),
                forall|j: int|
                    0 <= j < i ==> (#[trigger] self@.agents[j] matches Some(agent) ==> agent.wf()),
            decreases self.agents@.len() - i,
        {
            let sound: bool = match &self.agents[i] {
                Some(agent) => agent.is_wf(),
                None => true,
            };
            if !sound {
                assert(self@.agents[i as int] matches Some(agent) && !agent.wf());
                return false;
            }
            i = i + 1;
        }
        true
    }

    /// An empty world within the given bounds.
    pub fn new(sim_params: SimParams) -> (world: World)
        requires
            sim_params.world_rect.wf(),
        ensures
            world.wf(),
            world@ == (WorldView {
                sim_params,
                agents: Seq::empty(),
                stockpile: None,
                storage: ResourceStorage { wood: 0 },
                changed: Seq::empty(),
                task_events: Seq::empty(),
            }),
    {
        let world = World {
            sim_params,
            agents: Vec::new(),
            stockpile: None,
            storage: ResourceStorage { wood: 0 },
            changed: Vec::new(),
            task_events: Vec::new(),
        };
        assert(world@.agents =~= Seq::empty());
        world
    }

    /// Puts `agent` into the world and returns its handle.
    pub fn spawn(&mut self, agent: Agent) -> (id: EntityId)
        requires
            old(self).wf(),
            agent@.wf(),
        ensures
            final(self).wf(),
            final(self)@ == old(self)@.with_new(agent@),
            id.0 == old(self)@.agents.len(),
            final(self)@.get(id) == Some(agent@),
    {
        let id = EntityId(self.agents.len());
        self.agents.push(Some(agent));
        assert(self@.agents =~= old(self)@.agents.push(Some(agent@)));
        id
    }

    /// Takes the entity that `id` names out of the world, if it is there.
    pub fn despawn(&mut self, id: EntityId)
        requires
            old(self).wf(),
        ensures
            final(self).wf(),
            final(self)@ == old(self)@.without(id),
    {
        if id.0 < self.agents.len() {
            self.agents[id.0] = None;
            assert(self@.agents =~= old(self)@.agents.update(id.0 as int, None));
        }
    }

    /// Whether `id` names an entity that is still there.
    pub fn contains(&self, id: EntityId) -> (found: bool)
        ensures
            found == self@.has(id),
    {
        if id.0 < self.agents.len() {
            self.agents[id.0].is_some()
        } else {
            false
        }
    }

    /// The position of the entity that `id` names, if it is still there.
    pub fn position_of(&self, id: EntityId) -> (position: Option<Point>)
        ensures
            position == self@.position_of(id),
    {
        if id.0 < self.agents.len() {
            match &self.agents[id.0] {
                Some(agent) => Some(agent.physical_object.position),
                None => None,
            }
        } else {
            None
        }
    }
}

} // verus!
