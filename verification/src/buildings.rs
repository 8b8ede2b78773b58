//! Buildings: houses, and the stockpile where the village keeps its wood.

use vstd::prelude::*;
use crate::behaviour::Walker;
use crate::physics::{Mobile, PhysicalObject, Point, Speed};
use crate::village::{LivingSpace, LivingSpaceAvailableEvent};
use crate::world::{Agent, AgentView, EntityId, World, WorldView};

verus! {

/// A building as it comes into the world: it stands at `position` and never moves.
pub open spec fn building_at(position: Point) -> AgentView {
    AgentView {
        creature: None,
        tree: None,
        physical_object: PhysicalObject { position },
        mobile: Mobile(Speed(0)),
        walker: Walker { acceleration: 0, max_speed: 0 },
        travel: None,
        tasks: None,
        carrier: None,
    }
}

/// Puts a house for `max_people` at `position`. It comes empty, and with the
/// notice that it has room.
pub fn spawn_house(world: &mut World, position: Point, max_people: u32) -> (house: (
    EntityId,
    LivingSpace,
    LivingSpaceAvailableEvent,
))
    requires
        old(world).wf(),
        position.in_bounds(),
    ensures
        final(world).wf(),
        house.0.0 == old(world)@.agents.len(),
        house.1 == (LivingSpace { max_people, current_people: 0 }),
        house.2 == (LivingSpaceAvailableEvent { residence_id: house.0 }),
        final(world)@ == old(world)@.with_new(building_at(position)),
{
    let residence_id = world.spawn(
        Agent {
            creature: None,
            tree: None,
            physical_object: PhysicalObject { position },
            mobile: Mobile(Speed(0)),
            walker: Walker { acceleration: 0, max_speed: 0 },
            travel: None,
            task_que: None,
            carrier: None,
        },
    );
    (
        residence_id,
        LivingSpace { max_people, current_people: 0 },
        LivingSpaceAvailableEvent { residence_id },
    )
}

/// Puts the stockpile at `position`. A world has one stockpile: this is for a
/// world that has none yet.
pub fn spawn_stockpile(world: &mut World, position: Point) -> (id: EntityId)
    requires
        old(world).wf(),
        old(world)@.stockpile is None,
        position.in_bounds(),
    ensures
        final(world).wf(),
        id.0 == old(world)@.agents.len(),
        final(world)@ == (WorldView {
            stockpile: Some(id),
            ..old(world)@.with_new(building_at(position))
        }),
{
    let id = world.spawn(
        Agent {
            creature: None,
            tree: None,
            physical_object: PhysicalObject { position },
            mobile: Mobile(Speed(0)),
            walker: Walker { acceleration: 0, max_speed: 0 },
            travel: None,
            task_que: None,
            carrier: None,
        },
    );
    world.stockpile = Some(id);
    assert(world@.agents =~= old(world)@.with_new(building_at(position)).agents);
    id
}

} // verus!
