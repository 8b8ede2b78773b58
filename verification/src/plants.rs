//! Trees: what marks one and how one comes into the world.

use vstd::prelude::*;
use crate::behaviour::Walker;
use crate::physics::{Mobile, PhysicalObject, Point, Speed};
use crate::world::{Agent, AgentView, EntityId, World};

verus! {

/// Marks an entity as a tree.
#[derive(Clone, Copy, PartialEq, Eq, Structural, Debug)]
pub struct Tree;

/// How big a plant is and how big it can get, in millionths of its full size.
#[derive(Clone, Copy, PartialEq, Eq, Structural, Debug)]
pub struct PlantSize {
    pub current: u64,
    pub max: u64,
}

/// The wood that a plant holds.
#[derive(Clone, Copy, PartialEq, Eq, Structural, Debug)]
pub struct WoodResource(pub u64);

/// What a plant grows in a millisecond: a tenth of its full size a second.
pub const GROWTH_PER_MILLISECOND: u64 = 100;

impl PlantSize {
    /// The size after `delta` milliseconds of growth: a plant below its full
    /// size grows steadily and stops at it; any other stays as it is.
    pub open spec fn grown(self, delta: u32) -> PlantSize {
        if self.current >= self.max {
            self
        } else if self.current + GROWTH_PER_MILLISECOND * delta >= self.max {
            PlantSize { current: self.max, max: self.max }
        } else {
            PlantSize {
                current: (self.current + GROWTH_PER_MILLISECOND * delta) as u64,
                max: self.max,
            }
        }
    }
}

/// Lets a plant grow for `delta` milliseconds. While it grows, it holds as
/// much wood as it is big.
pub fn set_tree_size_and_resource(
    delta: u32,
    plant_size: &mut PlantSize,
    wood_res: &mut WoodResource,
)
    ensures
        *final(plant_size) == old(plant_size).grown(delta),
        final(wood_res).0 == if old(plant_size).current < old(plant_size).max {
            final(plant_size).current
        } else {
            old(wood_res).0
        },
{
    if plant_size.current < plant_size.max {
        let growth: u64 = GROWTH_PER_MILLISECOND * (delta as u64);
        let room: u64 = plant_size.max - plant_size.current;
        if growth >= room {
            plant_size.current = plant_size.max;
        } else {
            plant_size.current = plant_size.current + growth;
        }
        wood_res.0 = plant_size.current;
    }
}

/// A tree as it comes into the world: it stands at `pos` and never moves.
pub open spec fn tree_at(pos: Point) -> AgentView {
    AgentView {
        creature: None,
        tree: Some(Tree),
        physical_object: PhysicalObject { position: pos },
        mobile: Mobile(Speed(0)),
        walker: Walker { acceleration: 0, max_speed: 0 },
        travel: None,
        tasks: None,
        carrier: None,
    }
}

/// Puts a tree at `pos`.
pub fn spawn_tree(world: &mut World, pos: Point) -> (id: EntityId)
    requires
        old(world).wf(),
        pos.in_bounds(),
    ensures
        final(world).wf(),
        id.0 == old(world)@.agents.len(),
        final(world)@ == old(world)@.with_new(tree_at(pos)),
{
    world.spawn(
        Agent {
            creature: None,
            tree: Some(Tree),
            physical_object: PhysicalObject { position: pos },
            mobile: Mobile(Speed(0)),
            walker: Walker { acceleration: 0, max_speed: 0 },
            travel: None,
            task_que: None,
            carrier: None,
        },
    )
}

} // verus!
