//! A village of creatures that walk, fell trees and carry wood home, one
//! tick at a time.

pub mod behaviour;
pub mod buildings;
pub mod creatures;
pub mod hexagon;
pub mod physics;
pub mod plants;
pub mod residence;
pub mod time_cycle;
pub mod tree_cutting;
pub mod village;
pub mod world;
pub mod world_gen;

use vstd::prelude::*;
use crate::behaviour::{go_to_position, go_to_position_upto, go_to_target, go_to_target_upto};
use crate::physics::Point;
use crate::tree_cutting::{
    assign_intent, assign_intent_upto, check_tasks, follows, lacks_intent, named_by, passed,
    with_notices_taken, without_repeats,
};
use crate::world::{World, WorldView};

verus! {

/// The world as the executor finds it in a tick of `delta` milliseconds:
/// everybody who travels has made a step, first those who follow a target,
/// then those who walk to a fixed point, and every creature that had nothing
/// to do has been given the task to wander.
pub open spec fn before_tasks(w: WorldView, delta: u32) -> WorldView {
    let n = w.agents.len();
    assign_intent_upto(go_to_position_upto(go_to_target_upto(w, delta, n), delta, n), n)
}

/// One tick of `delta` milliseconds: travel, then the hand-out of tasks to
/// the idle, then one pass of the executor. The executor never finds a
/// creature without a task, and leaves no notice behind.
pub fn simulation_step(world: &mut World, delta: u32)
    requires
        old(world).wf(),
    ensures
        final(world).wf(),
        exists|wander_to: Seq<Point>|
            {
                &&& forall|n: int|
                    0 <= n < wander_to.len() ==> before_tasks(
                        old(world)@,
                        delta,
                    ).sim_params.world_rect.contains(#[trigger] wander_to[n])
                &&& final(world)@ == #[trigger] passed(
                    with_notices_taken(before_tasks(old(world)@, delta)),
                    without_repeats(
                        before_tasks(old(world)@, delta).changed + named_by(
                            before_tasks(old(world)@, delta).task_events,
                        ),
                    ),
                    wander_to,
                )
            },
        follows(before_tasks(old(world)@, delta), final(world)@),
        forall|i: int|
            0 <= i < before_tasks(old(world)@, delta).agents.len() ==> (#[trigger] before_tasks(
                old(world)@,
                delta,
            ).agents[i] matches Some(agent) ==> !lacks_intent(agent)),
        final(world)@.changed.len() == 0,
        final(world)@.task_events.len() == 0,
        final(world)@.sim_params == old(world)@.sim_params,
        final(world)@.stockpile == old(world)@.stockpile,
        final(world)@.agents.len() == old(world)@.agents.len(),
        final(world)@.storage.wood >= old(world)@.storage.wood,
{
    go_to_target(world, delta);
    go_to_position(world, delta);
    assign_intent(world);
    check_tasks(world);
}

} // verus!
