//! Movement: the speed rule, the two kinds of travel order and their step.

use vstd::prelude::*;
use crate::physics::{
    get_point_between, lemma_step_arrives_iff_reached, lemma_step_stays_on_the_way,
    point_between, Mobile, PhysicalObject, Point, Speed,
};
use crate::world::{AgentView, EntityId, Travel, World, WorldView};

verus! {

/// Milliseconds between two looks at where a followed target is: 3000 seconds.
pub const RECHECK_POSITION_INTERVAL: u64 = 3_000_000;

/// Simulated time, in millionths of an hour, that passes in one millisecond.
pub const GAME_HOUR: u64 = 36;

/// How an entity walks: speed gained per unit of simulated time, and top speed.
#[derive(Clone, Copy, PartialEq, Eq, Structural, Debug)]
pub struct Walker {
    pub acceleration: u64,
    pub max_speed: u64,
}

/// Asks the task executor to look at an entity's front task again.
#[derive(Clone, Copy, PartialEq, Eq, Structural, Debug)]
pub struct CheckTaskEvent(pub EntityId);

/// An order to walk to wherever another entity was last seen.
#[derive(Clone, Copy, PartialEq, Eq, Structural, Debug)]
pub struct TravelToTarget {
    pub time_to_next_location_check: u64,
    pub target_id: EntityId,
    pub last_target_position: Option<Point>,
}

/// An order to walk to a fixed point.
#[derive(Clone, Copy, PartialEq, Eq, Structural, Debug)]
pub struct TravelToPosition {
    pub position: Point,
}

/// How a step of travel ended.
#[derive(Clone, Copy, PartialEq, Eq, Structural, Debug)]
pub enum TravelResult {
    Arrived,
    Traveling,
}

/// What an entity intends to do.
#[derive(Clone, Copy, PartialEq, Eq, Structural, Debug)]
pub enum Task {
    CutTree(EntityId),
    PickUpWood(u64),
    DropOffResources,
    WanderAimlessly,
}

impl TravelToTarget {
    /// A running countdown has a position to walk to, and that position is in bounds.
    pub open spec fn wf(self) -> bool {
        &&& self.time_to_next_location_check != 0 ==> self.last_target_position is Some
        &&& self.last_target_position matches Some(position) ==> position.in_bounds()
    }

    /// Computes `wf`.
    pub fn is_wf(&self) -> (ok: bool)
        ensures
            ok == self.wf(),
    {
        match self.last_target_position {
            Some(position) => position.is_in_bounds(),
            None => self.time_to_next_location_check == 0,
        }
    }

    /// The order after one tick: at countdown zero the target's position is
    /// sampled and the countdown restarts; else the countdown runs down, not below zero.
    pub open spec fn updated(
        self,
        new_position: Point,
        recheck_position_interval: u64,
        elapsed: u64,
    ) -> TravelToTarget {
        if self.time_to_next_location_check == 0 {
            TravelToTarget {
                time_to_next_location_check: recheck_position_interval,
                target_id: self.target_id,
                last_target_position: Some(new_position),
            }
        } else if elapsed >= self.time_to_next_location_check {
            TravelToTarget { time_to_next_location_check: 0, ..self }
        } else {
            TravelToTarget {
                time_to_next_location_check: (self.time_to_next_location_check
                    - elapsed) as u64,
                ..self
            }
        }
    }

    /// Lets one tick pass. The cached position changes only at countdown zero.
    pub fn update(
        &mut self,
        new_position: Point,
        recheck_position_interval: u64,
        elapsed: u64,
    )
        ensures
            *final(self) == old(self).updated(
                new_position,
                recheck_position_interval,
                elapsed,
            ),
            old(self).time_to_next_location_check != 0 ==> final(self).last_target_position == old(
                self,
            ).last_target_position,
            final(self).target_id == old(self).target_id,
    {
        if self.time_to_next_location_check == 0 {
            self.time_to_next_location_check = recheck_position_interval;
            self.last_target_position = Some(new_position);
        } else if elapsed >= self.time_to_next_location_check {
            self.time_to_next_location_check = 0;
        } else {
            self.time_to_next_location_check = self.time_to_next_location_check - elapsed;
        }
    }
}

/// The speed after accelerating for `hours`: `speed + acceleration * hours`,
/// capped at the top speed.
pub open spec fn next_speed(speed: u64, walker: Walker, hours: u64) -> u64 {
    if speed + walker.acceleration * hours >= walker.max_speed {
        walker.max_speed
    } else {
        (speed + walker.acceleration * hours) as u64
    }
}

/// Computes `next_speed`.
pub fn accelerate(speed: u64, walker: &Walker, hours: u64) -> (faster: u64)
    ensures
        faster == next_speed(speed, *walker, hours),
        faster <= walker.max_speed,
        speed < walker.max_speed ==> faster >= speed,
{
    proof {
        assert(walker.acceleration * hours <= 0xFFFF_FFFF_FFFF_FFFF * 0xFFFF_FFFF_FFFF_FFFF)
            by (nonlinear_arith)
            requires
                0 <= walker.acceleration <= 0xFFFF_FFFF_FFFF_FFFF,
                0 <= hours <= 0xFFFF_FFFF_FFFF_FFFF,
        ;
        assert(walker.acceleration * hours >= 0) by (nonlinear_arith)
            requires
                0 <= walker.acceleration,
                0 <= hours,
        ;
    }
    let gained: u128 = (walker.acceleration as u128) * (hours as u128);
    let raised: u128 = speed as u128 + gained;
    if raised >= walker.max_speed as u128 {
        walker.max_speed
    } else {
        raised as u64
    }
}

/// One step of travel towards `destination`: the speed rises by the speed
/// rule, the position moves by the new speed, and on landing exactly on the
/// destination the speed drops to zero.
pub fn _go_to_position(
    physical_object: &mut PhysicalObject,
    destination: Point,
    moving: &mut Mobile,
    walker: &Walker,
    hours: u64,
) -> (result: TravelResult)
    requires
        old(physical_object).position.in_bounds(),
        destination.in_bounds(),
    ensures
        final(physical_object).position == point_between(
            old(physical_object).position,
            destination,
            next_speed(old(moving).0.0, *walker, hours) as nat,
        ),
        final(physical_object).position.in_bounds(),
        result is Arrived <==> final(physical_object).position == destination,
        result is Arrived ==> final(moving).0.0 == 0,
        result is Traveling ==> final(moving).0.0 == next_speed(old(moving).0.0, *walker, hours),
        final(moving).0.0 <= walker.max_speed,
        final(physical_object).position.distance_squared_to(destination) <= old(
            physical_object,
        ).position.distance_squared_to(destination),
{
    let speed: u64 = accelerate(moving.0.0, walker, hours);
    proof {
        lemma_step_stays_on_the_way(physical_object.position, destination, speed as nat);
    }
    let reached: Point = get_point_between(physical_object.position, destination, speed);
    physical_object.position = reached;
    if reached == destination {
        moving.0 = Speed(0);
        TravelResult::Arrived
    } else {
        moving.0 = Speed(speed);
        TravelResult::Traveling
    }
}

/// The speed rule: below the top speed, a step raises the speed by exactly
/// `acceleration * hours`, or to the top speed where that would pass it; and
/// no step leaves the speed above the top speed.
pub proof fn lemma_speed_rule(speed: u64, walker: Walker, hours: u64)
    ensures
        next_speed(speed, walker, hours) <= walker.max_speed,
        speed + walker.acceleration * hours <= walker.max_speed ==> next_speed(
            speed,
            walker,
            hours,
        ) == speed + walker.acceleration * hours,
        speed + walker.acceleration * hours > walker.max_speed ==> next_speed(speed, walker, hours)
            == walker.max_speed,
        speed < walker.max_speed ==> speed <= next_speed(speed, walker, hours),
{
    assert(walker.acceleration * hours >= 0) by (nonlinear_arith)
        requires
            walker.acceleration >= 0,
            hours >= 0,
    ;
}

/// A followed target is looked at only when the countdown stands at zero:
/// while it runs, a tick shortens it by the time passed, not below zero, and
/// leaves the cached position as it is; at zero the position is sampled and
/// the countdown starts again.
pub proof fn lemma_target_sampled_at_zero_only(
    order: TravelToTarget,
    new_position: Point,
    recheck_position_interval: u64,
    elapsed: u64,
)
    ensures
        ({
            let after = order.updated(new_position, recheck_position_interval, elapsed);
            &&& after.target_id == order.target_id
            &&& order.time_to_next_location_check != 0 ==> {
                &&& after.last_target_position == order.last_target_position
                &&& after.time_to_next_location_check == if elapsed
                    >= order.time_to_next_location_check {
                    0
                } else {
                    order.time_to_next_location_check - elapsed
                }
            }
            &&& order.time_to_next_location_check == 0 ==> {
                &&& after.last_target_position == Some(new_position)
                &&& after.time_to_next_location_check == recheck_position_interval
            }
        }),
{
}

/// The simulated time that passes in a tick of `delta` milliseconds.
pub open spec fn hours_of(delta: u32) -> u64 {
    (delta * GAME_HOUR) as u64
}

/// An entity after one step of travel towards `destination`, and whether it
/// arrived. On arrival the speed is zero and the travel order is gone.
pub open spec fn stepped(agent: AgentView, destination: Point, hours: u64) -> (AgentView, bool) {
    let speed = next_speed(agent.mobile.0.0, agent.walker, hours);
    let reached = point_between(agent.physical_object.position, destination, speed as nat);
    if reached == destination {
        (
            AgentView {
                physical_object: PhysicalObject { position: reached },
                mobile: Mobile(Speed(0)),
                travel: None,
                ..agent
            },
            true,
        )
    } else {
        (
            AgentView {
                physical_object: PhysicalObject { position: reached },
                mobile: Mobile(Speed(speed)),
                ..agent
            },
            false,
        )
    }
}

/// Arrival is found exactly when the position reached is the destination.
/// With it the speed is zero and the travel order is gone; without it the
/// order stays and the speed is what the speed rule gives. The step moves
/// nothing else, and never away from the destination.
pub proof fn lemma_arrival(agent: AgentView, destination: Point, hours: u64)
    requires
        agent.physical_object.position.in_bounds(),
        destination.in_bounds(),
    ensures
        ({
            let (after, arrived) = stepped(agent, destination, hours);
            &&& arrived <==> after.physical_object.position == destination
            &&& arrived <==> next_speed(agent.mobile.0.0, agent.walker, hours) * next_speed(
                agent.mobile.0.0,
                agent.walker,
                hours,
            ) >= agent.physical_object.position.distance_squared_to(destination)
            &&& arrived ==> after.mobile.0.0 == 0 && after.travel is None
            &&& !arrived ==> after.travel == agent.travel && after.mobile.0.0 == next_speed(
                agent.mobile.0.0,
                agent.walker,
                hours,
            )
            &&& after.mobile.0.0 <= agent.walker.max_speed
            &&& after.physical_object.position.in_bounds()
            &&& after.physical_object.position.distance_squared_to(destination)
                <= agent.physical_object.position.distance_squared_to(destination)
            &&& after.tasks == agent.tasks
            &&& after.carrier == agent.carrier
            &&& after.walker == agent.walker
        }),
{
    let speed = next_speed(agent.mobile.0.0, agent.walker, hours);
    lemma_step_stays_on_the_way(agent.physical_object.position, destination, speed as nat);
    lemma_step_arrives_iff_reached(agent.physical_object.position, destination, speed as nat);
}

/// The world with the entity in slot `i` replaced by the outcome of a step,
/// and a notice on the list where it arrived.
pub open spec fn with_stepped(w: WorldView, i: int, outcome: (AgentView, bool)) -> WorldView {
    WorldView {
        agents: w.agents.update(i, Some(outcome.0)),
        task_events: if outcome.1 {
            w.task_events.push(CheckTaskEvent(EntityId(i as usize)))
        } else {
            w.task_events
        },
        ..w
    }
}

/// The world after the entity in slot `i` has made its step towards a fixed
/// point. Nothing changes where it has no such order.
pub open spec fn position_step(w: WorldView, i: int, delta: u32) -> WorldView {
    match w.agents[i] {
        Some(agent) => match agent.travel {
            Some(Travel::ToPosition(order)) => with_stepped(
                w,
                i,
                stepped(agent, order.position, hours_of(delta)),
            ),
            _ => w,
        },
        None => w,
    }
}

/// The world after the entities in the first `n` slots, in order, have made
/// their steps towards fixed points.
pub open spec fn go_to_position_upto(w: WorldView, delta: u32, n: nat) -> WorldView
    decreases n,
{
    if n == 0 {
        w
    } else {
        position_step(go_to_position_upto(w, delta, (n - 1) as nat), n - 1, delta)
    }
}

/// The world after the entity in slot `i` has made its step towards a
/// followed target. At countdown zero the target's position is sampled; where
/// the target is gone by then, the entity and its order stay as they are.
/// Nothing changes where the entity has no such order.
pub open spec fn target_step(w: WorldView, i: int, delta: u32) -> WorldView {
    match w.agents[i] {
        Some(agent) => match agent.travel {
            Some(Travel::ToTarget(order)) => {
                let sampled = w.position_of(order.target_id);
                if order.time_to_next_location_check == 0 && sampled is None {
                    w
                } else {
                    let new_position = if order.time_to_next_location_check == 0 {
                        sampled->0
                    } else {
                        order.last_target_position->0
                    };
                    let order = order.updated(
                        new_position,
                        RECHECK_POSITION_INTERVAL,
                        delta as u64,
                    );
                    with_stepped(
                        w,
                        i,
                        stepped(
                            AgentView { travel: Some(Travel::ToTarget(order)), ..agent },
                            order.last_target_position->0,
                            hours_of(delta),
                        ),
                    )
                }
            },
            _ => w,
        },
        None => w,
    }
}

/// A walker to a fixed point gives notice exactly when it stands on that
/// point after its step; then it has no travel order left and no speed. Its
/// step changes no other entity.
pub proof fn lemma_position_step_gives_notice_on_arrival(w: WorldView, i: int, delta: u32)
    requires
        w.wf(),
        0 <= i < w.agents.len(),
        w.agents[i] matches Some(agent) && agent.travel matches Some(Travel::ToPosition(_)),
    ensures
        ({
            let after = position_step(w, i, delta);
            let destination = w.agents[i]->0.travel->0->ToPosition_0.position;
            let arrived = after.agents[i]->0.physical_object.position == destination;
            &&& after.agents.len() == w.agents.len()
            &&& after.agents[i] is Some
            &&& forall|j: int| 0 <= j < w.agents.len() && j != i ==> after.agents[j] == w.agents[j]
            &&& arrived ==> after.task_events == w.task_events.push(
                CheckTaskEvent(EntityId(i as usize)),
            )
            &&& arrived ==> after.agents[i]->0.travel is None && after.agents[i]->0.mobile.0.0 == 0
            &&& !arrived ==> after.task_events == w.task_events
            &&& !arrived ==> after.agents[i]->0.travel == w.agents[i]->0.travel
        }),
{
    let agent = w.agents[i]->0;
    lemma_arrival(agent, agent.travel->0->ToPosition_0.position, hours_of(delta));
}

/// While the countdown of a follower runs, its step does not look at the
/// target: whatever the rest of the world holds, the follower comes out the
/// same, and what it walked towards is still what it has cached.
pub proof fn lemma_target_step_looks_at_zero_only(
    w: WorldView,
    other: WorldView,
    i: int,
    delta: u32,
)
    requires
        0 <= i < w.agents.len(),
        0 <= i < other.agents.len(),
        other.agents[i] == w.agents[i],
        w.agents[i] matches Some(agent) && agent.travel matches Some(Travel::ToTarget(order))
            && order.time_to_next_location_check != 0,
    ensures
        target_step(other, i, delta).agents[i] == target_step(w, i, delta).agents[i],
        target_step(w, i, delta).agents[i] matches Some(agent) && (agent.travel matches Some(
            Travel::ToTarget(order),
        ) ==> order.last_target_position
            == w.agents[i]->0.travel->0->ToTarget_0.last_target_position),
{
}

/// The world after the entities in the first `n` slots, in order, have made
/// their steps towards followed targets.
pub open spec fn go_to_target_upto(w: WorldView, delta: u32, n: nat) -> WorldView
    decreases n,
{
    if n == 0 {
        w
    } else {
        target_step(go_to_target_upto(w, delta, (n - 1) as nat), n - 1, delta)
    }
}

/// What travel may make of one slot: it keeps the slot filled or empty as it
/// was, and in an entity it changes only the position, the speed and the
/// travel order.
pub open spec fn slot_travelled(before: Option<AgentView>, after: Option<AgentView>) -> bool {
    match (before, after) {
        (None, None) => true,
        (Some(b), Some(a)) => {
            &&& a.creature == b.creature
            &&& a.tree == b.tree
            &&& a.walker == b.walker
            &&& a.tasks == b.tasks
            &&& a.carrier == b.carrier
        },
        _ => false,
    }
}

/// What travel may make of the world: it touches neither the bounds, nor
/// the store, nor the list of changed queues; it takes no notice away; and
/// every slot is as `slot_travelled` says.
pub open spec fn travelled(before: WorldView, after: WorldView) -> bool {
    &&& after.sim_params == before.sim_params
    &&& after.stockpile == before.stockpile
    &&& after.storage == before.storage
    &&& after.changed == before.changed
    &&& before.task_events.is_prefix_of(after.task_events)
    &&& after.agents.len() == before.agents.len()
    &&& forall|i: int|
        0 <= i < before.agents.len() ==> slot_travelled(before.agents[i], #[trigger] after.agents[i])
}

/// Computes `hours_of`.
pub fn game_hours(delta: u32) -> (hours: u64)
    ensures
        hours == hours_of(delta),
{
    (delta as u64) * GAME_HOUR
}

/// Moves every entity that follows a target by one tick of `delta`
/// milliseconds, slot by slot, and leaves a notice for each that arrived.
pub fn go_to_target(world: &mut World, delta: u32)
    requires
        old(world).wf(),
    ensures
        final(world).wf(),
        final(world)@ == go_to_target_upto(old(world)@, delta, old(world)@.agents.len()),
        travelled(old(world)@, final(world)@),
{
    let hours: u64 = game_hours(delta);
    let n: usize = world.agents.len();
    let mut i: usize = 0;
    while i < n
        invariant
            i <= n,
            n == world.agents.len(),
            n == old(world)@.agents.len(),
            hours == hours_of(delta),
            world.wf(),
            world@ == go_to_target_upto(old(world)@, delta, i as nat),
            travelled(old(world)@, world@),
        decreases n - i,
    {
        let ghost before = world@;
        let order: Option<TravelToTarget> = match &world.agents[i] {
            Some(agent) => match agent.travel {
                Some(Travel::ToTarget(order)) => Some(order),
                _ => None,
            },
            None => None,
        };
        if let Some(order) = order {
            let sampled: Option<Point> = world.position_of(order.target_id);
            let seen: Option<Point> = if order.time_to_next_location_check == 0 {
                sampled
            } else {
                order.last_target_position
            };
            if let Some(new_position) = seen {
                let mut order = order;
                order.update(new_position, RECHECK_POSITION_INTERVAL, delta as u64);
                let destination: Point = order.last_target_position.unwrap();
                let mut arrived: bool = false;
                match &mut world.agents[i] {
                    Some(agent) => {
                        let walker: Walker = agent.walker;
                        let result = _go_to_position(
                            &mut agent.physical_object,
                            destination,
                            &mut agent.mobile,
                            &walker,
                            hours,
                        );
                        match result {
                            TravelResult::Arrived => {
                                agent.travel = None;
                                arrived = true;
                            },
                            TravelResult::Traveling => {
                                agent.travel = Some(Travel::ToTarget(order));
                            },
                        }
                    },
                    None => {},
                }
                if arrived {
                    world.task_events.push(CheckTaskEvent(EntityId(i)));
                }
                assert(world@.agents =~= target_step(before, i as int, delta).agents);
            }
        }
        assert(world@ == target_step(before, i as int, delta));
        i = i + 1;
    }
}

/// Moves every entity that walks to a fixed point by one tick of `delta`
/// milliseconds, slot by slot, and leaves a notice for each that arrived.
pub fn go_to_position(world: &mut World, delta: u32)
    requires
        old(world).wf(),
    ensures
        final(world).wf(),
        final(world)@ == go_to_position_upto(old(world)@, delta, old(world)@.agents.len()),
        travelled(old(world)@, final(world)@),
{
    let hours: u64 = game_hours(delta);
    let n: usize = world.agents.len();
    let mut i: usize = 0;
    while i < n
        invariant
            i <= n,
            n == world.agents.len(),
            n == old(world)@.agents.len(),
            hours == hours_of(delta),
            world.wf(),
            world@ == go_to_position_upto(old(world)@, delta, i as nat),
            travelled(old(world)@, world@),
        decreases n - i,
    {
        let ghost before = world@;
        let mut arrived: bool = false;
        match &mut world.agents[i] {
            Some(agent) => {
                match agent.travel {
                    Some(Travel::ToPosition(order)) => {
                        let walker: Walker = agent.walker;
                        let result = _go_to_position(
                            &mut agent.physical_object,
                            order.position,
                            &mut agent.mobile,
                            &walker,
                            hours,
                        );
                        match result {
                            TravelResult::Arrived => {
                                agent.travel = None;
                                arrived = true;
                            },
                            TravelResult::Traveling => {},
                        }
                    },
                    _ => {},
                }
            },
            None => {},
        }
        if arrived {
            world.task_events.push(CheckTaskEvent(EntityId(i)));
        }
        assert(world@.agents =~= position_step(before, i as int, delta).agents);
        assert(world@ == position_step(before, i as int, delta));
        i = i + 1;
    }
}

} // verus!
