//! The books of the village: how many live in it, who has a home, and how
//! many a home can take.

use vstd::prelude::*;
use crate::residence::{
    CreatureJoinedVillageEvent, CreatureLeftVillageEvent, Resident, VillagerSettledEvent,
};
use crate::world::EntityId;

verus! {

/// What the village is to build.
#[derive(Clone, Copy, PartialEq, Eq, Structural, Debug)]
pub enum PlannedBuildingType {
    House,
    Storage,
}

/// Work that the village hands out.
pub enum VillageTask {
    Construction { target: Option<EntityId>, building_type: PlannedBuildingType, workers: Vec<EntityId> },
}

/// How many live in a residence and how many it can take.
#[derive(Clone, Copy, PartialEq, Eq, Structural, Debug)]
pub struct LivingSpace {
    pub max_people: u32,
    pub current_people: u32,
}

/// The counts of the village.
#[derive(Clone, Copy, PartialEq, Eq, Structural, Debug)]
pub struct Village {
    pub wood: u64,
    pub habitants_count: u32,
    pub homeless_count: u32,
}

/// Says that a residence has room.
#[derive(Clone, Copy, PartialEq, Eq, Structural, Debug)]
pub struct LivingSpaceAvailableEvent {
    pub residence_id: EntityId,
}

/// Marks an entity as a building.
#[derive(Clone, Copy, PartialEq, Eq, Structural, Debug)]
pub struct Building;

impl LivingSpace {
    /// No more live here than the residence can take.
    pub open spec fn wf(self) -> bool {
        self.current_people <= self.max_people
    }

    /// Whether the residence can take nobody else.
    pub fn is_full(&self) -> (full: bool)
        ensures
            full == (self.current_people == self.max_people),
    {
        self.current_people == self.max_people
    }

    /// Lets one more move in. A full residence takes nobody: to ask it is a
    /// fault of the caller.
    pub fn take_in(&mut self)
        requires
            old(self).wf(),
            old(self).current_people != old(self).max_people,
        ensures
            final(self).wf(),
            final(self).max_people == old(self).max_people,
            final(self).current_people == old(self).current_people + 1,
    {
        self.current_people = self.current_people + 1;
    }
}

/// The notices of room that leavers make free: one for each of the first `n`
/// who had a home, in order.
pub open spec fn room_left_upto(homes: Seq<Option<Resident>>, n: nat) -> Seq<
    LivingSpaceAvailableEvent,
>
    decreases n,
{
    if n == 0 {
        Seq::empty()
    } else {
        let before = room_left_upto(homes, (n - 1) as nat);
        match homes[n - 1] {
            Some(resident) => before.push(
                LivingSpaceAvailableEvent { residence_id: resident.residence_id },
            ),
            None => before,
        }
    }
}

/// Brings the counts up to date. Each creature that left is one inhabitant
/// less, and where it had a home, that home has room again. Each that joined
/// is one inhabitant more, and homeless at first. `homes` holds, for each
/// that left, where it lived.
pub fn control_residence(
    village: &mut Village,
    ev_residents_joined: &Vec<CreatureJoinedVillageEvent>,
    ev_residents_left: &Vec<CreatureLeftVillageEvent>,
    homes: &Vec<Option<Resident>>,
) -> (ev_living_space_available: Vec<LivingSpaceAvailableEvent>)
    requires
        homes@.len() == ev_residents_left@.len(),
        ev_residents_left@.len() <= old(village).habitants_count,
        old(village).habitants_count - ev_residents_left@.len() + ev_residents_joined@.len()
            <= u32::MAX,
        old(village).homeless_count + ev_residents_joined@.len() <= u32::MAX,
    ensures
        final(village).wood == old(village).wood,
        final(village).habitants_count == old(village).habitants_count
            - ev_residents_left@.len() + ev_residents_joined@.len(),
        final(village).homeless_count == old(village).homeless_count
            + ev_residents_joined@.len(),
        ev_living_space_available@ == room_left_upto(homes@, homes@.len()),
{
    let mut ev_living_space_available: Vec<LivingSpaceAvailableEvent> = Vec::new();
    let mut i: usize = 0;
    while i < ev_residents_left.len()
        invariant
            i <= ev_residents_left@.len(),
            homes@.len() == ev_residents_left@.len(),
            ev_residents_left@.len() <= old(village).habitants_count,
            village.habitants_count == old(village).habitants_count - i,
            village.homeless_count == old(village).homeless_count,
            village.wood == old(village).wood,
            ev_living_space_available@ == room_left_upto(homes@, i as nat),
        decreases ev_residents_left@.len() - i,
    {
        village.habitants_count = village.habitants_count - 1;
        if let Some(resident) = homes[i] {
            ev_living_space_available.push(
                LivingSpaceAvailableEvent { residence_id: resident.residence_id },
            );
        }
        i = i + 1;
    }
    let mut k: usize = 0;
    while k < ev_residents_joined.len()
        invariant
            k <= ev_residents_joined@.len(),
            old(village).habitants_count - ev_residents_left@.len() + ev_residents_joined@.len()
                <= u32::MAX,
            old(village).homeless_count + ev_residents_joined@.len() <= u32::MAX,
            village.habitants_count == old(village).habitants_count - ev_residents_left@.len()
                + k,
            village.homeless_count == old(village).homeless_count + k,
            village.wood == old(village).wood,
        decreases ev_residents_joined@.len() - k,
    {
        village.habitants_count = village.habitants_count + 1;
        village.homeless_count = village.homeless_count + 1;
        k = k + 1;
    }
    ev_living_space_available
}

/// The number of homeless that find a home: as many as there are homeless,
/// or as there are notices of room, whichever is less.
pub open spec fn housed_count(homeless: Seq<EntityId>, room: Seq<LivingSpaceAvailableEvent>) -> nat {
    if homeless.len() <= room.len() {
        homeless.len()
    } else {
        room.len()
    }
}

/// Gives each homeless creature, in order, the residence of the next notice
/// of room, until either runs out.
pub fn house_homeless(
    homeless: &Vec<EntityId>,
    ev_living_space_available: &Vec<LivingSpaceAvailableEvent>,
) -> (settled: Vec<VillagerSettledEvent>)
    ensures
        settled@.len() == housed_count(homeless@, ev_living_space_available@),
        forall|i: int|
            0 <= i < settled@.len() ==> #[trigger] settled@[i] == (VillagerSettledEvent {
                resident: homeless@[i],
                residence: ev_living_space_available@[i].residence_id,
            }),
{
    let mut settled: Vec<VillagerSettledEvent> = Vec::new();
    let mut i: usize = 0;
    while i < homeless.len() && i < ev_living_space_available.len()
        invariant
            i <= homeless@.len(),
            i <= ev_living_space_available@.len(),
            settled@.len() == i,
            forall|j: int|
                0 <= j < i ==> #[trigger] settled@[j] == (VillagerSettledEvent {
                    resident: homeless@[j],
                    residence: ev_living_space_available@[j].residence_id,
                }),
        decreases homeless@.len() - i,
    {
        settled.push(
            VillagerSettledEvent {
                resident: homeless[i],
                residence: ev_living_space_available[i].residence_id,
            },
        );
        i = i + 1;
    }
    settled
}

} // verus!
