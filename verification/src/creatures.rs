//! What marks an entity as a living creature.

use vstd::prelude::*;

verus! {

/// A living being of the village. Only creatures are given tasks.
#[derive(Clone, Copy, Debug)]
pub struct Creature {
    pub name: &'static str,
    pub activity: CreatureActivity,
}

/// What a creature is doing.
#[derive(Clone, Copy, PartialEq, Eq, Structural, Debug)]
pub enum CreatureActivity {
    Sleeping,
    Standing,
    Walking,
    Constructing,
}

} // verus!
