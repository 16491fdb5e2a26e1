//! Per-cell transition categories for rendering.
//!
//! A renderer that shows how a grid changed between two consecutive
//! generations needs, for each cell, the pair (was alive, is alive) folded
//! into one of four categories. Classifying the pair is the whole contract
//! the core owes the renderer; drawing the categories is left to the caller.

use vstd::prelude::*;

verus! {

/// How a cell changed between the previous and the current generation.
#[derive(Clone, Copy, PartialEq, Eq, Structural, Debug)]
pub enum Transition {
    /// Dead before, alive now.
    Born,
    /// Alive before, alive now.
    StillAlive,
    /// Alive before, dead now.
    Died,
    /// Dead before, dead now.
    StillDead,
}

/// The category of the pair (was alive, is alive).
pub open spec fn spec_transition(was_alive: bool, now_alive: bool) -> Transition {
    if was_alive && now_alive {
        Transition::StillAlive
    } else if !was_alive && now_alive {
        Transition::Born
    } else if was_alive && !now_alive {
        Transition::Died
    } else {
        Transition::StillDead
    }
}

/// Classify how a cell changed between two consecutive generations.
pub fn transition(was_alive: bool, now_alive: bool) -> (t: Transition)
    ensures
        t == spec_transition(was_alive, now_alive),
{
    match (was_alive, now_alive) {
        (false, true) => Transition::Born,
        (true, true) => Transition::StillAlive,
        (true, false) => Transition::Died,
        (false, false) => Transition::StillDead,
    }
}

} // verus!
