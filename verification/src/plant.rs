//! Plants: the energy source of the world.

use vstd::prelude::*;

verus! {

/// A plant holds the energy points that creatures can still eat from it.
#[derive(Clone, Copy, Debug, PartialEq, Eq, Structural)]
pub struct Plant {
    pub ep: u32,
}

impl Plant {
    /// A plant without energy.
    pub fn new() -> (plant: Plant)
        ensures
            plant.ep == 0,
    {
        Plant { ep: 0 }
    }

    /// A plant holding `ep` energy points.
    pub fn with_ep(ep: u32) -> (plant: Plant)
        ensures
            plant.ep == ep,
    {
        Plant { ep }
    }
}

} // verus!
