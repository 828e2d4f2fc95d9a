//! Buses.

use crate::bus_model;
use vstd::prelude::*;

verus! {

/// The identifier of a bus.
#[derive(Clone, Copy, Debug, Default, PartialEq, Eq, Structural)]
pub struct Id(pub u64);

/// A bus of some model.
#[derive(Debug, Default)]
pub struct Bus {
    pub id: Id,
    pub bus_model_id: bus_model::Id,
}

} // verus!
