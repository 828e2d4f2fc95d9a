//! Trips. A trip runs one bus along one route.

use crate::bus;
use crate::route;
use vstd::prelude::*;

verus! {

/// The identifier of a trip.
#[derive(Clone, Copy, Debug, Default, PartialEq, Eq, Structural)]
pub struct Id(pub u64);

/// A trip of bus `bus_id` along route `route_id`.
#[derive(Debug, Default, PartialEq, Eq, Structural)]
pub struct Trip {
    pub id: Id,
    pub route_id: route::Id,
    pub bus_id: bus::Id,
}

} // verus!
