//! Routes and the stops along them.

use crate::stop;
use vstd::prelude::*;

verus! {

/// The identifier of a route.
#[derive(Clone, Copy, Debug, Default, PartialEq, Eq, Structural)]
pub struct Id(pub u64);

/// A route. Its stops are kept apart from it, each with the id of the route.
#[derive(Debug)]
pub struct Route {
    pub id: Id,
}

/// The identifier of a stop of a route.
#[derive(Clone, Copy, Debug, Default, PartialEq, Eq, Structural)]
pub struct StopId(pub u64);

/// One stop of one route. `index` is the place of the stop along the route.
#[derive(Debug, Default)]
pub struct Stop {
    pub id: StopId,
    pub stop_id: stop::Id,
    pub route_id: Id,
    pub index: u8,
}

} // verus!
