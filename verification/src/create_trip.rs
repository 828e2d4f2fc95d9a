//! Adding a trip.

use crate::trip::Trip;
use crate::Database;
use vstd::prelude::*;

verus! {

/// The trip to add.
pub struct Form {
    pub trip: Trip,
}

pub trait CreateTrip {
    /// Stores the trip.
    fn create_trip(&mut self, form: Form);
}

impl CreateTrip for Database {
    /// Adds the trip after those that are stored.
    fn create_trip(&mut self, form: Form)
        ensures
            final(self).trips@ == old(self).trips@.push(form.trip),
            *final(self) == (Database { trips: final(self).trips, ..*old(self) }),
    {
        self.trips.push(form.trip);
    }
}

} // verus!
