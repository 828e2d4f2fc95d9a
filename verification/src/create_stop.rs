//! Adding a stop.

use crate::stop;
use crate::Database;
use vstd::prelude::*;

verus! {

pub trait CreateStop {
    /// Stores the stop.
    fn create_stop(&mut self, form: stop::Stop);
}

impl CreateStop for Database {
    /// Adds the stop after those that are stored.
    fn create_stop(&mut self, form: stop::Stop)
        ensures
            final(self).stops@ == old(self).stops@.push(form),
            *final(self) == (Database { stops: final(self).stops, ..*old(self) }),
    {
        self.stops.push(form);
    }
}

} // verus!
