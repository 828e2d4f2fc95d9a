//! Adding a bus.

use crate::bus::Bus;
use crate::Database;
use vstd::prelude::*;

verus! {

pub trait CreateBus {
    /// Stores the bus.
    fn create_bus(&mut self, form: Bus);
}

impl CreateBus for Database {
    /// Adds the bus after those that are stored.
    fn create_bus(&mut self, form: Bus)
        ensures
            final(self).buses@ == old(self).buses@.push(form),
            *final(self) == (Database { buses: final(self).buses, ..*old(self) }),
    {
        self.buses.push(form);
    }
}

} // verus!
