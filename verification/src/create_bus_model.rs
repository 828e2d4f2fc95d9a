//! Adding a bus model.

use crate::bus_model::BusModel;
use crate::Database;
use vstd::prelude::*;

verus! {

pub trait CreateBusModel {
    /// Stores the bus model.
    fn create_bus_model(&mut self, form: BusModel);
}

impl CreateBusModel for Database {
    /// Adds the bus model after those that are stored.
    fn create_bus_model(&mut self, form: BusModel)
        ensures
            final(self).bus_models@ == old(self).bus_models@.push(form),
            *final(self) == (Database { bus_models: final(self).bus_models, ..*old(self) }),
    {
        self.bus_models.push(form);
    }
}

} // verus!
