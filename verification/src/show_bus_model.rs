//! Looking up a bus model.

use crate::bus_model;
use crate::bus_model::BusModel;
use crate::lemma_first_where_found;
use crate::lemma_first_where_missing;
use crate::Database;
use vstd::prelude::*;

verus! {

pub trait ShowBusModel {
    /// The bus model stored under `id`, if there is one.
    fn show_bus_model(&self, id: bus_model::Id) -> Option<&BusModel>;
}

impl ShowBusModel for Database {
    /// The first bus model stored under `id`, if there is one.
    fn show_bus_model(&self, id: bus_model::Id) -> (found: Option<&BusModel>)
        ensures
            match found {
                Some(item) => self.find_bus_model(id) == Some(*item),
                None => self.find_bus_model(id).is_none(),
            },
    {
        let mut i: usize = 0;
        while i < self.bus_models.len()
            invariant
                i <= self.bus_models@.len(),
                forall|j: int| 0 <= j < i ==> (#[trigger] self.bus_models@[j]).id != id,
            decreases self.bus_models@.len() - i,
        {
            if self.bus_models[i].id == id {
                proof {
                    lemma_first_where_found(self.bus_models@, |m: BusModel| m.id == id, i as int);
                }
                return Some(&self.bus_models[i]);
            }
            i += 1;
        }
        proof {
            lemma_first_where_missing(self.bus_models@, |m: BusModel| m.id == id);
        }
        None
    }
}

} // verus!
