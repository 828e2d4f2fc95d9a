//! Looking up a bus.

use crate::bus;
use crate::bus::Bus;
use crate::lemma_first_where_found;
use crate::lemma_first_where_missing;
use crate::Database;
use vstd::prelude::*;

verus! {

pub trait ShowBus {
    /// The bus stored under `id`, if there is one.
    fn show_bus(&self, id: bus::Id) -> Option<&Bus>;
}

impl ShowBus for Database {
    /// The first bus stored under `id`, if there is one.
    fn show_bus(&self, id: bus::Id) -> (found: Option<&Bus>)
        ensures
            match found {
                Some(item) => self.find_bus(id) == Some(*item),
                None => self.find_bus(id).is_none(),
            },
    {
        let mut i: usize = 0;
        while i < self.buses.len()
            invariant
                i <= self.buses@.len(),
                forall|j: int| 0 <= j < i ==> (#[trigger] self.buses@[j]).id != id,
            decreases self.buses@.len() - i,
        {
            if self.buses[i].id == id {
                proof {
                    lemma_first_where_found(self.buses@, |b: Bus| b.id == id, i as int);
                }
                return Some(&self.buses[i]);
            }
            i += 1;
        }
        proof {
            lemma_first_where_missing(self.buses@, |b: Bus| b.id == id);
        }
        None
    }
}

} // verus!
