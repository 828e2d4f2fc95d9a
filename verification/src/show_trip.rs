//! Looking up a trip.

use crate::trip;
use crate::trip::Trip;
use crate::lemma_first_where_found;
use crate::lemma_first_where_missing;
use crate::Database;
use vstd::prelude::*;

verus! {

pub trait ShowTrip {
    /// The trip stored under `id`, if there is one.
    fn show_trip(&self, id: trip::Id) -> Option<&Trip>;
}

impl ShowTrip for Database {
    /// The first trip stored under `id`, if there is one.
    fn show_trip(&self, id: trip::Id) -> (found: Option<&Trip>)
        ensures
            match found {
                Some(item) => self.find_trip(id) == Some(*item),
                None => self.find_trip(id).is_none(),
            },
    {
        let mut i: usize = 0;
        while i < self.trips.len()
            invariant
                i <= self.trips@.len(),
                forall|j: int| 0 <= j < i ==> (#[trigger] self.trips@[j]).id != id,
            decreases self.trips@.len() - i,
        {
            if self.trips[i].id == id {
                proof {
                    lemma_first_where_found(self.trips@, |t: Trip| t.id == id, i as int);
                }
                return Some(&self.trips[i]);
            }
            i += 1;
        }
        proof {
            lemma_first_where_missing(self.trips@, |t: Trip| t.id == id);
        }
        None
    }
}

} // verus!
