//! Looking up a stop.

use crate::lemma_first_where_found;
use crate::lemma_first_where_missing;
use crate::stop;
use crate::Database;
use vstd::prelude::*;

verus! {

pub trait ShowStop {
    /// The stop stored under `id`, if there is one.
    fn show_stop(&self, id: stop::Id) -> Option<&stop::Stop>;
}

impl ShowStop for Database {
    /// The first stop stored under `id`, if there is one.
    fn show_stop(&self, id: stop::Id) -> (found: Option<&stop::Stop>)
        ensures
            match found {
                Some(item) => self.find_stop(id) == Some(*item),
                None => self.find_stop(id).is_none(),
            },
    {
        let mut i: usize = 0;
        while i < self.stops.len()
            invariant
                i <= self.stops@.len(),
                forall|j: int| 0 <= j < i ==> (#[trigger] self.stops@[j]).id != id,
            decreases self.stops@.len() - i,
        {
            if self.stops[i].id == id {
                proof {
                    lemma_first_where_found(self.stops@, |s: stop::Stop| s.id == id, i as int);
                }
                return Some(&self.stops[i]);
            }
            i += 1;
        }
        proof {
            lemma_first_where_missing(self.stops@, |s: stop::Stop| s.id == id);
        }
        None
    }
}

} // verus!
