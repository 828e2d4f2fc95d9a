//! Looking up a route.

use crate::route;
use crate::route::Route;
use crate::lemma_first_where_found;
use crate::lemma_first_where_missing;
use crate::Database;
use vstd::prelude::*;

verus! {

pub trait ShowRoute {
    /// The route stored under `id`, if there is one.
    fn show_route(&self, id: route::Id) -> Option<&Route>;
}

impl ShowRoute for Database {
    /// The first route stored under `id`, if there is one.
    fn show_route(&self, id: route::Id) -> (found: Option<&Route>)
        ensures
            match found {
                Some(item) => self.find_route(id) == Some(*item),
                None => self.find_route(id).is_none(),
            },
    {
        let mut i: usize = 0;
        while i < self.routes.len()
            invariant
                i <= self.routes@.len(),
                forall|j: int| 0 <= j < i ==> (#[trigger] self.routes@[j]).id != id,
            decreases self.routes@.len() - i,
        {
            if self.routes[i].id == id {
                proof {
                    lemma_first_where_found(self.routes@, |r: Route| r.id == id, i as int);
                }
                return Some(&self.routes[i]);
            }
            i += 1;
        }
        proof {
            lemma_first_where_missing(self.routes@, |r: Route| r.id == id);
        }
        None
    }
}

} // verus!
