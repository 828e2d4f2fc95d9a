//! Adding a route with its stops.

use crate::route;
use crate::route::Route;
use crate::Database;
use vstd::prelude::*;

verus! {

/// The route to add, and its stops.
pub struct Form {
    pub stops: Vec<route::Stop>,
    pub route: Route,
}

pub trait CreateRoute {
    /// Stores the route and its stops.
    fn create_route(&mut self, form: Form);
}

impl CreateRoute for Database {
    /// Adds the stops of the route, in their order, after the route stops
    /// that are stored, and the route after the routes that are stored.
    fn create_route(&mut self, form: Form)
        ensures
            final(self).route_stops@ == old(self).route_stops@ + form.stops@,
            final(self).routes@ == old(self).routes@.push(form.route),
            *final(self) == (Database {
                route_stops: final(self).route_stops,
                routes: final(self).routes,
                ..*old(self)
            }),
    {
        let Form { stops, route } = form;
        let mut stops = stops;
        self.route_stops.append(&mut stops);
        self.routes.push(route);
    }
}

} // verus!
