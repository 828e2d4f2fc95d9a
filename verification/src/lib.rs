//! Seat reservations on scheduled trips, admitted through occupancy bitmaps.
//!
//! A seat is reserved for a range of the stops of a trip. The store keeps
//! buses, bus models, stops, routes and trips, and the reservations that
//! were admitted.

pub mod bool_matrix;
pub mod bus;
pub mod bus_model;
pub mod create_bus;
pub mod create_bus_model;
pub mod create_route;
pub mod create_stop;
pub mod create_trip;
pub mod reserve_seat;
pub mod route;
pub mod seat_reservation;
pub mod show_bus;
pub mod show_bus_model;
pub mod show_route;
pub mod show_stop;
pub mod show_trip;
pub mod stop;
pub mod trip;

use crate::bus::Bus;
use crate::bus_model::BusModel;
use crate::route::Route;
use crate::seat_reservation::SeatReservation;
use crate::trip::Trip;
use vstd::prelude::*;

verus! {

/// Whether `i` is the position of the first element of `s` that satisfies
/// `p`.
pub open spec fn is_first<T>(s: Seq<T>, p: spec_fn(T) -> bool, i: int) -> bool {
    &&& 0 <= i < s.len()
    &&& p(s[i])
    &&& forall|j: int| 0 <= j < i ==> !p(#[trigger] s[j])
}

/// The first element of `s` that satisfies `p`, if there is one.
pub open spec fn first_where<T>(s: Seq<T>, p: spec_fn(T) -> bool) -> Option<T> {
    if exists|i: int| is_first(s, p, i) {
        Some(s[choose|i: int| is_first(s, p, i)])
    } else {
        None
    }
}

/// An element that satisfies `p` after none that does is the one found.
pub proof fn lemma_first_where_found<T>(s: Seq<T>, p: spec_fn(T) -> bool, i: int)
    requires
        is_first(s, p, i),
    ensures
        first_where(s, p) == Some(s[i]),
{
    let k = choose|k: int| is_first(s, p, k);
    assert(k == i);
}

/// Where no element satisfies `p`, none is found.
pub proof fn lemma_first_where_missing<T>(s: Seq<T>, p: spec_fn(T) -> bool)
    requires
        forall|j: int| 0 <= j < s.len() ==> !p(#[trigger] s[j]),
    ensures
        first_where(s, p).is_none(),
{
}

/// Filtering one element more keeps it if it satisfies `p`, and changes
/// nothing if it does not.
pub proof fn lemma_filter_take<T>(s: Seq<T>, p: spec_fn(T) -> bool, i: int)
    requires
        0 <= i < s.len(),
    ensures
        s.take(i + 1).filter(p) == (if p(s[i]) {
            s.take(i).filter(p).push(s[i])
        } else {
            s.take(i).filter(p)
        }),
{
    reveal(Seq::filter);
    assert(s.take(i + 1).drop_last() =~= s.take(i));
}

/// The store. Each collection is kept in the order in which its elements
/// were added.
#[derive(Debug)]
pub struct Database {
    pub bus_models: Vec<BusModel>,
    pub buses: Vec<Bus>,
    pub stops: Vec<stop::Stop>,
    pub route_stops: Vec<route::Stop>,
    pub routes: Vec<Route>,
    pub trips: Vec<Trip>,
    pub seat_reservations: Vec<SeatReservation>,
}

impl Database {
    /// Every reservation that is kept is well formed.
    pub open spec fn wf(&self) -> bool {
        forall|i: int|
            0 <= i < self.seat_reservations@.len() ==> (#[trigger] self.seat_reservations@[i]).wf()
    }

    /// The first bus model stored under `id`.
    pub open spec fn find_bus_model(&self, id: bus_model::Id) -> Option<BusModel> {
        first_where(self.bus_models@, |m: BusModel| m.id == id)
    }

    /// The first bus stored under `id`.
    pub open spec fn find_bus(&self, id: bus::Id) -> Option<Bus> {
        first_where(self.buses@, |b: Bus| b.id == id)
    }

    /// The first stop stored under `id`.
    pub open spec fn find_stop(&self, id: stop::Id) -> Option<stop::Stop> {
        first_where(self.stops@, |s: stop::Stop| s.id == id)
    }

    /// The first route stored under `id`.
    pub open spec fn find_route(&self, id: route::Id) -> Option<Route> {
        first_where(self.routes@, |r: Route| r.id == id)
    }

    /// The first trip stored under `id`.
    pub open spec fn find_trip(&self, id: trip::Id) -> Option<Trip> {
        first_where(self.trips@, |t: Trip| t.id == id)
    }
}

impl Default for Database {
    /// The store that holds nothing.
    fn default() -> (database: Self)
        ensures
            database.wf(),
            database.bus_models@.len() == 0,
            database.buses@.len() == 0,
            database.stops@.len() == 0,
            database.route_stops@.len() == 0,
            database.routes@.len() == 0,
            database.trips@.len() == 0,
            database.seat_reservations@.len() == 0,
    {
        Database {
            bus_models: Vec::new(),
            buses: Vec::new(),
            stops: Vec::new(),
            route_stops: Vec::new(),
            routes: Vec::new(),
            trips: Vec::new(),
            seat_reservations: Vec::new(),
        }
    }
}

} // verus!
