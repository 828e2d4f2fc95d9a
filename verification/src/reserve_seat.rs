//! Admitting a reservation.
//!
//! A request names a trip, a seat and a range of stops. It is admitted if
//! the trip and what it refers to are stored, the seat and the stops exist
//! on the trip, and no reservation of the trip has the seat at one of the
//! stops.

use crate::bool_matrix::row_cells;
use crate::bus_model::BusModel;
use crate::lemma_filter_take;
use crate::route;
use crate::route::Route;
use crate::seat_reservation::consistent;
use crate::seat_reservation::lemma_row_cells_clash;
use crate::seat_reservation::occupied;
use crate::seat_reservation::occupies;
use crate::seat_reservation::ranges_clash;
use crate::seat_reservation::SeatReservation;
use crate::seat_reservation::SeatReservations;
use crate::show_bus::ShowBus;
use crate::show_bus_model::ShowBusModel;
use crate::show_route::ShowRoute;
use crate::show_trip::ShowTrip;
use crate::trip;
use crate::Database;
use vstd::prelude::*;

verus! {

/// A request for seat `seat_index` of trip `trip_id`, from stop
/// `from_stop_index` to stop `to_stop_index`, both included.
#[derive(Clone, Copy, Default)]
pub struct Form {
    pub seat_index: usize,
    pub from_stop_index: usize,
    pub to_stop_index: usize,
    pub trip_id: trip::Id,
}

/// Why a request is turned down.
#[derive(Debug, PartialEq, Eq, Structural)]
pub enum Error {
    /// No trip is stored under the trip id of the request.
    TripNotFound,
    /// No route is stored under the route id of the trip.
    RouteNotFound,
    /// No bus is stored under the bus id of the trip.
    BusNotFound,
    /// No bus model is stored under the model id of the bus.
    BusModelNotFound,
    /// The first stop of the request is no stop of the route.
    InvalidFromStop,
    /// The last stop of the request is no stop of the route.
    InvalidToStop,
    /// The seat of the request is no seat of the bus.
    InvalidSeat,
    /// The first stop of the request comes after its last stop.
    InvalidRange,
    /// A reservation of the trip has the seat at one of the stops.
    SeatAlreadyReserved,
    /// The reservations that are kept for the trip contradict each other or
    /// the dimensions of the trip.
    InternalInconsistency,
}

/// What a trip resolves to: the stops of its route and the model of its bus.
pub struct Aggregate<'a> {
    pub route_stops: Vec<&'a route::Stop>,
    pub bus_model: &'a BusModel,
}

impl<'a> Aggregate<'a> {
    /// The stops of the route.
    pub open spec fn stops(&self) -> Seq<route::Stop> {
        self.route_stops@.map_values(|s: &route::Stop| *s)
    }

    /// The number of stops of the route.
    pub fn stops_count(&self) -> (count: usize)
        ensures
            count == self.stops().len(),
    {
        self.route_stops.len()
    }

    /// The number of seats of the bus.
    pub fn seats_count(&self) -> (count: usize)
        ensures
            count == self.bus_model.number_of_seats,
    {
        self.bus_model.number_of_seats as usize
    }
}

/// Whether a route stop belongs to route `route_id`.
pub open spec fn on_route(route_id: route::Id) -> spec_fn(route::Stop) -> bool {
    |s: route::Stop| s.route_id == route_id
}

/// Whether `after` is `before` with one more reservation, the one that
/// `form` asks for.
pub open spec fn admitted(before: Database, form: Form, after: Database) -> bool {
    &&& after == (Database { seat_reservations: after.seat_reservations, ..before })
    &&& after.seat_reservations@.len() == before.seat_reservations@.len() + 1
    &&& after.seat_reservations@.drop_last() == before.seat_reservations@
    &&& {
        let added = after.seat_reservations@.last();
        &&& added.wf()
        &&& added.trip_id == form.trip_id
        &&& added.seat == form.seat_index
        &&& added.from == form.from_stop_index
        &&& added.to == form.to_stop_index
        &&& before.dimensions(form.trip_id) == Ok::<(nat, nat), Error>(
            (added.matrix.width as nat, added.matrix.height as nat),
        )
    }
}

impl Database {
    /// The stops of route `route_id`, in the order in which they are stored.
    pub open spec fn stops_of(&self, route_id: route::Id) -> Seq<route::Stop> {
        self.route_stops@.filter(on_route(route_id))
    }

    /// The route and the bus model of trip `trip_id`. The trip, its route,
    /// its bus and the model of the bus are looked up in this order, and
    /// the first that is missing decides the error.
    pub open spec fn resolve(&self, trip_id: trip::Id) -> Result<(Route, BusModel), Error> {
        match self.find_trip(trip_id) {
            None => Err(Error::TripNotFound),
            Some(trip) => match self.find_route(trip.route_id) {
                None => Err(Error::RouteNotFound),
                Some(route) => match self.find_bus(trip.bus_id) {
                    None => Err(Error::BusNotFound),
                    Some(bus) => match self.find_bus_model(bus.bus_model_id) {
                        None => Err(Error::BusModelNotFound),
                        Some(model) => Ok((route, model)),
                    },
                },
            },
        }
    }

    /// The number of stops and the number of seats of trip `trip_id`, in
    /// this order.
    pub open spec fn dimensions(&self, trip_id: trip::Id) -> Result<(nat, nat), Error> {
        match self.resolve(trip_id) {
            Ok((route, model)) => Ok(
                (self.stops_of(route.id).len(), model.number_of_seats as nat),
            ),
            Err(e) => Err(e),
        }
    }

    /// Whether reservation `i` is of the trip of `form` and has its seat at
    /// one of its stops.
    pub open spec fn blocks(&self, i: int, form: Form) -> bool {
        &&& 0 <= i < self.seat_reservations@.len()
        &&& self.seat_reservations@[i].trip_id == form.trip_id
        &&& ranges_clash(
            self.seat_reservations@[i].seat as int,
            self.seat_reservations@[i].from as int,
            self.seat_reservations@[i].to as int,
            form.seat_index as int,
            form.from_stop_index as int,
            form.to_stop_index as int,
        )
    }

    /// Whether a reservation of the trip of `form` has its seat at one of
    /// its stops.
    pub open spec fn taken(&self, form: Form) -> bool {
        exists|i: int| #[trigger] self.blocks(i, form)
    }

    /// What becomes of a request. The trip is resolved first; then the
    /// first stop, the last stop, the seat and the order of the two stops
    /// are checked, in this order; then the reservations of the trip are
    /// checked against each other; then the request against them.
    pub open spec fn admission(&self, form: Form) -> Result<(), Error> {
        match self.dimensions(form.trip_id) {
            Err(e) => Err(e),
            Ok((stops, seats)) => if form.from_stop_index >= stops {
                Err(Error::InvalidFromStop)
            } else if form.to_stop_index >= stops {
                Err(Error::InvalidToStop)
            } else if form.seat_index >= seats {
                Err(Error::InvalidSeat)
            } else if form.from_stop_index > form.to_stop_index {
                Err(Error::InvalidRange)
            } else if !consistent(
                self.seat_reservations@,
                form.trip_id,
                seats as int,
                stops as int,
            ) {
                Err(Error::InternalInconsistency)
            } else if self.taken(form) {
                Err(Error::SeatAlreadyReserved)
            } else {
                Ok(())
            },
        }
    }

    /// Whether the grids of trip `trip_id` fit in memory.
    pub open spec fn fits(&self, trip_id: trip::Id) -> bool {
        self.dimensions(trip_id) matches Ok((stops, seats)) ==> stops * seats + 7 <= usize::MAX
    }

    /// No two reservations are for the same trip and seat over stop ranges
    /// that overlap.
    pub open spec fn no_double_booking(&self) -> bool {
        forall|i: int, j: int|
            0 <= i < j < self.seat_reservations@.len()
                ==> !#[trigger] self.seat_reservations@[i].clashes(&self.seat_reservations@[j])
    }

    /// Whether reservation `i` has the dimensions of its trip.
    pub open spec fn sized_for_its_trip(&self, i: int) -> bool {
        self.dimensions(self.seat_reservations@[i].trip_id) == Ok::<(nat, nat), Error>(
            (
                self.seat_reservations@[i].matrix.width as nat,
                self.seat_reservations@[i].matrix.height as nat,
            ),
        )
    }

    /// Every reservation has the dimensions of its trip, and no two are for
    /// the same trip and seat over stop ranges that overlap.
    pub open spec fn coherent(&self) -> bool {
        &&& self.no_double_booking()
        &&& forall|i: int|
            0 <= i < self.seat_reservations@.len() ==> #[trigger] self.sized_for_its_trip(i)
    }

    /// Whether the store is small enough for the grids of every trip to fit
    /// in memory, whatever the trip resolves to: a bus has at most
    /// `u8::MAX` seats, and a route at most as many stops as there are
    /// route stops.
    pub fn grids_fit(&self) -> (fit: bool)
        ensures
            fit == (self.route_stops@.len() * u8::MAX + 7 <= usize::MAX),
            fit ==> forall|trip_id: trip::Id| #[trigger] self.fits(trip_id),
    {
        let fit = self.route_stops.len() <= (usize::MAX - 7) / 255;
        proof {
            if fit {
                assert forall|trip_id: trip::Id| #[trigger] self.fits(trip_id) by {
                    lemma_small_store_fits(*self, trip_id);
                }
            }
        }
        fit
    }

    /// The occupancy of a trip has a cell in common with the row of a
    /// request exactly when one of its reservations blocks the request.
    proof fn lemma_collision_is_taken(&self, form: Form)
        requires
            self.wf(),
            form.from_stop_index <= form.to_stop_index,
        ensures
            !occupied(self.seat_reservations@, form.trip_id).disjoint(
                row_cells(
                    form.seat_index as int,
                    form.from_stop_index as int,
                    form.to_stop_index as int,
                ),
            ) <==> self.taken(form),
    {
        let records = self.seat_reservations@;
        let cells = occupied(records, form.trip_id);
        let row = row_cells(
            form.seat_index as int,
            form.from_stop_index as int,
            form.to_stop_index as int,
        );
        if !cells.disjoint(row) {
            let c = choose|c: (int, int)| cells.contains(c) && row.contains(c);
            let i = choose|i: int|
                i < records.len() && #[trigger] occupies(records, form.trip_id, i, c);
            let r = records[i];
            lemma_row_cells_clash(
                r.seat as int,
                r.from as int,
                r.to as int,
                form.seat_index as int,
                form.from_stop_index as int,
                form.to_stop_index as int,
            );
            assert(self.blocks(i, form));
        }
        if self.taken(form) {
            let i = choose|i: int| #[trigger] self.blocks(i, form);
            let r = records[i];
            lemma_row_cells_clash(
                r.seat as int,
                r.from as int,
                r.to as int,
                form.seat_index as int,
                form.from_stop_index as int,
                form.to_stop_index as int,
            );
            let c = choose|c: (int, int)| r.matrix@.contains(c) && row.contains(c);
            assert(occupies(records, form.trip_id, i, c));
        }
    }
}

pub trait ReserveSeat {
    /// Whether the store is in order and the grids of the trip of `form`
    /// fit in memory.
    spec fn can_take(&self, form: Form) -> bool;

    /// Admits the request or turns it down.
    fn reserve_seat(&mut self, form: Form) -> (result: Result<(), Error>)
        requires
            old(self).can_take(form),
    ;

    /// What trip `trip_id` resolves to.
    fn build_aggregate(&self, trip_id: trip::Id) -> Result<Aggregate, Error>;
}

impl ReserveSeat for Database {
    open spec fn can_take(&self, form: Form) -> bool {
        self.wf() && self.fits(form.trip_id)
    }

    /// The stops of the route of trip `trip_id` and the model of its bus, or
    /// the error of the first of trip, route, bus and bus model that is not
    /// stored.
    fn build_aggregate(&self, trip_id: trip::Id) -> (result: Result<Aggregate, Error>)
        ensures
            match result {
                Ok(aggregate) => match self.resolve(trip_id) {
                    Ok((route, model)) => *aggregate.bus_model == model && aggregate.stops()
                        == self.stops_of(route.id),
                    Err(_) => false,
                },
                Err(e) => self.resolve(trip_id) == Err::<(Route, BusModel), Error>(e),
            },
    {
        let trip = match self.show_trip(trip_id) {
            Some(trip) => trip,
            None => {
                return Err(Error::TripNotFound);
            },
        };
        let route = match self.show_route(trip.route_id) {
            Some(route) => route,
            None => {
                return Err(Error::RouteNotFound);
            },
        };
        let bus = match self.show_bus(trip.bus_id) {
            Some(bus) => bus,
            None => {
                return Err(Error::BusNotFound);
            },
        };
        let bus_model = match self.show_bus_model(bus.bus_model_id) {
            Some(bus_model) => bus_model,
            None => {
                return Err(Error::BusModelNotFound);
            },
        };
        let mut route_stops: Vec<&route::Stop> = Vec::new();
        let mut i: usize = 0;
        while i < self.route_stops.len()
            invariant
                i <= self.route_stops@.len(),
                route_stops@.map_values(|s: &route::Stop| *s) =~= self.route_stops@.take(
                    i as int,
                ).filter(on_route(route.id)),
            decreases self.route_stops@.len() - i,
        {
            proof {
                lemma_filter_take(self.route_stops@, on_route(route.id), i as int);
            }
            if self.route_stops[i].route_id == route.id {
                route_stops.push(&self.route_stops[i]);
            }
            i += 1;
        }
        assert(self.route_stops@.take(i as int) =~= self.route_stops@);
        Ok(Aggregate { route_stops, bus_model })
    }

    /// Admits the request and keeps its reservation, or says why not and
    /// keeps the store as it is.
    fn reserve_seat(&mut self, form: Form) -> (result: Result<(), Error>)
        ensures
            result == old(self).admission(form),
            result is Err ==> *final(self) == *old(self),
            result is Ok ==> admitted(*old(self), form, *final(self)),
            final(self).wf(),
            forall|next: Form| old(self).can_take(next) ==> #[trigger] final(self).can_take(next),
            old(self).no_double_booking() ==> final(self).no_double_booking(),
            old(self).coherent() ==> final(self).coherent(),
    {
        let (stops, seats) = match self.build_aggregate(form.trip_id) {
            Ok(aggr) => (aggr.stops_count(), aggr.seats_count()),
            Err(e) => {
                return Err(e);
            },
        };

        if form.from_stop_index >= stops {
            return Err(Error::InvalidFromStop);
        }

        if form.to_stop_index >= stops {
            return Err(Error::InvalidToStop);
        }

        if form.seat_index >= seats {
            return Err(Error::InvalidSeat);
        }

        if form.from_stop_index > form.to_stop_index {
            return Err(Error::InvalidRange);
        }

        let seat_reservation: SeatReservation = SeatReservation::new(
            form.trip_id,
            form.seat_index,
            form.from_stop_index,
            form.to_stop_index,
            seats,
            stops,
        );

        let seat_reservations: SeatReservations = match SeatReservations::build(
            form.trip_id,
            seats,
            stops,
            &self.seat_reservations,
        ) {
            Some(seat_reservations) => seat_reservations,
            None => {
                return Err(Error::InternalInconsistency);
            },
        };

        proof {
            self.lemma_collision_is_taken(form);
        }
        if seat_reservations.matrix.has_colliding_bits(&seat_reservation.matrix) {
            return Err(Error::SeatAlreadyReserved);
        }

        self.seat_reservations.push(seat_reservation);

        proof {
            assert(self.seat_reservations@.drop_last() =~= old(self).seat_reservations@);
            lemma_admitted_keeps_seats_apart(*old(self), form, *self);
            if old(self).coherent() {
                lemma_admitted_keeps_coherent(*old(self), form, *self);
            }
        }
        Ok(())
    }
}

/// A reservation that is admitted clashes with none that was kept before,
/// so a store without double bookings stays without them.
pub proof fn lemma_admitted_keeps_seats_apart(before: Database, form: Form, after: Database)
    requires
        before.admission(form) is Ok,
        admitted(before, form, after),
    ensures
        forall|i: int|
            0 <= i < before.seat_reservations@.len()
                ==> !#[trigger] before.seat_reservations@[i].clashes(
                    &after.seat_reservations@.last(),
                ),
        before.no_double_booking() ==> after.no_double_booking(),
{
    let added = after.seat_reservations@.last();
    assert forall|i: int| 0 <= i < before.seat_reservations@.len() implies
        !#[trigger] before.seat_reservations@[i].clashes(&added) by {
        if before.seat_reservations@[i].clashes(&added) {
            assert(before.blocks(i, form));
        }
    }
    if before.no_double_booking() {
        assert forall|i: int, j: int| 0 <= i < j < after.seat_reservations@.len() implies
            !#[trigger] after.seat_reservations@[i].clashes(&after.seat_reservations@[j]) by {
            assert(after.seat_reservations@[i] == before.seat_reservations@[i]);
            if j < before.seat_reservations@.len() {
                assert(after.seat_reservations@[j] == before.seat_reservations@[j]);
            }
        }
    }
}

/// A coherent store stays coherent when a reservation is admitted.
pub proof fn lemma_admitted_keeps_coherent(before: Database, form: Form, after: Database)
    requires
        before.coherent(),
        before.admission(form) is Ok,
        admitted(before, form, after),
    ensures
        after.coherent(),
{
    lemma_admitted_keeps_seats_apart(before, form, after);
    let n = before.seat_reservations@.len() as int;
    assert forall|i: int| 0 <= i < n + 1 implies #[trigger] after.sized_for_its_trip(i) by {
        if i < n {
            assert(before.sized_for_its_trip(i));
        }
    }
}

/// In a coherent store the reservations of a trip never contradict each
/// other or the dimensions of the trip.
pub proof fn lemma_coherent_store_never_faults(database: Database, form: Form)
    requires
        database.coherent(),
    ensures
        database.admission(form) != Err::<(), Error>(Error::InternalInconsistency),
{
    if database.dimensions(form.trip_id) is Ok {
        let (stops, seats) = database.dimensions(form.trip_id)->Ok_0;
        let records = database.seat_reservations@;
        assert forall|i: int|
            0 <= i < records.len() && (#[trigger] records[i]).trip_id == form.trip_id implies
            records[i].matrix.width == stops && records[i].matrix.height == seats by {
            assert(database.sized_for_its_trip(i));
        }
    }
}

/// The same request, made again after it was admitted, is turned down
/// because the seat is taken.
pub proof fn lemma_repeat_is_rejected(before: Database, form: Form, after: Database)
    requires
        before.admission(form) is Ok,
        admitted(before, form, after),
    ensures
        after.admission(form) == Err::<(), Error>(Error::SeatAlreadyReserved),
{
    lemma_admitted_keeps_seats_apart(before, form, after);
    let n = before.seat_reservations@.len() as int;
    assert(forall|i: int|
        0 <= i < n ==> after.seat_reservations@[i] == before.seat_reservations@[i]);
    assert(after.blocks(n, form));
}

/// A request is turned down as taken only if a reservation of its trip has
/// its seat at one of its stops. A request that is in range for its trip,
/// and that no reservation blocks, is admitted if the reservations of the
/// trip are consistent.
pub proof fn lemma_free_seat_is_admitted(database: Database, form: Form)
    requires
        forall|i: int| !database.blocks(i, form),
    ensures
        database.admission(form) != Err::<(), Error>(Error::SeatAlreadyReserved),
        database.dimensions(form.trip_id) matches Ok((stops, seats)) ==> (form.from_stop_index
            <= form.to_stop_index < stops && form.seat_index < seats && consistent(
            database.seat_reservations@,
            form.trip_id,
            seats as int,
            stops as int,
        ) ==> database.admission(form) is Ok),
{
}

/// Of the trip, its route, its bus and the model of its bus, the first that
/// is not stored decides the error, whatever else is missing.
pub proof fn lemma_first_missing_decides(database: Database, form: Form)
    ensures
        database.find_trip(form.trip_id) is None ==> database.admission(form) == Err::<(), Error>(
            Error::TripNotFound,
        ),
        database.find_trip(form.trip_id) matches Some(trip) ==> {
            &&& database.find_route(trip.route_id) is None ==> database.admission(form) == Err::<
                (),
                Error,
            >(Error::RouteNotFound)
            &&& database.find_route(trip.route_id) is Some ==> {
                &&& database.find_bus(trip.bus_id) is None ==> database.admission(form) == Err::<
                    (),
                    Error,
                >(Error::BusNotFound)
                &&& database.find_bus(trip.bus_id) matches Some(bus) ==> (database.find_bus_model(
                    bus.bus_model_id,
                ) is None ==> database.admission(form) == Err::<(), Error>(
                    Error::BusModelNotFound,
                ))
            }
        },
{
}

/// Stops and seats are counted from zero: the number of stops is no stop,
/// and the number of seats is no seat.
pub proof fn lemma_counts_are_out_of_range(database: Database, form: Form)
    ensures
        database.dimensions(form.trip_id) matches Ok((stops, seats)) ==> {
            &&& form.from_stop_index >= stops ==> database.admission(form) == Err::<(), Error>(
                Error::InvalidFromStop,
            )
            &&& form.from_stop_index < stops && form.to_stop_index >= stops ==> database.admission(
                form,
            ) == Err::<(), Error>(Error::InvalidToStop)
            &&& form.from_stop_index < stops && form.to_stop_index < stops && form.seat_index
                >= seats ==> database.admission(form) == Err::<(), Error>(Error::InvalidSeat)
        },
{
}

/// A reservation that is admitted for one trip changes nothing for the
/// requests on another.
pub proof fn lemma_trips_do_not_interact(
    before: Database,
    form: Form,
    after: Database,
    other: Form,
)
    requires
        admitted(before, form, after),
        other.trip_id != form.trip_id,
    ensures
        after.admission(other) == before.admission(other),
{
    let n = before.seat_reservations@.len() as int;
    let old_records = before.seat_reservations@;
    let new_records = after.seat_reservations@;
    assert(forall|i: int| 0 <= i < n ==> new_records[i] == old_records[i]);
    assert(after.taken(other) == before.taken(other)) by {
        if after.taken(other) {
            let i = choose|i: int| #[trigger] after.blocks(i, other);
            assert(before.blocks(i, other));
        }
        if before.taken(other) {
            let i = choose|i: int| #[trigger] before.blocks(i, other);
            assert(after.blocks(i, other));
        }
    }
    if before.dimensions(other.trip_id) is Ok {
        let (stops, seats) = before.dimensions(other.trip_id)->Ok_0;
        assert(consistent(new_records, other.trip_id, seats as int, stops as int) == consistent(
            old_records,
            other.trip_id,
            seats as int,
            stops as int,
        ));
    }
}

/// With at most `u8::MAX` seats on a bus, the grids of every trip fit in
/// memory if `u8::MAX` times the number of route stops, and 7 more, fits in
/// `usize`.
pub proof fn lemma_small_store_fits(database: Database, trip_id: trip::Id)
    requires
        database.route_stops@.len() * u8::MAX + 7 <= usize::MAX,
    ensures
        database.fits(trip_id),
{
    if database.dimensions(trip_id) is Ok {
        let (route, model) = database.resolve(trip_id)->Ok_0;
        let stops = database.stops_of(route.id).len();
        let seats = model.number_of_seats as nat;
        database.route_stops@.lemma_filter_len(on_route(route.id));
        assert(stops * seats <= database.route_stops@.len() * 255) by (nonlinear_arith)
            requires
                stops <= database.route_stops@.len(),
                seats <= 255,
        ;
    }
}

} // verus!
