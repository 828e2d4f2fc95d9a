//! Reservations of one seat over a range of stops, and the occupancy of a
//! trip that they add up to.
//!
//! A grid of a trip has one column per stop of its route and one row per
//! seat of its bus.

use crate::bool_matrix::row_cells;
use crate::bool_matrix::BoolMatrix;
use crate::trip;
use vstd::prelude::*;

verus! {

/// Whether the stops `from_a..=to_a` of seat `seat_a` and the stops
/// `from_b..=to_b` of seat `seat_b` have a seat and a stop in common.
pub open spec fn ranges_clash(
    seat_a: int,
    from_a: int,
    to_a: int,
    seat_b: int,
    from_b: int,
    to_b: int,
) -> bool {
    seat_a == seat_b && from_a <= to_b && from_b <= to_a
}

/// Two non-empty stop ranges share a cell exactly when they are on the same
/// seat and overlap.
pub proof fn lemma_row_cells_clash(
    seat_a: int,
    from_a: int,
    to_a: int,
    seat_b: int,
    from_b: int,
    to_b: int,
)
    requires
        from_a <= to_a,
        from_b <= to_b,
    ensures
        !row_cells(seat_a, from_a, to_a).disjoint(row_cells(seat_b, from_b, to_b)) <==> ranges_clash(
            seat_a,
            from_a,
            to_a,
            seat_b,
            from_b,
            to_b,
        ),
{
    let a = row_cells(seat_a, from_a, to_a);
    let b = row_cells(seat_b, from_b, to_b);
    if ranges_clash(seat_a, from_a, to_a, seat_b, from_b, to_b) {
        let x = if from_a <= from_b {
            from_b
        } else {
            from_a
        };
        assert(a.contains((x, seat_a)) && b.contains((x, seat_a)));
    }
}

/// One admitted request: seat `seat` of trip `trip_id`, from stop `from`
/// to stop `to`, both included.
#[derive(Clone, Debug, PartialEq, Eq)]
pub struct SeatReservation {
    pub trip_id: trip::Id,
    /// The seat, counted from zero.
    pub seat: usize,
    /// The first stop, counted from zero along the route.
    pub from: usize,
    /// The last stop.
    pub to: usize,
    /// The grid of the trip with the cells of the reservation set.
    pub matrix: BoolMatrix,
}

/// The occupancy of one trip.
pub struct SeatReservations {
    pub trip_id: trip::Id,
    /// The grid of the trip with the cells of its reservations set.
    pub matrix: BoolMatrix,
}

/// Whether record `i` is of trip `trip_id` and occupies the cell `c`.
pub open spec fn occupies(
    records: Seq<SeatReservation>,
    trip_id: trip::Id,
    i: int,
    c: (int, int),
) -> bool {
    0 <= i < records.len() && records[i].trip_id == trip_id && records[i].matrix@.contains(c)
}

/// The cells that the first `n` records occupy on trip `trip_id`.
pub open spec fn occupied_upto(records: Seq<SeatReservation>, trip_id: trip::Id, n: int) -> Set<
    (int, int),
> {
    Set::new(|c: (int, int)| exists|i: int| i < n && #[trigger] occupies(records, trip_id, i, c))
}

/// The cells that the records occupy on trip `trip_id`.
pub open spec fn occupied(records: Seq<SeatReservation>, trip_id: trip::Id) -> Set<(int, int)> {
    occupied_upto(records, trip_id, records.len() as int)
}

/// Whether, among the first `n` records, those of trip `trip_id` have grids
/// of `stops` columns and `seats` rows, and no two of them clash.
pub open spec fn consistent_upto(
    records: Seq<SeatReservation>,
    trip_id: trip::Id,
    seats: int,
    stops: int,
    n: int,
) -> bool {
    &&& forall|i: int|
        0 <= i < n && i < records.len() && (#[trigger] records[i]).trip_id == trip_id
            ==> records[i].matrix.width == stops && records[i].matrix.height == seats
    &&& forall|i: int, j: int|
        0 <= i < j < n && j < records.len() && records[i].trip_id == trip_id
            ==> !#[trigger] records[i].clashes(&records[j])
}

/// Whether the records of trip `trip_id` have grids of `stops` columns and
/// `seats` rows, and no two of them clash.
pub open spec fn consistent(
    records: Seq<SeatReservation>,
    trip_id: trip::Id,
    seats: int,
    stops: int,
) -> bool {
    consistent_upto(records, trip_id, seats, stops, records.len() as int)
}

impl SeatReservations {
    /// The occupancy of a trip without reservations.
    pub fn new(trip_id: trip::Id, seats: usize, stops: usize) -> (empty: Self)
        requires
            stops * seats + 7 <= usize::MAX,
        ensures
            empty.trip_id == trip_id,
            empty.matrix.wf(),
            empty.matrix.width == stops,
            empty.matrix.height == seats,
            empty.matrix@ == Set::<(int, int)>::empty(),
    {
        let matrix = BoolMatrix::new(stops, seats);

        Self { trip_id, matrix }
    }

    /// The occupancy with one more reservation, if its grid has the same
    /// dimensions and none of its cells is occupied; `None` otherwise.
    pub fn try_add(&self, reservation: &SeatReservation) -> (sum: Option<Self>)
        requires
            self.matrix.wf(),
            reservation.matrix.wf(),
        ensures
            sum.is_some() <==> (self.matrix.width == reservation.matrix.width && self.matrix.height
                == reservation.matrix.height && self.matrix@.disjoint(reservation.matrix@)),
            sum matches Some(s) ==> s.trip_id == self.trip_id && s.matrix.wf() && s.matrix.width
                == self.matrix.width && s.matrix.height == self.matrix.height && s.matrix@
                == self.matrix@.union(reservation.matrix@),
    {
        let matrix: BoolMatrix = BoolMatrix::try_add(&self.matrix, &reservation.matrix)?;

        Some(Self { trip_id: self.trip_id, matrix })
    }

    /// The occupancy of trip `trip_id` that the records add up to, if they
    /// are consistent with each other and with the dimensions of the trip;
    /// `None` otherwise.
    pub fn build(
        trip_id: trip::Id,
        seats: usize,
        stops: usize,
        records: &Vec<SeatReservation>,
    ) -> (built: Option<Self>)
        requires
            stops * seats + 7 <= usize::MAX,
            forall|i: int| 0 <= i < records@.len() ==> (#[trigger] records@[i]).wf(),
        ensures
            built.is_some() <==> consistent(records@, trip_id, seats as int, stops as int),
            built matches Some(b) ==> b.trip_id == trip_id && b.matrix.wf() && b.matrix.width
                == stops && b.matrix.height == seats && b.matrix@ == occupied(records@, trip_id),
    {
        let mut cumulative = Self::new(trip_id, seats, stops);
        let mut i: usize = 0;
        while i < records.len()
            invariant
                i <= records@.len(),
                forall|k: int| 0 <= k < records@.len() ==> (#[trigger] records@[k]).wf(),
                cumulative.trip_id == trip_id,
                cumulative.matrix.wf(),
                cumulative.matrix.width == stops,
                cumulative.matrix.height == seats,
                cumulative.matrix@ =~= occupied_upto(records@, trip_id, i as int),
                consistent_upto(records@, trip_id, seats as int, stops as int, i as int),
            decreases records@.len() - i,
        {
            let record = &records[i];
            if record.trip_id() == trip_id {
                match cumulative.try_add(record) {
                    Some(next) => {
                        proof {
                            lemma_record_fits(records@, trip_id, i as int, cumulative.matrix@);
                        }
                        cumulative = next;
                    },
                    None => {
                        proof {
                            lemma_record_misfits(
                                records@,
                                trip_id,
                                seats as int,
                                stops as int,
                                i as int,
                                cumulative.matrix@,
                            );
                        }
                        return None;
                    },
                }
            }
            i += 1;
        }
        Some(cumulative)
    }
}

/// A record whose cells are free of the records before it clashes with
/// none of them.
proof fn lemma_record_fits(
    records: Seq<SeatReservation>,
    trip_id: trip::Id,
    i: int,
    taken: Set<(int, int)>,
)
    requires
        0 <= i < records.len(),
        forall|k: int| 0 <= k < records.len() ==> (#[trigger] records[k]).wf(),
        records[i].trip_id == trip_id,
        taken =~= occupied_upto(records, trip_id, i),
        taken.disjoint(records[i].matrix@),
    ensures
        forall|k: int|
            0 <= k < i && records[k].trip_id == trip_id ==> !#[trigger] records[k].clashes(
                &records[i],
            ),
        taken.union(records[i].matrix@) =~= occupied_upto(records, trip_id, i + 1),
{
    let r = records[i];
    assert forall|k: int| 0 <= k < i && records[k].trip_id == trip_id implies
        !#[trigger] records[k].clashes(&records[i]) by {
        let q = records[k];
        if q.clashes(&r) {
            lemma_row_cells_clash(
                q.seat as int,
                q.from as int,
                q.to as int,
                r.seat as int,
                r.from as int,
                r.to as int,
            );
            let c = choose|c: (int, int)| q.matrix@.contains(c) && r.matrix@.contains(c);
            assert(occupies(records, trip_id, k, c));
        }
    }
    assert forall|c: (int, int)|
        taken.union(r.matrix@).contains(c) == occupied_upto(records, trip_id, i + 1).contains(
            c,
        ) by {
        if r.matrix@.contains(c) {
            assert(occupies(records, trip_id, i, c));
        }
    }
}

/// A record of another size than the trip, or with a cell that a record
/// before it occupies, makes the records inconsistent.
proof fn lemma_record_misfits(
    records: Seq<SeatReservation>,
    trip_id: trip::Id,
    seats: int,
    stops: int,
    i: int,
    taken: Set<(int, int)>,
)
    requires
        0 <= i < records.len(),
        forall|k: int| 0 <= k < records.len() ==> (#[trigger] records[k]).wf(),
        records[i].trip_id == trip_id,
        taken =~= occupied_upto(records, trip_id, i),
        !(records[i].matrix.width == stops && records[i].matrix.height == seats && taken.disjoint(
            records[i].matrix@,
        )),
    ensures
        !consistent(records, trip_id, seats, stops),
{
    let r = records[i];
    if r.matrix.width == stops && r.matrix.height == seats {
        let c = choose|c: (int, int)| taken.contains(c) && r.matrix@.contains(c);
        let k = choose|k: int| k < i && #[trigger] occupies(records, trip_id, k, c);
        let q = records[k];
        lemma_row_cells_clash(
            q.seat as int,
            q.from as int,
            q.to as int,
            r.seat as int,
            r.from as int,
            r.to as int,
        );
        assert(records[k].clashes(&records[i]));
    }
}

impl SeatReservation {
    /// The grid has one row set over the reserved stops, and nothing else.
    pub open spec fn wf(&self) -> bool {
        &&& self.matrix.wf()
        &&& self.from <= self.to < self.matrix.width
        &&& self.seat < self.matrix.height
        &&& self.matrix@ == row_cells(self.seat as int, self.from as int, self.to as int)
    }

    /// Whether the two are for the same trip and seat, over stop ranges that
    /// overlap.
    pub open spec fn clashes(&self, other: &Self) -> bool {
        self.trip_id == other.trip_id && ranges_clash(
            self.seat as int,
            self.from as int,
            self.to as int,
            other.seat as int,
            other.from as int,
            other.to as int,
        )
    }

    /// The trip that the reservation is for.
    pub fn trip_id(&self) -> (id: trip::Id)
        ensures
            id == self.trip_id,
    {
        self.trip_id
    }

    /// The reservation of seat `seat` from stop `from` to stop `to`, both
    /// included, on a trip with `seats` seats and `stops` stops.
    pub fn new(
        trip_id: trip::Id,
        seat: usize,
        from: usize,
        to: usize,
        seats: usize,
        stops: usize,
    ) -> (reservation: Self)
        requires
            stops * seats + 7 <= usize::MAX,
            from <= to,
            to < stops,
            seat < seats,
        ensures
            reservation.wf(),
            reservation.trip_id == trip_id,
            reservation.seat == seat,
            reservation.from == from,
            reservation.to == to,
            reservation.matrix.width == stops,
            reservation.matrix.height == seats,
    {
        let mut matrix = BoolMatrix::new(stops, seats);
        matrix.set_row_range(seat, from, to, true);
        assert(matrix@ =~= row_cells(seat as int, from as int, to as int));
        Self { trip_id, seat, from, to, matrix }
    }

    /// The number of seats of the trip.
    pub fn seats(&self) -> (seats: usize)
        ensures
            seats == self.matrix.height,
    {
        self.matrix.height
    }

    /// The number of stops of the trip.
    pub fn stops(&self) -> (stops: usize)
        ensures
            stops == self.matrix.width,
    {
        self.matrix.width
    }
}

} // verus!
