//! Bus models. The model of a bus fixes how many seats it has.

use vstd::prelude::*;

verus! {

/// The identifier of a bus model.
#[derive(Clone, Copy, Debug, Default, PartialEq, Eq, Structural)]
pub struct Id(pub u64);

/// A bus model with its number of seats.
#[derive(Debug, Default, PartialEq, Eq)]
pub struct BusModel {
    pub id: Id,
    pub name: String,
    pub number_of_seats: u8,
}

} // verus!
