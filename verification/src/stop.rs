//! Stops.

use vstd::prelude::*;

verus! {

/// The identifier of a stop.
#[derive(Debug, Default, PartialEq, Eq, Structural)]
pub struct Id(pub u64);

/// A place where buses stop.
#[derive(Debug)]
pub struct Stop {
    pub id: Id,
    pub name: String,
}

} // verus!
