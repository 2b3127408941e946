use vstd::prelude::*;

use crate::data::{Location, Timestamp, User, Visit};

verus! {

/// Outcome categories of a request, independent of any transport
/// encoding.
#[derive(Clone, Copy, PartialEq, Eq, Structural, Debug)]
pub enum Status {
    /// The subject id is absent from its primary map.
    NotFound,
    /// A mutation names a missing user or location, or reuses an id.
    Invalid,
    /// The input itself is malformed.
    BadRequest,
    /// An index entry pointed at a record that is not there; a store
    /// inconsistency, not bad input.
    Internal,
}

/// One row of a visit listing: the visit's mark and moment together
/// with the visited place's name.
#[derive(Clone, PartialEq, Debug)]
pub struct VisitItem {
    pub mark: u8,
    pub visited_at: Timestamp,
    pub place: String,
}

/// The payload of a successful read request. An average carries the
/// mean mark scaled by 100000 and rounded half away from zero, so
/// `350000` renders as `3.50000`.
#[derive(PartialEq, Debug)]
pub enum GetResponse {
    User(User),
    Location(Location),
    Visit(Visit),
    Visits(Vec<VisitItem>),
    Average(u64),
}

} // verus!
