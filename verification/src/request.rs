use vstd::prelude::*;

use crate::data::{Gender, Location, LocationId, Timestamp, User, UserId, Visit, VisitId};

verus! {

/// A field of a partial update: either present with a value, or
/// omitted altogether. An explicit null on the wire is a malformed
/// request, never a value of this type, so there is no way to clear
/// a field.
#[derive(Clone, Copy, PartialEq, Eq, Debug)]
pub enum Optional<T> {
    Something(T),
    Nothing,
}

impl<T> Default for Optional<T> {
    /// An omitted field.
    fn default() -> (r: Self)
        ensures
            r is Nothing,
    {
        Optional::Nothing
    }
}

/// A decoded request.
#[derive(Debug)]
pub enum Request {
    Get(GetRequest),
    Post(PostRequest),
}

/// A decoded read-only request.
#[derive(Debug)]
pub enum GetRequest {
    GetEntity(GetEntity),
    GetVisits(UserId, GetVisits),
    GetAverageLocationRating(LocationId, GetAverageLocationRating),
}

/// A decoded mutation request.
#[derive(Debug)]
pub enum PostRequest {
    UpdateEntity(UpdateEntity),
    CreateEntity(CreateEntity),
}

/// A point lookup of one record.
#[derive(Clone, Copy, PartialEq, Eq, Structural, Debug)]
pub enum GetEntity {
    User(UserId),
    Location(LocationId),
    Visit(VisitId),
}

/// Filters of a visit listing. Absent bounds mean the widest range;
/// both date bounds are exclusive.
#[derive(Clone, PartialEq, Debug)]
pub struct GetVisits {
    pub from_date: Option<Timestamp>,
    pub to_date: Option<Timestamp>,
    pub country: Option<String>,
    pub to_distance: Option<u32>,
}

impl Default for GetVisits {
    /// No filters at all.
    fn default() -> (r: Self)
        ensures
            r.from_date is None,
            r.to_date is None,
            r.country is None,
            r.to_distance is None,
    {
        GetVisits { from_date: None, to_date: None, country: None, to_distance: None }
    }
}

/// Filters of an average-rating aggregation. Ages are whole years;
/// all bounds are exclusive.
#[derive(Clone, Copy, PartialEq, Debug)]
pub struct GetAverageLocationRating {
    pub from_date: Option<Timestamp>,
    pub to_date: Option<Timestamp>,
    pub from_age: Option<Timestamp>,
    pub to_age: Option<Timestamp>,
    pub gender: Option<Gender>,
}

impl Default for GetAverageLocationRating {
    /// No filters at all.
    fn default() -> (r: Self)
        ensures
            r.from_date is None,
            r.to_date is None,
            r.from_age is None,
            r.to_age is None,
            r.gender is None,
    {
        GetAverageLocationRating {
            from_date: None,
            to_date: None,
            from_age: None,
            to_age: None,
            gender: None,
        }
    }
}

/// A partial update of one record.
#[derive(Debug)]
pub enum UpdateEntity {
    User(UserId, UserUpdate),
    Location(LocationId, LocationUpdate),
    Visit(VisitId, VisitUpdate),
}

/// The fields of a user that a partial update may overwrite.
#[derive(Clone, PartialEq, Debug)]
pub struct UserUpdate {
    pub email: Optional<String>,
    pub first_name: Optional<String>,
    pub last_name: Optional<String>,
    pub gender: Optional<Gender>,
    pub birth_date: Optional<Timestamp>,
}

impl UserUpdate {
    /// The record as it stands after the specified fields overwrite `u`.
    pub open spec fn applied(self, u: User) -> User {
        User {
            id: u.id,
            email: match self.email {
                Optional::Something(e) => e,
                Optional::Nothing => u.email,
            },
            first_name: match self.first_name {
                Optional::Something(f) => f,
                Optional::Nothing => u.first_name,
            },
            last_name: match self.last_name {
                Optional::Something(l) => l,
                Optional::Nothing => u.last_name,
            },
            gender: match self.gender {
                Optional::Something(g) => g,
                Optional::Nothing => u.gender,
            },
            birth_date: match self.birth_date {
                Optional::Something(b) => b,
                Optional::Nothing => u.birth_date,
            },
        }
    }
}

/// The fields of a location that a partial update may overwrite.
#[derive(Clone, PartialEq, Debug)]
pub struct LocationUpdate {
    pub place: Optional<String>,
    pub country: Optional<String>,
    pub city: Optional<String>,
    pub distance: Optional<u32>,
}

impl LocationUpdate {
    /// The record as it stands after the specified fields overwrite `l`.
    pub open spec fn applied(self, l: Location) -> Location {
        Location {
            id: l.id,
            place: match self.place {
                Optional::Something(p) => p,
                Optional::Nothing => l.place,
            },
            country: match self.country {
                Optional::Something(c) => c,
                Optional::Nothing => l.country,
            },
            city: match self.city {
                Optional::Something(c) => c,
                Optional::Nothing => l.city,
            },
            distance: match self.distance {
                Optional::Something(d) => d,
                Optional::Nothing => l.distance,
            },
        }
    }
}

/// The fields of a visit that a partial update may overwrite.
#[derive(Clone, Copy, PartialEq, Eq, Debug)]
pub struct VisitUpdate {
    pub location: Optional<LocationId>,
    pub user: Optional<UserId>,
    pub visited_at: Optional<Timestamp>,
    pub mark: Optional<u8>,
}

impl VisitUpdate {
    /// The record as it stands after the specified fields overwrite `v`.
    pub open spec fn applied(self, v: Visit) -> Visit {
        Visit {
            id: v.id,
            location: match self.location {
                Optional::Something(l) => l,
                Optional::Nothing => v.location,
            },
            user: match self.user {
                Optional::Something(u) => u,
                Optional::Nothing => v.user,
            },
            visited_at: match self.visited_at {
                Optional::Something(t) => t,
                Optional::Nothing => v.visited_at,
            },
            mark: match self.mark {
                Optional::Something(m) => m,
                Optional::Nothing => v.mark,
            },
        }
    }

    /// An update that specifies no field at all.
    pub open spec fn is_empty(self) -> bool {
        &&& self.location is Nothing
        &&& self.user is Nothing
        &&& self.visited_at is Nothing
        &&& self.mark is Nothing
    }
}

/// A freshly supplied record to insert.
#[derive(Debug)]
pub enum CreateEntity {
    User(User),
    Location(Location),
    Visit(Visit),
}

} // verus!
