use vstd::prelude::*;

verus! {

/// Seconds since the Unix epoch; negative values name moments before 1970.
pub type Timestamp = i64;

/// Identifier of a user record, never interchangeable with other id spaces.
#[derive(Clone, Copy, PartialEq, Eq, Structural, Debug)]
pub struct UserId(pub u32);

/// Identifier of a location record.
#[derive(Clone, Copy, PartialEq, Eq, Structural, Debug)]
pub struct LocationId(pub u32);

/// Identifier of a visit record.
#[derive(Clone, Copy, PartialEq, Eq, Structural, Debug)]
pub struct VisitId(pub u32);

/// A user's gender; the wire representation is the single letter
/// `m` or `f`.
#[derive(Clone, Copy, PartialEq, Eq, Structural, Debug)]
pub enum Gender {
    Male,
    Female,
}

impl Gender {
    /// The single-letter wire code of this gender.
    pub fn code(&self) -> (c: char)
        ensures
            c == (match self {
                Gender::Male => 'm',
                Gender::Female => 'f',
            }),
    {
        match self {
            Gender::Male => 'm',
            Gender::Female => 'f',
        }
    }

    /// Reads a gender from its single-letter wire code; any other
    /// letter is not a gender.
    pub fn from_code(c: char) -> (g: Option<Gender>)
        ensures
            g == (if c == 'm' {
                Some(Gender::Male)
            } else if c == 'f' {
                Some(Gender::Female)
            } else {
                None::<Gender>
            }),
    {
        if c == 'm' {
            Some(Gender::Male)
        } else if c == 'f' {
            Some(Gender::Female)
        } else {
            None
        }
    }
}

/// A user record.
#[derive(PartialEq, Debug)]
pub struct User {
    pub id: UserId,
    pub email: String,
    pub first_name: String,
    pub last_name: String,
    pub gender: Gender,
    pub birth_date: Timestamp,
}

impl Clone for User {
    /// An exact copy, field for field.
    fn clone(&self) -> (r: Self)
        ensures
            r == *self,
    {
        User {
            id: self.id,
            email: self.email.clone(),
            first_name: self.first_name.clone(),
            last_name: self.last_name.clone(),
            gender: self.gender,
            birth_date: self.birth_date,
        }
    }
}

/// A location record.
#[derive(PartialEq, Debug)]
pub struct Location {
    pub id: LocationId,
    pub place: String,
    pub country: String,
    pub city: String,
    pub distance: u32,
}

impl Clone for Location {
    /// An exact copy, field for field.
    fn clone(&self) -> (r: Self)
        ensures
            r == *self,
    {
        Location {
            id: self.id,
            place: self.place.clone(),
            country: self.country.clone(),
            city: self.city.clone(),
            distance: self.distance,
        }
    }
}

/// A visit record: a user was at a location at a moment and left a mark.
#[derive(Clone, Copy, PartialEq, Eq, Structural, Debug)]
pub struct Visit {
    pub id: VisitId,
    pub location: LocationId,
    pub user: UserId,
    pub visited_at: Timestamp,
    pub mark: u8,
}

} // verus!
