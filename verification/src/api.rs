use vstd::prelude::*;

use crate::data::{LocationId, Timestamp, UserId};
use crate::database::{
    average_result_matches, list_result_matches, location_created, location_updated, user_created,
    user_updated, visit_created, visit_updated, Database,
};
use crate::request::{
    CreateEntity, GetAverageLocationRating, GetEntity, GetRequest, GetVisits, PostRequest,
    UpdateEntity,
};
use crate::response::{GetResponse, Status, VisitItem};

verus! {

/// What fetching one record returns: an exact copy of the stored
/// record, or `NotFound` when its id is absent from the corresponding
/// primary map.
pub open spec fn entity_fetched(db: Database, ge: GetEntity, r: Result<
    GetResponse,
    Status,
>) -> bool {
    match ge {
        GetEntity::User(id) => if db.users_m().contains_key(id.0) {
            r == Ok::<GetResponse, Status>(GetResponse::User(db.users_m()[id.0]))
        } else {
            r == Err::<GetResponse, Status>(Status::NotFound)
        },
        GetEntity::Location(id) => if db.locations_m().contains_key(id.0) {
            r == Ok::<GetResponse, Status>(GetResponse::Location(db.locations_m()[id.0]))
        } else {
            r == Err::<GetResponse, Status>(Status::NotFound)
        },
        GetEntity::Visit(id) => if db.visits_m().contains_key(id.0) {
            r == Ok::<GetResponse, Status>(GetResponse::Visit(db.visits_m()[id.0]))
        } else {
            r == Err::<GetResponse, Status>(Status::NotFound)
        },
    }
}

/// What a read request returns, case by case.
pub open spec fn get_dispatched(
    db: Database,
    now: Timestamp,
    request: GetRequest,
    r: Result<GetResponse, Status>,
) -> bool {
    match request {
        GetRequest::GetEntity(ge) => entity_fetched(db, ge, r),
        GetRequest::GetVisits(id, p) => match r {
            Ok(GetResponse::Visits(items)) => list_result_matches(db, id, p, Ok(items)),
            Err(e) => list_result_matches(db, id, p, Err::<Vec<VisitItem>, Status>(e)),
            _ => false,
        },
        GetRequest::GetAverageLocationRating(id, p) => match r {
            Ok(GetResponse::Average(a)) => average_result_matches(db, id, p, now, Ok(a)),
            Err(e) => average_result_matches(db, id, p, now, Err::<u64, Status>(e)),
            _ => false,
        },
    }
}

/// What a partial update does, case by case.
pub open spec fn update_dispatched(
    pre: Database,
    post: Database,
    request: UpdateEntity,
    r: Result<(), Status>,
) -> bool {
    match request {
        UpdateEntity::User(id, up) => user_updated(pre, post, id, up, r),
        UpdateEntity::Location(id, up) => location_updated(pre, post, id, up, r),
        UpdateEntity::Visit(id, up) => visit_updated(pre, post, id, up, r),
    }
}

/// What an insertion does, case by case.
pub open spec fn create_dispatched(
    pre: Database,
    post: Database,
    request: CreateEntity,
    r: Result<(), Status>,
) -> bool {
    match request {
        CreateEntity::User(u) => user_created(pre, post, u, r),
        CreateEntity::Location(l) => location_created(pre, post, l, r),
        CreateEntity::Visit(v) => visit_created(pre, post, v, r),
    }
}

/// What a mutation request does, case by case.
pub open spec fn post_dispatched(
    pre: Database,
    post: Database,
    request: PostRequest,
    r: Result<(), Status>,
) -> bool {
    match request {
        PostRequest::UpdateEntity(u) => update_dispatched(pre, post, u, r),
        PostRequest::CreateEntity(c) => create_dispatched(pre, post, c, r),
    }
}

/// The query and mutation engine over one store, together with the
/// immutable time reference that the age filters use, resolved once
/// at startup and injected here. Reads take `&self`, so any number
/// may share the store at once; mutations take `&mut self`, so each
/// holds it exclusively.
pub struct Api {
    pub database: Database,
    pub now: Timestamp,
}

impl Api {
    /// The store behind this engine is well-formed.
    pub open spec fn wf(self) -> bool {
        self.database.wf()
    }

    /// Point lookup of one record; no filtering.
    pub fn get_entity(&self, request: GetEntity) -> (r: Result<GetResponse, Status>)
        requires
            self.wf(),
        ensures
            entity_fetched(self.database, request, r),
    {
        match request {
            GetEntity::User(id) => match self.database.user(id) {
                Some(u) => Ok(GetResponse::User(u.clone())),
                None => Err(Status::NotFound),
            },
            GetEntity::Location(id) => match self.database.location(id) {
                Some(l) => Ok(GetResponse::Location(l.clone())),
                None => Err(Status::NotFound),
            },
            GetEntity::Visit(id) => match self.database.visit(id) {
                Some(v) => Ok(GetResponse::Visit(*v)),
                None => Err(Status::NotFound),
            },
        }
    }

    /// Lists a user's visits under the given filters.
    pub fn get_visits(&self, id: UserId, parameters: GetVisits) -> (r: Result<
        Vec<VisitItem>,
        Status,
    >)
        requires
            self.wf(),
        ensures
            list_result_matches(self.database, id, parameters, r),
    {
        self.database.list_visits(id, &parameters)
    }

    /// Averages a location's marks under the given filters.
    pub fn get_average_location_rating(
        &self,
        id: LocationId,
        parameters: GetAverageLocationRating,
    ) -> (r: Result<u64, Status>)
        requires
            self.wf(),
        ensures
            average_result_matches(self.database, id, parameters, self.now, r),
    {
        self.database.average_location_rating(id, &parameters, self.now)
    }

    /// Dispatches a read-only request. Reads share the store: this
    /// takes `&self` and can run concurrently under a shared lock.
    pub fn do_get(&self, request: GetRequest) -> (r: Result<GetResponse, Status>)
        requires
            self.wf(),
        ensures
            get_dispatched(self.database, self.now, request, r),
    {
        match request {
            GetRequest::GetEntity(entity_request) => self.get_entity(entity_request),
            GetRequest::GetVisits(id, parameters) => match self.get_visits(id, parameters) {
                Ok(items) => Ok(GetResponse::Visits(items)),
                Err(e) => Err(e),
            },
            GetRequest::GetAverageLocationRating(id, parameters) => match self
                .get_average_location_rating(id, parameters) {
                Ok(avg) => Ok(GetResponse::Average(avg)),
                Err(e) => Err(e),
            },
        }
    }

    /// Applies a partial update to one record.
    pub fn update_entity(&mut self, request: UpdateEntity) -> (r: Result<(), Status>)
        requires
            old(self).wf(),
        ensures
            final(self).wf(),
            final(self).now == old(self).now,
            update_dispatched(old(self).database, final(self).database, request, r),
    {
        match request {
            UpdateEntity::User(id, update) => self.database.update_user(id, &update),
            UpdateEntity::Location(id, update) => self.database.update_location(id, &update),
            UpdateEntity::Visit(id, update) => self.database.update_visit(id, &update),
        }
    }

    /// Validates and inserts one freshly supplied record.
    pub fn create_entity(&mut self, request: CreateEntity) -> (r: Result<(), Status>)
        requires
            old(self).wf(),
        ensures
            final(self).wf(),
            final(self).now == old(self).now,
            create_dispatched(old(self).database, final(self).database, request, r),
    {
        match request {
            CreateEntity::User(user) => self.database.create_user(user),
            CreateEntity::Location(location) => self.database.create_location(location),
            CreateEntity::Visit(visit) => self.database.create_visit(visit),
        }
    }

    /// Dispatches a mutation. Mutations exclude everything else:
    /// this takes `&mut self` and runs under an exclusive lock, so
    /// field applications of two updates never interleave.
    pub fn do_post(&mut self, request: PostRequest) -> (r: Result<(), Status>)
        requires
            old(self).wf(),
        ensures
            final(self).wf(),
            final(self).now == old(self).now,
            post_dispatched(old(self).database, final(self).database, request, r),
    {
        match request {
            PostRequest::UpdateEntity(update) => self.update_entity(update),
            PostRequest::CreateEntity(entity) => self.create_entity(entity),
        }
    }
}

} // verus!
