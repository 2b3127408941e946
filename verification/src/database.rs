use std::collections::HashMap;

use vstd::prelude::*;

use crate::data::{Location, LocationId, Timestamp, User, UserId, Visit, VisitId};
use crate::index::{time_map, VisitIndex};
use crate::request::{
    GetAverageLocationRating, GetVisits, LocationUpdate, Optional, UserUpdate, VisitUpdate,
};
use crate::response::{Status, VisitItem};

verus! {

broadcast use vstd::std_specs::hash::group_hash_axioms;

/// The foreign key that the per-user index groups by.
pub open spec fn user_key() -> spec_fn(Visit) -> u32 {
    |v: Visit| v.user.0
}

/// The foreign key that the per-location index groups by.
pub open spec fn location_key() -> spec_fn(Visit) -> u32 {
    |v: Visit| v.location.0
}

/// The bucket of a secondary index at `k`, or an empty one where the
/// index has no bucket there yet.
pub open spec fn bucket_or_empty(idx: Map<u32, Map<Timestamp, Visit>>, k: u32) -> Map<
    Timestamp,
    Visit,
> {
    if idx.contains_key(k) {
        idx[k]
    } else {
        Map::empty()
    }
}

/// Every index entry is an exact copy of the record that the primary
/// map currently holds under the entry's id, filed under that record's
/// own foreign key and timestamp. So no index ever holds a stale copy.
pub open spec fn index_accurate(
    idx: Map<u32, Map<Timestamp, Visit>>,
    visits: Map<u32, Visit>,
    key: spec_fn(Visit) -> u32,
) -> bool {
    forall|u: u32, t: Timestamp|
        idx.contains_key(u) && #[trigger] idx[u].contains_key(t) ==> {
            let e = idx[u][t];
            &&& key(e) == u
            &&& e.visited_at == t
            &&& visits.contains_key(e.id.0)
            &&& visits[e.id.0] == e
        }
}

/// Every visit of the primary map has a bucket under its current
/// foreign key; buckets are created on first insertion and never
/// dropped.
pub open spec fn buckets_exist(
    idx: Map<u32, Map<Timestamp, Visit>>,
    visits: Map<u32, Visit>,
    key: spec_fn(Visit) -> u32,
) -> bool {
    forall|vid: u32| #[trigger]
        visits.contains_key(vid) ==> idx.contains_key(key(visits[vid]))
}

/// Every visit of the primary map is reachable through the index at
/// exactly its current foreign key and timestamp.
pub open spec fn covered_in(
    idx: Map<u32, Map<Timestamp, Visit>>,
    visits: Map<u32, Visit>,
    key: spec_fn(Visit) -> u32,
) -> bool {
    forall|vid: u32| #[trigger] visits.contains_key(vid) ==> {
        let v = visits[vid];
        &&& idx.contains_key(key(v))
        &&& idx[key(v)].contains_key(v.visited_at)
        &&& idx[key(v)][v.visited_at].id.0 == vid
    }
}

/// The indexed in-memory store: three primary maps and the two
/// timestamp-ordered secondary indices, kept consistent with each
/// other through every mutation.
pub struct Database {
    users: HashMap<u32, User>,
    locations: HashMap<u32, Location>,
    visits: HashMap<u32, Visit>,
    visits_by_user: HashMap<u32, VisitIndex>,
    visits_by_location: HashMap<u32, VisitIndex>,
}

impl Database {
    /// The primary map of users.
    pub closed spec fn users_m(self) -> Map<u32, User> {
        self.users@
    }

    /// The primary map of locations.
    pub closed spec fn locations_m(self) -> Map<u32, Location> {
        self.locations@
    }

    /// The primary map of visits.
    pub closed spec fn visits_m(self) -> Map<u32, Visit> {
        self.visits@
    }

    /// The per-user secondary index, each bucket read as a map from
    /// timestamp to the stored copy.
    pub closed spec fn by_user_m(self) -> Map<u32, Map<Timestamp, Visit>> {
        self.visits_by_user@.map_values(|ix: VisitIndex| time_map(ix@))
    }

    /// The per-location secondary index.
    pub closed spec fn by_location_m(self) -> Map<u32, Map<Timestamp, Visit>> {
        self.visits_by_location@.map_values(|ix: VisitIndex| time_map(ix@))
    }

    /// The per-user bucket of `u` in ascending timestamp order; empty
    /// where there is no bucket.
    pub closed spec fn user_bucket(self, u: u32) -> Seq<Visit> {
        if self.visits_by_user@.contains_key(u) {
            self.visits_by_user@[u]@
        } else {
            Seq::empty()
        }
    }

    /// The per-location bucket of `l` in ascending timestamp order.
    pub closed spec fn location_bucket(self, l: u32) -> Seq<Visit> {
        if self.visits_by_location@.contains_key(l) {
            self.visits_by_location@[l]@
        } else {
            Seq::empty()
        }
    }

    /// Each bucket's representation is sorted.
    pub closed spec fn repr_inv(self) -> bool {
        &&& forall|u: u32| #[trigger]
            self.visits_by_user@.contains_key(u) ==> self.visits_by_user@[u].inv()
        &&& forall|l: u32| #[trigger]
            self.visits_by_location@.contains_key(l) ==> self.visits_by_location@[l].inv()
    }

    /// Every primary map files each record under its own id.
    pub open spec fn ids_consistent(self) -> bool {
        &&& forall|uid: u32| #[trigger]
            self.users_m().contains_key(uid) ==> self.users_m()[uid].id.0 == uid
        &&& forall|lid: u32| #[trigger]
            self.locations_m().contains_key(lid) ==> self.locations_m()[lid].id.0 == lid
        &&& forall|vid: u32| #[trigger]
            self.visits_m().contains_key(vid) ==> self.visits_m()[vid].id.0 == vid
    }

    /// Both secondary indices carry only exact, freshly keyed copies,
    /// and every visit's current buckets exist.
    pub open spec fn indexes_ok(self) -> bool {
        &&& index_accurate(self.by_user_m(), self.visits_m(), user_key())
        &&& index_accurate(self.by_location_m(), self.visits_m(), location_key())
        &&& buckets_exist(self.by_user_m(), self.visits_m(), user_key())
        &&& buckets_exist(self.by_location_m(), self.visits_m(), location_key())
    }

    /// The store's well-formedness, preserved by every operation.
    pub open spec fn wf(self) -> bool {
        &&& self.repr_inv()
        &&& self.ids_consistent()
        &&& self.indexes_ok()
    }

    /// Index coverage: both indices reach every visit at exactly its
    /// current key pair. It can be broken only by visits that share a
    /// timestamp within one bucket, which the store does not forbid.
    pub open spec fn covered(self) -> bool {
        &&& covered_in(self.by_user_m(), self.visits_m(), user_key())
        &&& covered_in(self.by_location_m(), self.visits_m(), location_key())
    }

    /// No two visits of the whole store share a timestamp.
    pub open spec fn distinct_times(self) -> bool {
        forall|a: u32, b: u32|
            #![trigger self.visits_m()[a], self.visits_m()[b]]
            self.visits_m().contains_key(a) && self.visits_m().contains_key(b) && a != b
                ==> self.visits_m()[a].visited_at != self.visits_m()[b].visited_at
    }

    /// No visit other than `vid` sits at timestamp `t`.
    pub open spec fn time_free(self, vid: u32, t: Timestamp) -> bool {
        forall|j: u32| #[trigger]
            self.visits_m().contains_key(j) && j != vid ==> self.visits_m()[j].visited_at != t
    }
}

/// The effective lower date bound: the given one, or the least
/// timestamp; both bounds are exclusive everywhere.
pub open spec fn eff_from(o: Option<Timestamp>) -> Timestamp {
    match o {
        Some(t) => t,
        None => i64::MIN,
    }
}

/// The effective upper date bound: the given one, or the greatest
/// timestamp.
pub open spec fn eff_to(o: Option<Timestamp>) -> Timestamp {
    match o {
        Some(t) => t,
        None => i64::MAX,
    }
}

/// Strictly between the bounds: a visit at exactly `from` or `to` is
/// out.
pub open spec fn in_range(t: Timestamp, from: Timestamp, to: Timestamp) -> bool {
    from < t && t < to
}

/// Whether a visit's location passes the listing filters: closer than
/// `to_distance`, and of exactly the filtered country.
pub open spec fn passes_filters(l: Location, p: GetVisits) -> bool {
    &&& (p.to_distance matches Some(d) ==> l.distance < d)
    &&& (p.country matches Some(c) ==> l.country@ == c@)
}

/// Whether an in-range visit contributes a row to a listing.
pub open spec fn listed_visit(
    v: Visit,
    locs: Map<u32, Location>,
    p: GetVisits,
    from: Timestamp,
    to: Timestamp,
) -> bool {
    &&& in_range(v.visited_at, from, to)
    &&& locs.contains_key(v.location.0)
    &&& passes_filters(locs[v.location.0], p)
}

/// The row that a visit contributes: its mark and moment, with the
/// place name of its location.
pub open spec fn item_of(v: Visit, locs: Map<u32, Location>) -> VisitItem {
    VisitItem { mark: v.mark, visited_at: v.visited_at, place: locs[v.location.0].place }
}

/// The rows of a visit listing over the bucket `s`, in bucket order,
/// so ascending by `visited_at` when `s` is sorted.
pub open spec fn list_spec(
    s: Seq<Visit>,
    locs: Map<u32, Location>,
    p: GetVisits,
    from: Timestamp,
    to: Timestamp,
) -> Seq<VisitItem>
    decreases s.len(),
{
    if s.len() == 0 {
        Seq::empty()
    } else {
        let rest = list_spec(s.drop_last(), locs, p, from, to);
        if listed_visit(s.last(), locs, p, from, to) {
            rest.push(item_of(s.last(), locs))
        } else {
            rest
        }
    }
}

/// Some in-range entry of `s` names a location that is not there: the
/// store inconsistency that a listing reports as `Internal`.
pub open spec fn missing_location(
    s: Seq<Visit>,
    locs: Map<u32, Location>,
    from: Timestamp,
    to: Timestamp,
) -> bool {
    exists|i: int|
        0 <= i < s.len() && in_range(s[i].visited_at, from, to) && !locs.contains_key(
            s[i].location.0,
        )
}

/// The full outcome of a visit listing: `NotFound` for an unknown
/// user; an empty listing outright when the range is empty, however
/// many visits exist; `Internal` when an in-range entry dangles; and
/// otherwise exactly the filtered rows in ascending timestamp order.
pub open spec fn spec_list_visits(db: Database, id: UserId, p: GetVisits) -> Result<
    Seq<VisitItem>,
    Status,
> {
    let from = eff_from(p.from_date);
    let to = eff_to(p.to_date);
    if !db.users_m().contains_key(id.0) {
        Err(Status::NotFound)
    } else if from >= to {
        Ok(Seq::empty())
    } else if missing_location(db.user_bucket(id.0), db.locations_m(), from, to) {
        Err(Status::Internal)
    } else {
        Ok(list_spec(db.user_bucket(id.0), db.locations_m(), p, from, to))
    }
}

/// The executable listing agrees with `spec_list_visits`, row for row.
pub open spec fn list_result_matches(
    db: Database,
    id: UserId,
    p: GetVisits,
    r: Result<Vec<VisitItem>, Status>,
) -> bool {
    match (r, spec_list_visits(db, id, p)) {
        (Ok(items), Ok(s)) => items@ == s,
        (Err(a), Err(b)) => a == b,
        _ => false,
    }
}

/// Whether any aggregation filter makes the visiting user's record
/// relevant.
pub open spec fn needs_user_data(p: GetAverageLocationRating) -> bool {
    p.gender is Some || p.from_age is Some || p.to_age is Some
}

/// The latest admissible birth date. Ages invert: a larger `from_age`
/// names an earlier upper bound, one year being 31557600 seconds.
pub open spec fn max_birth_date(p: GetAverageLocationRating, now: Timestamp) -> int {
    match p.from_age {
        Some(a) => now - 31557600 * a,
        None => i64::MAX as int,
    }
}

/// The earliest admissible birth date, from `to_age`.
pub open spec fn min_birth_date(p: GetAverageLocationRating, now: Timestamp) -> int {
    match p.to_age {
        Some(a) => now - 31557600 * a,
        None => i64::MIN as int,
    }
}

/// Whether a user passes the gender filter and falls strictly between
/// the birth-date bounds; applied whenever any user filter is given.
pub open spec fn user_passes(u: User, p: GetAverageLocationRating, now: Timestamp) -> bool {
    &&& (p.gender matches Some(g) ==> u.gender == g)
    &&& min_birth_date(p, now) < u.birth_date as int
    &&& (u.birth_date as int) < max_birth_date(p, now)
}

/// Whether a visit counts toward the average.
pub open spec fn counted_visit(
    v: Visit,
    users: Map<u32, User>,
    p: GetAverageLocationRating,
    now: Timestamp,
    from: Timestamp,
    to: Timestamp,
) -> bool {
    &&& in_range(v.visited_at, from, to)
    &&& (needs_user_data(p) ==> users.contains_key(v.user.0) && user_passes(
        users[v.user.0],
        p,
        now,
    ))
}

/// How many visits of `s` count toward the average.
pub open spec fn rating_count(
    s: Seq<Visit>,
    users: Map<u32, User>,
    p: GetAverageLocationRating,
    now: Timestamp,
    from: Timestamp,
    to: Timestamp,
) -> int
    decreases s.len(),
{
    if s.len() == 0 {
        0
    } else {
        rating_count(s.drop_last(), users, p, now, from, to) + if counted_visit(
            s.last(),
            users,
            p,
            now,
            from,
            to,
        ) {
            1int
        } else {
            0int
        }
    }
}

/// The sum of the marks of the counted visits of `s`.
pub open spec fn rating_sum(
    s: Seq<Visit>,
    users: Map<u32, User>,
    p: GetAverageLocationRating,
    now: Timestamp,
    from: Timestamp,
    to: Timestamp,
) -> int
    decreases s.len(),
{
    if s.len() == 0 {
        0
    } else {
        rating_sum(s.drop_last(), users, p, now, from, to) + if counted_visit(
            s.last(),
            users,
            p,
            now,
            from,
            to,
        ) {
            s.last().mark as int
        } else {
            0int
        }
    }
}

/// Some in-range entry of `s` names a user that is not there.
pub open spec fn missing_user(
    s: Seq<Visit>,
    users: Map<u32, User>,
    from: Timestamp,
    to: Timestamp,
) -> bool {
    exists|i: int|
        0 <= i < s.len() && in_range(s[i].visited_at, from, to) && !users.contains_key(s[i].user.0)
}

/// The mean mark scaled by 100000 and rounded half away from zero;
/// exactly zero when nothing counted.
pub open spec fn avg_scaled(sum: int, count: int) -> int {
    if count == 0 {
        0
    } else {
        (200000 * sum + count) / (2 * count)
    }
}

/// The full outcome of an average-rating aggregation: `NotFound` for
/// an unknown location; zero outright when the date range or the
/// birth-date range is empty; `Internal` when a needed user record
/// dangles; and otherwise the rounded scaled mean of the counted
/// visits.
pub open spec fn spec_average(
    db: Database,
    id: LocationId,
    p: GetAverageLocationRating,
    now: Timestamp,
) -> Result<int, Status> {
    let from = eff_from(p.from_date);
    let to = eff_to(p.to_date);
    if !db.locations_m().contains_key(id.0) {
        Err(Status::NotFound)
    } else if from >= to || min_birth_date(p, now) >= max_birth_date(p, now) {
        Ok(0)
    } else if needs_user_data(p) && missing_user(db.location_bucket(id.0), db.users_m(), from, to) {
        Err(Status::Internal)
    } else {
        Ok(
            avg_scaled(
                rating_sum(db.location_bucket(id.0), db.users_m(), p, now, from, to),
                rating_count(db.location_bucket(id.0), db.users_m(), p, now, from, to),
            ),
        )
    }
}

/// The executable aggregation agrees with `spec_average`.
pub open spec fn average_result_matches(
    db: Database,
    id: LocationId,
    p: GetAverageLocationRating,
    now: Timestamp,
    r: Result<u64, Status>,
) -> bool {
    match (r, spec_average(db, id, p, now)) {
        (Ok(a), Ok(b)) => a as int == b,
        (Err(a), Err(b)) => a == b,
        _ => false,
    }
}

/// The five maps of `a` and `b` hold exactly the same content.
pub open spec fn models_eq(a: Database, b: Database) -> bool {
    &&& a.users_m() == b.users_m()
    &&& a.locations_m() == b.locations_m()
    &&& a.visits_m() == b.visits_m()
    &&& a.by_user_m() == b.by_user_m()
    &&& a.by_location_m() == b.by_location_m()
}

/// What creating a user does: a reused id fails with `Invalid` and
/// changes nothing; otherwise the record is inserted as given.
pub open spec fn user_created(pre: Database, post: Database, u: User, r: Result<
    (),
    Status,
>) -> bool {
    if pre.users_m().contains_key(u.id.0) {
        r == Err::<(), Status>(Status::Invalid) && models_eq(post, pre)
    } else {
        &&& r == Ok::<(), Status>(())
        &&& post.users_m() == pre.users_m().insert(u.id.0, u)
        &&& post.locations_m() == pre.locations_m()
        &&& post.visits_m() == pre.visits_m()
        &&& post.by_user_m() == pre.by_user_m()
        &&& post.by_location_m() == pre.by_location_m()
    }
}

/// What creating a location does, as for users.
pub open spec fn location_created(pre: Database, post: Database, l: Location, r: Result<
    (),
    Status,
>) -> bool {
    if pre.locations_m().contains_key(l.id.0) {
        r == Err::<(), Status>(Status::Invalid) && models_eq(post, pre)
    } else {
        &&& r == Ok::<(), Status>(())
        &&& post.locations_m() == pre.locations_m().insert(l.id.0, l)
        &&& post.users_m() == pre.users_m()
        &&& post.visits_m() == pre.visits_m()
        &&& post.by_user_m() == pre.by_user_m()
        &&& post.by_location_m() == pre.by_location_m()
    }
}

/// What a partial user update does: a missing id fails with
/// `NotFound`; otherwise exactly the specified fields are overwritten.
pub open spec fn user_updated(
    pre: Database,
    post: Database,
    id: UserId,
    up: UserUpdate,
    r: Result<(), Status>,
) -> bool {
    if !pre.users_m().contains_key(id.0) {
        r == Err::<(), Status>(Status::NotFound) && models_eq(post, pre)
    } else {
        &&& r == Ok::<(), Status>(())
        &&& post.users_m() == pre.users_m().insert(id.0, up.applied(pre.users_m()[id.0]))
        &&& post.locations_m() == pre.locations_m()
        &&& post.visits_m() == pre.visits_m()
        &&& post.by_user_m() == pre.by_user_m()
        &&& post.by_location_m() == pre.by_location_m()
    }
}

/// What a partial location update does, as for users.
pub open spec fn location_updated(
    pre: Database,
    post: Database,
    id: LocationId,
    up: LocationUpdate,
    r: Result<(), Status>,
) -> bool {
    if !pre.locations_m().contains_key(id.0) {
        r == Err::<(), Status>(Status::NotFound) && models_eq(post, pre)
    } else {
        &&& r == Ok::<(), Status>(())
        &&& post.locations_m() == pre.locations_m().insert(
            id.0,
            up.applied(pre.locations_m()[id.0]),
        )
        &&& post.users_m() == pre.users_m()
        &&& post.visits_m() == pre.visits_m()
        &&& post.by_user_m() == pre.by_user_m()
        &&& post.by_location_m() == pre.by_location_m()
    }
}

/// A secondary index after a visit is filed under foreign key `k`:
/// the bucket at `k` is made if missing, and the copy is keyed at the
/// visit's timestamp, replacing whatever held that key.
pub open spec fn index_added(idx: Map<u32, Map<Timestamp, Visit>>, k: u32, v: Visit) -> Map<
    u32,
    Map<Timestamp, Visit>,
> {
    idx.insert(k, bucket_or_empty(idx, k).insert(v.visited_at, v))
}

/// Filing a fresh visit keeps an index exact, keeps every bucket in
/// place, and, when no stored visit shares its timestamp, keeps the
/// index covering every visit.
#[verifier::spinoff_prover]
proof fn lemma_index_add_ok(
    idx: Map<u32, Map<Timestamp, Visit>>,
    visits: Map<u32, Visit>,
    key: spec_fn(Visit) -> u32,
    v: Visit,
)
    requires
        index_accurate(idx, visits, key),
        buckets_exist(idx, visits, key),
        !visits.contains_key(v.id.0),
    ensures
        index_accurate(index_added(idx, key(v), v), visits.insert(v.id.0, v), key),
        buckets_exist(index_added(idx, key(v), v), visits.insert(v.id.0, v), key),
        covered_in(idx, visits, key) && (forall|j: u32| #[trigger]
            visits.contains_key(j) ==> visits[j].visited_at != v.visited_at) ==> covered_in(
            index_added(idx, key(v), v),
            visits.insert(v.id.0, v),
            key,
        ),
{
    let idx1 = index_added(idx, key(v), v);
    let visits1 = visits.insert(v.id.0, v);
    assert forall|u: u32, t: Timestamp|
        idx1.contains_key(u) && #[trigger] idx1[u].contains_key(t) implies {
        let e = idx1[u][t];
        &&& key(e) == u
        &&& e.visited_at == t
        &&& visits1.contains_key(e.id.0)
        &&& visits1[e.id.0] == e
    } by {
        if u == key(v) && t == v.visited_at {
            assert(idx1[u][t] == v);
        } else {
            assert(idx.contains_key(u) && idx[u].contains_key(t));
            assert(idx1[u][t] == idx[u][t]);
            let e = idx[u][t];
            assert(visits.contains_key(e.id.0));
            assert(e.id.0 != v.id.0);
        }
    }
    assert forall|vid: u32| visits1.contains_key(vid) implies idx1.contains_key(
        key(visits1[vid]),
    ) by {
        if vid != v.id.0 {
            assert(visits.contains_key(vid));
            assert(idx.contains_key(key(visits[vid])));
        }
    }
    if covered_in(idx, visits, key) && (forall|j: u32| #[trigger]
        visits.contains_key(j) ==> visits[j].visited_at != v.visited_at) {
        assert forall|vid: u32| visits1.contains_key(vid) implies {
            let w = visits1[vid];
            &&& idx1.contains_key(key(w))
            &&& idx1[key(w)].contains_key(w.visited_at)
            &&& idx1[key(w)][w.visited_at].id.0 == vid
        } by {
            if vid == v.id.0 {
                assert(idx1[key(v)][v.visited_at] == v);
            } else {
                let w = visits[vid];
                assert(visits.contains_key(vid));
                assert(w.visited_at != v.visited_at);
                assert(idx.contains_key(key(w)));
                assert(idx[key(w)].contains_key(w.visited_at));
                if key(w) == key(v) {
                    assert(idx1[key(w)][w.visited_at] == idx[key(w)][w.visited_at]);
                } else {
                    assert(idx1[key(w)] == idx[key(w)]);
                }
            }
        }
    }
}

/// A secondary index after the visit `v` is partially updated to
/// `nv`. When the foreign key is overwritten, the stale entry leaves
/// the old key's bucket; when the timestamp is overwritten, whatever
/// entry still sits at the old timestamp under the current key
/// leaves, silently when there is none; and the updated copy is then
/// unconditionally filed under its current key pair, refreshing the
/// stored copy even when no key changed.
pub open spec fn index_reindexed(
    idx: Map<u32, Map<Timestamp, Visit>>,
    v: Visit,
    nv: Visit,
    key: spec_fn(Visit) -> u32,
    key_set: bool,
    t_set: bool,
) -> Map<u32, Map<Timestamp, Visit>> {
    let m1 = if key_set {
        idx.insert(key(v), bucket_or_empty(idx, key(v)).remove(v.visited_at))
    } else {
        idx
    };
    let m2 = if t_set && m1.contains_key(key(nv)) {
        m1.insert(key(nv), m1[key(nv)].remove(v.visited_at))
    } else {
        m1
    };
    m2.insert(key(nv), bucket_or_empty(m2, key(nv)).insert(nv.visited_at, nv))
}

/// Re-homing an updated visit keeps an index exact and every bucket
/// in place; and when no other visit shares the old or the new
/// timestamp, it keeps the index covering every visit.
#[verifier::spinoff_prover]
#[verifier::rlimit(60)]
proof fn lemma_reindex_ok(
    idx: Map<u32, Map<Timestamp, Visit>>,
    visits: Map<u32, Visit>,
    key: spec_fn(Visit) -> u32,
    vid: u32,
    nv: Visit,
    key_set: bool,
    t_set: bool,
)
    requires
        index_accurate(idx, visits, key),
        buckets_exist(idx, visits, key),
        visits.contains_key(vid),
        visits[vid].id.0 == vid,
        nv.id.0 == vid,
        !key_set ==> key(nv) == key(visits[vid]),
        !t_set ==> nv.visited_at == visits[vid].visited_at,
    ensures
        index_accurate(
            index_reindexed(idx, visits[vid], nv, key, key_set, t_set),
            visits.insert(vid, nv),
            key,
        ),
        buckets_exist(
            index_reindexed(idx, visits[vid], nv, key, key_set, t_set),
            visits.insert(vid, nv),
            key,
        ),
        covered_in(idx, visits, key) && (forall|j: u32| #[trigger]
            visits.contains_key(j) && j != vid ==> visits[j].visited_at
                != visits[vid].visited_at && visits[j].visited_at != nv.visited_at)
            ==> covered_in(
            index_reindexed(idx, visits[vid], nv, key, key_set, t_set),
            visits.insert(vid, nv),
            key,
        ),
{
    let v = visits[vid];
    let k0 = key(v);
    let k1 = key(nv);
    let t0 = v.visited_at;
    let m1 = if key_set {
        idx.insert(k0, bucket_or_empty(idx, k0).remove(t0))
    } else {
        idx
    };
    let m2 = if t_set && m1.contains_key(k1) {
        m1.insert(k1, m1[k1].remove(t0))
    } else {
        m1
    };
    let idxf = index_reindexed(idx, v, nv, key, key_set, t_set);
    let visits1 = visits.insert(vid, nv);
    assert(idx.contains_key(k0));
    assert(idxf == m2.insert(k1, bucket_or_empty(m2, k1).insert(nv.visited_at, nv)));
    // every surviving entry of the two middle stages is an untouched
    // entry of `idx`, and the slot of `v` itself never survives into
    // the final bucket except under its refreshed key
    assert forall|u: u32, t: Timestamp|
        idxf.contains_key(u) && #[trigger] idxf[u].contains_key(t) implies {
        let e = idxf[u][t];
        &&& key(e) == u
        &&& e.visited_at == t
        &&& visits1.contains_key(e.id.0)
        &&& visits1[e.id.0] == e
    } by {
        if u == k1 && t == nv.visited_at {
            assert(idxf[u][t] == nv);
        } else {
            assert(m2.contains_key(u) && m2[u].contains_key(t) && idxf[u][t] == m2[u][t]);
            assert(idx.contains_key(u) && idx[u].contains_key(t) && m2[u][t] == idx[u][t]);
            let e = idx[u][t];
            assert(visits.contains_key(e.id.0));
            if e.id.0 == vid {
                assert(e == v);
                assert(u == k0 && t == t0);
                if key_set {
                    assert(!m1[u].contains_key(t));
                    assert(false);
                } else if t_set {
                    assert(m1 == idx);
                    assert(m1.contains_key(k1) == idx.contains_key(k0));
                    assert(!m2[u].contains_key(t));
                    assert(false);
                } else {
                    assert(u == k1 && t == nv.visited_at);
                    assert(false);
                }
            }
        }
    }
    assert forall|j: u32| visits1.contains_key(j) implies idxf.contains_key(
        key(visits1[j]),
    ) by {
        if j != vid {
            assert(visits.contains_key(j));
            assert(idx.contains_key(key(visits[j])));
            assert(m1.contains_key(key(visits[j])));
            assert(m2.contains_key(key(visits[j])));
        }
    }
    if covered_in(idx, visits, key) && (forall|j: u32| #[trigger]
        visits.contains_key(j) && j != vid ==> visits[j].visited_at != t0 && visits[j].visited_at
            != nv.visited_at) {
        assert forall|j: u32| visits1.contains_key(j) implies {
            let w = visits1[j];
            &&& idxf.contains_key(key(w))
            &&& idxf[key(w)].contains_key(w.visited_at)
            &&& idxf[key(w)][w.visited_at].id.0 == j
        } by {
            if j == vid {
                assert(idxf[k1][nv.visited_at] == nv);
            } else {
                let w = visits[j];
                assert(visits.contains_key(j));
                assert(w.visited_at != t0 && w.visited_at != nv.visited_at);
                assert(idx.contains_key(key(w)));
                assert(idx[key(w)].contains_key(w.visited_at));
                assert(m1.contains_key(key(w)) && m1[key(w)].contains_key(w.visited_at)
                    && m1[key(w)][w.visited_at] == idx[key(w)][w.visited_at]);
                assert(m2.contains_key(key(w)) && m2[key(w)].contains_key(w.visited_at)
                    && m2[key(w)][w.visited_at] == idx[key(w)][w.visited_at]);
                assert(idxf[key(w)].contains_key(w.visited_at) && idxf[key(w)][w.visited_at]
                    == idx[key(w)][w.visited_at]);
            }
        }
    }
}

/// Refreshing a covered, accurate visit under its unchanged keys
/// rewrites every slot with what it already holds.
proof fn lemma_reindex_noop(
    idx: Map<u32, Map<Timestamp, Visit>>,
    visits: Map<u32, Visit>,
    key: spec_fn(Visit) -> u32,
    vid: u32,
)
    requires
        index_accurate(idx, visits, key),
        buckets_exist(idx, visits, key),
        covered_in(idx, visits, key),
        visits.contains_key(vid),
        visits[vid].id.0 == vid,
    ensures
        index_reindexed(idx, visits[vid], visits[vid], key, false, false) == idx,
        visits.insert(vid, visits[vid]) == visits,
{
    let v = visits[vid];
    assert(idx.contains_key(key(v)));
    assert(idx[key(v)].contains_key(v.visited_at));
    assert(idx[key(v)][v.visited_at].id.0 == vid);
    assert(idx[key(v)][v.visited_at] == v);
    assert(idx[key(v)].insert(v.visited_at, v) =~= idx[key(v)]);
    assert(index_reindexed(idx, v, v, key, false, false) =~= idx);
    assert(visits.insert(vid, v) =~= visits);
}

/// An unchanged user map keeps filing records under their own ids.
proof fn lemma_users_ids_same(pre: Database, post: Database)
    requires
        pre.ids_consistent(),
        post.users_m() == pre.users_m(),
    ensures
        forall|uid: u32| #[trigger]
            post.users_m().contains_key(uid) ==> post.users_m()[uid].id.0 == uid,
{
    assert forall|uid: u32| post.users_m().contains_key(uid) implies post.users_m()[uid].id.0
        == uid by {
        assert(pre.users_m().contains_key(uid));
    }
}

/// An unchanged location map keeps filing records under their own ids.
proof fn lemma_locations_ids_same(pre: Database, post: Database)
    requires
        pre.ids_consistent(),
        post.locations_m() == pre.locations_m(),
    ensures
        forall|lid: u32| #[trigger]
            post.locations_m().contains_key(lid) ==> post.locations_m()[lid].id.0 == lid,
{
    assert forall|lid: u32| post.locations_m().contains_key(lid) implies post.locations_m()[
    lid].id.0 == lid by {
        assert(pre.locations_m().contains_key(lid));
    }
}

/// Touching only the user and location primary maps, with every
/// record still filed under its own id, leaves the store well-formed:
/// the visit map and both indices are what well-formedness is about.
proof fn lemma_unrelated_wf(pre: Database, post: Database)
    requires
        pre.wf(),
        post.visits_m() == pre.visits_m(),
        post.visits_by_user == pre.visits_by_user,
        post.visits_by_location == pre.visits_by_location,
        forall|uid: u32| #[trigger]
            post.users_m().contains_key(uid) ==> post.users_m()[uid].id.0 == uid,
        forall|lid: u32| #[trigger]
            post.locations_m().contains_key(lid) ==> post.locations_m()[lid].id.0 == lid,
    ensures
        post.wf(),
        post.by_user_m() == pre.by_user_m(),
        post.by_location_m() == pre.by_location_m(),
{
    assert forall|vid: u32| post.visits_m().contains_key(vid) implies post.visits_m()[vid].id.0
        == vid by {
        assert(pre.visits_m().contains_key(vid));
    }
    assert(post.by_user_m() == pre.by_user_m());
    assert(post.by_location_m() == pre.by_location_m());
    assert(index_accurate(post.by_user_m(), post.visits_m(), user_key()));
    assert(index_accurate(post.by_location_m(), post.visits_m(), location_key()));
    assert(buckets_exist(post.by_user_m(), post.visits_m(), user_key()));
    assert(buckets_exist(post.by_location_m(), post.visits_m(), location_key()));
}

/// What creating a visit does: a missing user or location, or a
/// reused id, fails with `Invalid` and changes nothing; otherwise the
/// record lands in the primary map and in both indices at its
/// timestamp. When no stored visit shares that timestamp, coverage
/// and timestamp distinctness carry over.
pub open spec fn visit_created(pre: Database, post: Database, v: Visit, r: Result<
    (),
    Status,
>) -> bool {
    if !pre.users_m().contains_key(v.user.0) || !pre.locations_m().contains_key(v.location.0)
        || pre.visits_m().contains_key(v.id.0) {
        r == Err::<(), Status>(Status::Invalid) && models_eq(post, pre)
    } else {
        &&& r == Ok::<(), Status>(())
        &&& post.visits_m() == pre.visits_m().insert(v.id.0, v)
        &&& post.by_user_m() == index_added(pre.by_user_m(), v.user.0, v)
        &&& post.by_location_m() == index_added(pre.by_location_m(), v.location.0, v)
        &&& post.users_m() == pre.users_m()
        &&& post.locations_m() == pre.locations_m()
        &&& (pre.covered() && pre.time_free(v.id.0, v.visited_at) ==> post.covered())
        &&& (pre.distinct_times() && pre.time_free(v.id.0, v.visited_at)
            ==> post.distinct_times())
    }
}

/// What a partial visit update does: a missing id fails with
/// `NotFound`; a specified location or user that names no existing
/// record fails with `Invalid`, before anything is written; otherwise
/// the specified fields overwrite the record, both indices re-home
/// and refresh their copies, and nothing else moves. When no other
/// visit sits at the old or the new timestamp, coverage carries over;
/// and an update that specifies nothing changes nothing at all on a
/// covered store.
pub open spec fn visit_updated(
    pre: Database,
    post: Database,
    id: VisitId,
    up: VisitUpdate,
    r: Result<(), Status>,
) -> bool {
    if !pre.visits_m().contains_key(id.0) {
        r == Err::<(), Status>(Status::NotFound) && models_eq(post, pre)
    } else if (up.location matches Optional::Something(l) && !pre.locations_m().contains_key(l.0))
        || (up.user matches Optional::Something(u) && !pre.users_m().contains_key(u.0)) {
        r == Err::<(), Status>(Status::Invalid) && models_eq(post, pre)
    } else {
        let v = pre.visits_m()[id.0];
        let nv = up.applied(v);
        &&& r == Ok::<(), Status>(())
        &&& post.users_m() == pre.users_m()
        &&& post.locations_m() == pre.locations_m()
        &&& post.visits_m() == pre.visits_m().insert(id.0, nv)
        &&& post.by_user_m() == index_reindexed(
            pre.by_user_m(),
            v,
            nv,
            user_key(),
            up.user is Something,
            up.visited_at is Something,
        )
        &&& post.by_location_m() == index_reindexed(
            pre.by_location_m(),
            v,
            nv,
            location_key(),
            up.location is Something,
            up.visited_at is Something,
        )
        &&& (pre.covered() && pre.time_free(id.0, v.visited_at) && pre.time_free(
            id.0,
            nv.visited_at,
        ) ==> post.covered())
        &&& (pre.distinct_times() && pre.time_free(id.0, nv.visited_at)
            ==> post.distinct_times())
        &&& (up.is_empty() && pre.covered() ==> models_eq(post, pre))
    }
}

/// What bulk-loading a visit does: exactly a creation, except that
/// nothing checks the referenced user and location, as the loader
/// owns referential validation; a reused id is still refused.
pub open spec fn visit_loaded(pre: Database, post: Database, v: Visit, r: bool) -> bool {
    if pre.visits_m().contains_key(v.id.0) {
        !r && models_eq(post, pre)
    } else {
        &&& r
        &&& post.visits_m() == pre.visits_m().insert(v.id.0, v)
        &&& post.by_user_m() == index_added(pre.by_user_m(), v.user.0, v)
        &&& post.by_location_m() == index_added(pre.by_location_m(), v.location.0, v)
        &&& post.users_m() == pre.users_m()
        &&& post.locations_m() == pre.locations_m()
        &&& (pre.covered() && pre.time_free(v.id.0, v.visited_at) ==> post.covered())
        &&& (pre.distinct_times() && pre.time_free(v.id.0, v.visited_at)
            ==> post.distinct_times())
    }
}

impl Default for Database {
    /// A store with nothing in it.
    fn default() -> (r: Database)
        ensures
            r.wf(),
            r.covered(),
            r.distinct_times(),
            r.users_m() == Map::<u32, User>::empty(),
            r.locations_m() == Map::<u32, Location>::empty(),
            r.visits_m() == Map::<u32, Visit>::empty(),
            r.by_user_m() == Map::<u32, Map<Timestamp, Visit>>::empty(),
            r.by_location_m() == Map::<u32, Map<Timestamp, Visit>>::empty(),
    {
        let r = Database {
            users: HashMap::new(),
            locations: HashMap::new(),
            visits: HashMap::new(),
            visits_by_user: HashMap::new(),
            visits_by_location: HashMap::new(),
        };
        proof {
            assert(r.by_user_m() =~= Map::<u32, Map<Timestamp, Visit>>::empty());
            assert(r.by_location_m() =~= Map::<u32, Map<Timestamp, Visit>>::empty());
        }
        r
    }
}

impl Database {
    /// Connects each index's map reading to its ordered bucket: in a
    /// well-formed store every bucket stands in strictly ascending
    /// timestamp order, the map reading is exactly the bucket's
    /// entries keyed by timestamp, and a key without a bucket reads
    /// as an empty one.
    pub proof fn lemma_bucket_view(self, k: u32)
        requires
            self.wf(),
        ensures
            crate::index::sorted_by_time(self.user_bucket(k)),
            crate::index::sorted_by_time(self.location_bucket(k)),
            self.by_user_m().contains_key(k) ==> self.by_user_m()[k] == time_map(
                self.user_bucket(k),
            ),
            !self.by_user_m().contains_key(k) ==> self.user_bucket(k) == Seq::<Visit>::empty(),
            self.by_location_m().contains_key(k) ==> self.by_location_m()[k] == time_map(
                self.location_bucket(k),
            ),
            !self.by_location_m().contains_key(k) ==> self.location_bucket(k) == Seq::<
                Visit,
            >::empty(),
    {
    }

    /// The user filed under `id`, when there is one.
    pub fn user(&self, id: UserId) -> (r: Option<&User>)
        ensures
            match r {
                Some(u) => self.users_m().contains_key(id.0) && *u == self.users_m()[id.0],
                None => !self.users_m().contains_key(id.0),
            },
    {
        self.users.get(&id.0)
    }

    /// The location filed under `id`, when there is one.
    pub fn location(&self, id: LocationId) -> (r: Option<&Location>)
        ensures
            match r {
                Some(l) => self.locations_m().contains_key(id.0) && *l == self.locations_m()[id.0],
                None => !self.locations_m().contains_key(id.0),
            },
    {
        self.locations.get(&id.0)
    }

    /// The visit filed under `id`, when there is one.
    pub fn visit(&self, id: VisitId) -> (r: Option<&Visit>)
        ensures
            match r {
                Some(v) => self.visits_m().contains_key(id.0) && *v == self.visits_m()[id.0],
                None => !self.visits_m().contains_key(id.0),
            },
    {
        self.visits.get(&id.0)
    }

    /// Lists a user's visits strictly between the date bounds in
    /// ascending timestamp order, each row carrying the visit's mark
    /// and moment and the place name of its location, filtered by
    /// country and distance.
    pub fn list_visits(&self, id: UserId, parameters: &GetVisits) -> (r: Result<
        Vec<VisitItem>,
        Status,
    >)
        requires
            self.wf(),
        ensures
            list_result_matches(*self, id, *parameters, r),
    {
        if !self.users.contains_key(&id.0) {
            return Err(Status::NotFound);
        }
        let from = match parameters.from_date {
            Some(t) => t,
            None => i64::MIN,
        };
        let to = match parameters.to_date {
            Some(t) => t,
            None => i64::MAX,
        };
        if from >= to {
            return Ok(Vec::new());
        }
        let bucket = match self.visits_by_user.get(&id.0) {
            Some(b) => b,
            None => {
                proof {
                    assert(self.user_bucket(id.0) == Seq::<Visit>::empty());
                }
                return Ok(Vec::new());
            },
        };
        let ghost s = self.user_bucket(id.0);
        let entries = bucket.entries();
        let mut items: Vec<VisitItem> = Vec::new();
        let mut i: usize = 0;
        while i < entries.len()
            invariant
                self.wf(),
                0 <= i <= entries.len(),
                entries@ == s,
                s == self.user_bucket(id.0),
                self.users_m().contains_key(id.0),
                from < to,
                from == eff_from(parameters.from_date),
                to == eff_to(parameters.to_date),
                items@ == list_spec(s.take(i as int), self.locations_m(), *parameters, from, to),
                forall|k: int|
                    0 <= k < i ==> !(in_range(#[trigger] s[k].visited_at, from, to)
                        && !self.locations_m().contains_key(s[k].location.0)),
            decreases entries.len() - i,
        {
            let v = entries[i];
            proof {
                assert(s.take(i as int + 1).drop_last() =~= s.take(i as int));
                assert(s.take(i as int + 1).last() == s[i as int]);
            }
            if from < v.visited_at && v.visited_at < to {
                match self.locations.get(&v.location.0) {
                    None => {
                        proof {
                            assert(missing_location(s, self.locations_m(), from, to));
                        }
                        return Err(Status::Internal);
                    },
                    Some(l) => {
                        let mut keep = true;
                        match parameters.to_distance {
                            Some(d) => {
                                if l.distance >= d {
                                    keep = false;
                                }
                            },
                            None => {},
                        }
                        if keep {
                            match &parameters.country {
                                Some(c) => {
                                    if !(l.country == *c) {
                                        keep = false;
                                    }
                                },
                                None => {},
                            }
                        }
                        if keep {
                            items.push(
                                VisitItem {
                                    mark: v.mark,
                                    visited_at: v.visited_at,
                                    place: l.place.clone(),
                                },
                            );
                        }
                        proof {
                            assert(keep == passes_filters(
                                self.locations_m()[v.location.0],
                                *parameters,
                            ));
                        }
                    },
                }
            }
            i = i + 1;
        }
        proof {
            assert(s.take(i as int) =~= s);
        }
        Ok(items)
    }

    /// Averages the marks of a location's visits strictly between the
    /// date bounds, filtered by the visiting users' gender and age;
    /// the result is the mean scaled by 100000 and rounded half away
    /// from zero, or zero when nothing qualifies.
    pub fn average_location_rating(
        &self,
        id: LocationId,
        parameters: &GetAverageLocationRating,
        now: Timestamp,
    ) -> (r: Result<u64, Status>)
        requires
            self.wf(),
        ensures
            average_result_matches(*self, id, *parameters, now, r),
    {
        if !self.locations.contains_key(&id.0) {
            return Err(Status::NotFound);
        }
        let from = match parameters.from_date {
            Some(t) => t,
            None => i64::MIN,
        };
        let to = match parameters.to_date {
            Some(t) => t,
            None => i64::MAX,
        };
        let needs_user = parameters.gender.is_some() || parameters.from_age.is_some()
            || parameters.to_age.is_some();
        let max_bd: i128 = match parameters.from_age {
            Some(a) => now as i128 - 31557600i128 * (a as i128),
            None => i64::MAX as i128,
        };
        let min_bd: i128 = match parameters.to_age {
            Some(a) => now as i128 - 31557600i128 * (a as i128),
            None => i64::MIN as i128,
        };
        if from >= to || min_bd >= max_bd {
            return Ok(0);
        }
        let bucket = match self.visits_by_location.get(&id.0) {
            Some(b) => b,
            None => {
                proof {
                    assert(self.location_bucket(id.0) == Seq::<Visit>::empty());
                }
                return Ok(0);
            },
        };
        let ghost s = self.location_bucket(id.0);
        let entries = bucket.entries();
        let mut sum: u128 = 0;
        let mut count: u64 = 0;
        let mut i: usize = 0;
        while i < entries.len()
            invariant
                self.wf(),
                0 <= i <= entries.len(),
                entries@ == s,
                s == self.location_bucket(id.0),
                self.locations_m().contains_key(id.0),
                from < to,
                (min_bd as int) < max_bd as int,
                from == eff_from(parameters.from_date),
                to == eff_to(parameters.to_date),
                needs_user == needs_user_data(*parameters),
                max_bd as int == max_birth_date(*parameters, now),
                min_bd as int == min_birth_date(*parameters, now),
                sum as int == rating_sum(s.take(i as int), self.users_m(), *parameters, now, from, to),
                count as int == rating_count(s.take(i as int), self.users_m(), *parameters, now, from, to),
                count <= i,
                sum <= 255 * (count as u128),
                needs_user ==> forall|k: int|
                    0 <= k < i ==> !(in_range(#[trigger] s[k].visited_at, from, to) && !self.users_m().contains_key(s[k].user.0)),
            decreases entries.len() - i,
        {
            let v = entries[i];
            proof {
                assert(s.take(i as int + 1).drop_last() =~= s.take(i as int));
                assert(s.take(i as int + 1).last() == s[i as int]);
            }
            if from < v.visited_at && v.visited_at < to {
                let mut keep = true;
                if needs_user {
                    match self.users.get(&v.user.0) {
                        None => {
                            proof {
                                assert(missing_user(s, self.users_m(), from, to));
                            }
                            return Err(Status::Internal);
                        },
                        Some(u) => {
                            match parameters.gender {
                                Some(g) => {
                                    if u.gender != g {
                                        keep = false;
                                    }
                                },
                                None => {},
                            }
                            let bd = u.birth_date as i128;
                            if bd <= min_bd || bd >= max_bd {
                                keep = false;
                            }
                            proof {
                                assert(keep == user_passes(
                                    self.users_m()[v.user.0],
                                    *parameters,
                                    now,
                                ));
                            }
                        },
                    }
                }
                if keep {
                    sum = sum + v.mark as u128;
                    count = count + 1;
                }
            }
            i = i + 1;
        }
        proof {
            assert(s.take(i as int) =~= s);
        }
        if count == 0 {
            return Ok(0);
        }
        let num: u128 = 200000u128 * sum + count as u128;
        let den: u128 = 2u128 * count as u128;
        let q: u128 = num / den;
        proof {
            vstd::arithmetic::div_mod::lemma_fundamental_div_mod(num as int, den as int);
            assert(den as int * (num as int / den as int) <= num as int);
            assert(q as int == num as int / den as int);
            assert(num as int <= 51000001 * count as int);
            assert(den as int == 2 * (count as int));
            assert((den as int) * (q as int) <= 51000001 * (count as int));
            assert(2 * (q as int) <= 51000001) by (nonlinear_arith)
                requires
                    (den as int) * (q as int) <= 51000001 * (count as int),
                    den as int == 2 * (count as int),
                    count as int >= 1,
            ;
            assert(q <= 25500000);
        }
        Ok(q as u64)
    }

    /// Inserts a fresh user record; a reused id fails with `Invalid`
    /// and leaves the store untouched.
    pub fn create_user(&mut self, u: User) -> (r: Result<(), Status>)
        requires
            old(self).wf(),
        ensures
            final(self).wf(),
            user_created(*old(self), *final(self), u, r),
    {
        if self.users.contains_key(&u.id.0) {
            return Err(Status::Invalid);
        }
        self.users.insert(u.id.0, u);
        proof {
            let m0 = old(self).users_m();
            assert forall|uid: u32| self.users_m().contains_key(uid) implies self.users_m()[
            uid].id.0 == uid by {
                if uid != u.id.0 {
                    assert(m0.contains_key(uid));
                }
            }
            lemma_locations_ids_same(*old(self), *self);
            lemma_unrelated_wf(*old(self), *self);
        }
        Ok(())
    }

    /// Inserts a fresh location record, as `create_user` does.
    pub fn create_location(&mut self, l: Location) -> (r: Result<(), Status>)
        requires
            old(self).wf(),
        ensures
            final(self).wf(),
            location_created(*old(self), *final(self), l, r),
    {
        if self.locations.contains_key(&l.id.0) {
            return Err(Status::Invalid);
        }
        self.locations.insert(l.id.0, l);
        proof {
            let m0 = old(self).locations_m();
            assert forall|lid: u32| self.locations_m().contains_key(lid) implies self.locations_m()[
            lid].id.0 == lid by {
                if lid != l.id.0 {
                    assert(m0.contains_key(lid));
                }
            }
            lemma_users_ids_same(*old(self), *self);
            lemma_unrelated_wf(*old(self), *self);
        }
        Ok(())
    }

    /// Bulk-load insertion of a user: filed under its id with no
    /// further validation, overwriting any earlier record there.
    pub fn load_user(&mut self, u: User)
        requires
            old(self).wf(),
        ensures
            final(self).wf(),
            final(self).users_m() == old(self).users_m().insert(u.id.0, u),
            final(self).locations_m() == old(self).locations_m(),
            final(self).visits_m() == old(self).visits_m(),
            final(self).by_user_m() == old(self).by_user_m(),
            final(self).by_location_m() == old(self).by_location_m(),
    {
        self.users.insert(u.id.0, u);
        proof {
            let m0 = old(self).users_m();
            assert forall|uid: u32| self.users_m().contains_key(uid) implies self.users_m()[
            uid].id.0 == uid by {
                if uid != u.id.0 {
                    assert(m0.contains_key(uid));
                }
            }
            lemma_locations_ids_same(*old(self), *self);
            lemma_unrelated_wf(*old(self), *self);
        }
    }

    /// Bulk-load insertion of a location, as `load_user`.
    pub fn load_location(&mut self, l: Location)
        requires
            old(self).wf(),
        ensures
            final(self).wf(),
            final(self).locations_m() == old(self).locations_m().insert(l.id.0, l),
            final(self).users_m() == old(self).users_m(),
            final(self).visits_m() == old(self).visits_m(),
            final(self).by_user_m() == old(self).by_user_m(),
            final(self).by_location_m() == old(self).by_location_m(),
    {
        self.locations.insert(l.id.0, l);
        proof {
            let m0 = old(self).locations_m();
            assert forall|lid: u32| self.locations_m().contains_key(lid) implies self.locations_m()[
            lid].id.0 == lid by {
                if lid != l.id.0 {
                    assert(m0.contains_key(lid));
                }
            }
            lemma_users_ids_same(*old(self), *self);
            lemma_unrelated_wf(*old(self), *self);
        }
    }

    /// Applies a partial update to the user filed under `id`.
    pub fn update_user(&mut self, id: UserId, up: &UserUpdate) -> (r: Result<(), Status>)
        requires
            old(self).wf(),
        ensures
            final(self).wf(),
            user_updated(*old(self), *final(self), id, *up, r),
    {
        let mut u = match self.users.get(&id.0) {
            None => {
                return Err(Status::NotFound);
            },
            Some(u0) => u0.clone(),
        };
        match &up.email {
            Optional::Something(e) => {
                u.email = e.clone();
            },
            Optional::Nothing => {},
        }
        match &up.first_name {
            Optional::Something(f) => {
                u.first_name = f.clone();
            },
            Optional::Nothing => {},
        }
        match &up.last_name {
            Optional::Something(l) => {
                u.last_name = l.clone();
            },
            Optional::Nothing => {},
        }
        match &up.gender {
            Optional::Something(g) => {
                u.gender = *g;
            },
            Optional::Nothing => {},
        }
        match &up.birth_date {
            Optional::Something(b) => {
                u.birth_date = *b;
            },
            Optional::Nothing => {},
        }
        self.users.insert(id.0, u);
        proof {
            let m0 = old(self).users_m();
            assert forall|uid: u32| self.users_m().contains_key(uid) implies self.users_m()[
            uid].id.0 == uid by {
                if uid != id.0 {
                    assert(m0.contains_key(uid));
                }
            }
            lemma_locations_ids_same(*old(self), *self);
            lemma_unrelated_wf(*old(self), *self);
        }
        Ok(())
    }

    /// Applies a partial update to the location filed under `id`.
    pub fn update_location(&mut self, id: LocationId, up: &LocationUpdate) -> (r: Result<
        (),
        Status,
    >)
        requires
            old(self).wf(),
        ensures
            final(self).wf(),
            location_updated(*old(self), *final(self), id, *up, r),
    {
        let mut l = match self.locations.get(&id.0) {
            None => {
                return Err(Status::NotFound);
            },
            Some(l0) => l0.clone(),
        };
        match &up.place {
            Optional::Something(p) => {
                l.place = p.clone();
            },
            Optional::Nothing => {},
        }
        match &up.country {
            Optional::Something(c) => {
                l.country = c.clone();
            },
            Optional::Nothing => {},
        }
        match &up.city {
            Optional::Something(c) => {
                l.city = c.clone();
            },
            Optional::Nothing => {},
        }
        match &up.distance {
            Optional::Something(d) => {
                l.distance = *d;
            },
            Optional::Nothing => {},
        }
        self.locations.insert(id.0, l);
        proof {
            let m0 = old(self).locations_m();
            assert forall|lid: u32| self.locations_m().contains_key(lid) implies self.locations_m()[
            lid].id.0 == lid by {
                if lid != id.0 {
                    assert(m0.contains_key(lid));
                }
            }
            lemma_users_ids_same(*old(self), *self);
            lemma_unrelated_wf(*old(self), *self);
        }
        Ok(())
    }

    /// Takes the entry at `t` out of the per-location bucket `k`,
    /// reporting whether that bucket exists at all.
    fn remove_location_entry(&mut self, k: u32, t: Timestamp) -> (found: bool)
        requires
            old(self).repr_inv(),
        ensures
            final(self).repr_inv(),
            found == old(self).by_location_m().contains_key(k),
            final(self).by_location_m() == (if found {
                old(self).by_location_m().insert(k, old(self).by_location_m()[k].remove(t))
            } else {
                old(self).by_location_m()
            }),
            final(self).users == old(self).users,
            final(self).locations == old(self).locations,
            final(self).visits == old(self).visits,
            final(self).visits_by_user == old(self).visits_by_user,
    {
        match self.visits_by_location.remove(&k) {
            None => {
                proof {
                    assert(old(self).visits_by_location@.remove(k)
                        =~= old(self).visits_by_location@);
                    assert(self.visits_by_location@ == old(self).visits_by_location@);
                }
                false
            },
            Some(b) => {
                let mut b = b;
                proof {
                    assert(b == old(self).visits_by_location@[k]);
                    assert(b.inv());
                }
                b.remove(t);
                self.visits_by_location.insert(k, b);
                proof {
                    assert(self.visits_by_location@ =~= old(self).visits_by_location@.insert(
                        k,
                        b,
                    ));
                    assert(self.by_location_m() =~= old(self).by_location_m().insert(
                        k,
                        old(self).by_location_m()[k].remove(t),
                    ));
                    assert forall|u: u32|
                        self.visits_by_location@.contains_key(
                            u,
                        ) implies self.visits_by_location@[u].inv() by {
                        if u != k {
                            assert(old(self).visits_by_location@.contains_key(u));
                            assert(self.visits_by_location@[u]
                                == old(self).visits_by_location@[u]);
                        }
                    }
                }
                true
            },
        }
    }

    /// Takes the entry at `t` out of the per-user bucket `k`.
    fn remove_user_entry(&mut self, k: u32, t: Timestamp) -> (found: bool)
        requires
            old(self).repr_inv(),
        ensures
            final(self).repr_inv(),
            found == old(self).by_user_m().contains_key(k),
            final(self).by_user_m() == (if found {
                old(self).by_user_m().insert(k, old(self).by_user_m()[k].remove(t))
            } else {
                old(self).by_user_m()
            }),
            final(self).users == old(self).users,
            final(self).locations == old(self).locations,
            final(self).visits == old(self).visits,
            final(self).visits_by_location == old(self).visits_by_location,
    {
        match self.visits_by_user.remove(&k) {
            None => {
                proof {
                    assert(old(self).visits_by_user@.remove(k) =~= old(self).visits_by_user@);
                    assert(self.visits_by_user@ == old(self).visits_by_user@);
                }
                false
            },
            Some(b) => {
                let mut b = b;
                proof {
                    assert(b == old(self).visits_by_user@[k]);
                    assert(b.inv());
                }
                b.remove(t);
                self.visits_by_user.insert(k, b);
                proof {
                    assert(self.visits_by_user@ =~= old(self).visits_by_user@.insert(k, b));
                    assert(self.by_user_m() =~= old(self).by_user_m().insert(
                        k,
                        old(self).by_user_m()[k].remove(t),
                    ));
                    assert forall|u: u32|
                        self.visits_by_user@.contains_key(u) implies self.visits_by_user@[
                    u].inv() by {
                        if u != k {
                            assert(old(self).visits_by_user@.contains_key(u));
                            assert(self.visits_by_user@[u] == old(self).visits_by_user@[u]);
                        }
                    }
                }
                true
            },
        }
    }

    /// Files a copy of `v` in the per-location bucket `k`, making the
    /// bucket first when it is missing.
    fn insert_location_entry(&mut self, k: u32, v: Visit)
        requires
            old(self).repr_inv(),
        ensures
            final(self).repr_inv(),
            final(self).by_location_m() == index_added(old(self).by_location_m(), k, v),
            final(self).users == old(self).users,
            final(self).locations == old(self).locations,
            final(self).visits == old(self).visits,
            final(self).visits_by_user == old(self).visits_by_user,
    {
        let mut b = match self.visits_by_location.remove(&k) {
            Some(b) => b,
            None => VisitIndex::new(),
        };
        proof {
            if old(self).visits_by_location@.contains_key(k) {
                assert(b == old(self).visits_by_location@[k]);
                assert(b.inv());
            } else {
                crate::index::lemma_time_map_empty();
            }
            assert(time_map(b@) == bucket_or_empty(old(self).by_location_m(), k));
        }
        b.insert(v);
        self.visits_by_location.insert(k, b);
        proof {
            assert(self.visits_by_location@ =~= old(self).visits_by_location@.insert(k, b));
            assert(self.by_location_m() =~= index_added(old(self).by_location_m(), k, v));
            assert forall|u: u32|
                self.visits_by_location@.contains_key(u) implies self.visits_by_location@[
            u].inv() by {
                if u != k {
                    assert(old(self).visits_by_location@.contains_key(u));
                    assert(self.visits_by_location@[u] == old(self).visits_by_location@[u]);
                }
            }
        }
    }

    /// Files a copy of `v` in the per-user bucket `k`.
    fn insert_user_entry(&mut self, k: u32, v: Visit)
        requires
            old(self).repr_inv(),
        ensures
            final(self).repr_inv(),
            final(self).by_user_m() == index_added(old(self).by_user_m(), k, v),
            final(self).users == old(self).users,
            final(self).locations == old(self).locations,
            final(self).visits == old(self).visits,
            final(self).visits_by_location == old(self).visits_by_location,
    {
        let mut b = match self.visits_by_user.remove(&k) {
            Some(b) => b,
            None => VisitIndex::new(),
        };
        proof {
            if old(self).visits_by_user@.contains_key(k) {
                assert(b == old(self).visits_by_user@[k]);
                assert(b.inv());
            } else {
                crate::index::lemma_time_map_empty();
            }
            assert(time_map(b@) == bucket_or_empty(old(self).by_user_m(), k));
        }
        b.insert(v);
        self.visits_by_user.insert(k, b);
        proof {
            assert(self.visits_by_user@ =~= old(self).visits_by_user@.insert(k, b));
            assert(self.by_user_m() =~= index_added(old(self).by_user_m(), k, v));
            assert forall|u: u32|
                self.visits_by_user@.contains_key(u) implies self.visits_by_user@[u].inv() by {
                if u != k {
                    assert(old(self).visits_by_user@.contains_key(u));
                    assert(self.visits_by_user@[u] == old(self).visits_by_user@[u]);
                }
            }
        }
    }

    /// Files `v` in the primary map and in both indices; the caller
    /// has checked that the id is fresh.
    fn insert_visit_with_indexes(&mut self, v: Visit)
        requires
            old(self).wf(),
            !old(self).visits_m().contains_key(v.id.0),
        ensures
            final(self).wf(),
            final(self).visits_m() == old(self).visits_m().insert(v.id.0, v),
            final(self).by_user_m() == index_added(old(self).by_user_m(), v.user.0, v),
            final(self).by_location_m() == index_added(old(self).by_location_m(), v.location.0, v),
            final(self).users_m() == old(self).users_m(),
            final(self).locations_m() == old(self).locations_m(),
            old(self).covered() && old(self).time_free(v.id.0, v.visited_at) ==> final(self).covered(),
            old(self).distinct_times() && old(self).time_free(v.id.0, v.visited_at) ==> final(self).distinct_times(),
    {
        let ghost pre = *old(self);
        self.visits.insert(v.id.0, v);
        self.insert_user_entry(v.user.0, v);
        self.insert_location_entry(v.location.0, v);
        proof {
            self.lemma_insert_visit_wf(pre, v);
        }
    }

    /// The well-formedness side of `insert_visit_with_indexes`,
    /// separated to keep each solver query small.
    proof fn lemma_insert_visit_wf(self, pre: Database, v: Visit)
        requires
            pre.wf(),
            !pre.visits_m().contains_key(v.id.0),
            self.repr_inv(),
            self.users_m() == pre.users_m(),
            self.locations_m() == pre.locations_m(),
            self.visits_m() == pre.visits_m().insert(v.id.0, v),
            self.by_user_m() == index_added(pre.by_user_m(), v.user.0, v),
            self.by_location_m() == index_added(pre.by_location_m(), v.location.0, v),
        ensures
            self.wf(),
            pre.covered() && pre.time_free(v.id.0, v.visited_at) ==> self.covered(),
            pre.distinct_times() && pre.time_free(v.id.0, v.visited_at) ==> self.distinct_times(),
    {
        lemma_users_ids_same(pre, self);
        lemma_locations_ids_same(pre, self);
        assert forall|vid: u32| self.visits_m().contains_key(vid) implies self.visits_m()[vid].id.0
            == vid by {
            if vid != v.id.0 {
                assert(pre.visits_m().contains_key(vid));
            }
        }
        assert(user_key()(v) == v.user.0);
        assert(location_key()(v) == v.location.0);
        lemma_index_add_ok(pre.by_user_m(), pre.visits_m(), user_key(), v);
        lemma_index_add_ok(pre.by_location_m(), pre.visits_m(), location_key(), v);
        if pre.covered() && pre.time_free(v.id.0, v.visited_at) {
            assert forall|j: u32| #[trigger]
                pre.visits_m().contains_key(j) implies pre.visits_m()[j].visited_at
                != v.visited_at by {
                assert(j != v.id.0);
            }
            assert(self.covered());
        }
        if pre.distinct_times() && pre.time_free(v.id.0, v.visited_at) {
            assert forall|a: u32, b: u32|
                #![trigger self.visits_m()[a], self.visits_m()[b]]
                self.visits_m().contains_key(a) && self.visits_m().contains_key(b) && a
                    != b implies self.visits_m()[a].visited_at
                != self.visits_m()[b].visited_at by {
                if a != v.id.0 && b != v.id.0 {
                    assert(pre.visits_m().contains_key(a));
                    assert(pre.visits_m().contains_key(b));
                } else if a == v.id.0 {
                    assert(pre.visits_m().contains_key(b));
                } else {
                    assert(pre.visits_m().contains_key(a));
                }
            }
        }
    }

    /// Inserts a fresh visit after checking that its user and
    /// location exist and its id is unused; any failure is `Invalid`
    /// and leaves the store untouched.
    pub fn create_visit(&mut self, v: Visit) -> (r: Result<(), Status>)
        requires
            old(self).wf(),
        ensures
            final(self).wf(),
            visit_created(*old(self), *final(self), v, r),
    {
        if !self.users.contains_key(&v.user.0) {
            return Err(Status::Invalid);
        }
        if !self.locations.contains_key(&v.location.0) {
            return Err(Status::Invalid);
        }
        if self.visits.contains_key(&v.id.0) {
            return Err(Status::Invalid);
        }
        self.insert_visit_with_indexes(v);
        Ok(())
    }

    /// Bulk-load insertion of a visit: filed in the primary map and
    /// both indices with no referential checks, so visits may arrive
    /// before the users and locations they name. A reused id is
    /// refused, and `false` says so.
    pub fn load_visit(&mut self, v: Visit) -> (r: bool)
        requires
            old(self).wf(),
        ensures
            final(self).wf(),
            visit_loaded(*old(self), *final(self), v, r),
    {
        if self.visits.contains_key(&v.id.0) {
            return false;
        }
        self.insert_visit_with_indexes(v);
        true
    }

    /// Applies a partial update to the visit filed under `id`,
    /// validating any newly named location and user before anything
    /// is written, and keeping both indices homed at the visit's
    /// current keys.
    pub fn update_visit(&mut self, id: VisitId, up: &VisitUpdate) -> (r: Result<(), Status>)
        requires
            old(self).wf(),
        ensures
            final(self).wf(),
            visit_updated(*old(self), *final(self), id, *up, r),
    {
        let v = match self.visits.get(&id.0) {
            None => {
                return Err(Status::NotFound);
            },
            Some(vr) => *vr,
        };
        match up.location {
            Optional::Something(l) => {
                if !self.locations.contains_key(&l.0) {
                    return Err(Status::Invalid);
                }
            },
            Optional::Nothing => {},
        }
        match up.user {
            Optional::Something(u) => {
                if !self.users.contains_key(&u.0) {
                    return Err(Status::Invalid);
                }
            },
            Optional::Nothing => {},
        }
        let ghost pre = *old(self);
        let ghost nvs = up.applied(v);
        let ghost t0 = v.visited_at;
        let ghost m1_loc = if up.location is Something {
            pre.by_location_m().insert(
                v.location.0,
                bucket_or_empty(pre.by_location_m(), v.location.0).remove(t0),
            )
        } else {
            pre.by_location_m()
        };
        let ghost m1_usr = if up.user is Something {
            pre.by_user_m().insert(
                v.user.0,
                bucket_or_empty(pre.by_user_m(), v.user.0).remove(t0),
            )
        } else {
            pre.by_user_m()
        };
        let ghost m2_loc = if up.visited_at is Something && m1_loc.contains_key(nvs.location.0) {
            m1_loc.insert(nvs.location.0, m1_loc[nvs.location.0].remove(t0))
        } else {
            m1_loc
        };
        let ghost m2_usr = if up.visited_at is Something && m1_usr.contains_key(nvs.user.0) {
            m1_usr.insert(nvs.user.0, m1_usr[nvs.user.0].remove(t0))
        } else {
            m1_usr
        };
        let mut nv = v;
        match up.location {
            Optional::Something(l) => {
                proof {
                    assert(location_key()(v) == v.location.0);
                    assert(pre.by_location_m().contains_key(v.location.0));
                }
                let found = self.remove_location_entry(v.location.0, v.visited_at);
                if !found {
                    proof {
                        assert(false);
                    }
                    return Err(Status::Internal);
                }
                nv.location = l;
            },
            Optional::Nothing => {},
        }
        proof {
            assert(self.by_location_m() == m1_loc);
            assert(self.by_user_m() == pre.by_user_m());
            assert(nv.location == nvs.location && nv.user == v.user && nv.visited_at
                == v.visited_at && nv.mark == v.mark && nv.id == v.id);
        }
        match up.user {
            Optional::Something(u) => {
                proof {
                    assert(user_key()(v) == v.user.0);
                    assert(pre.by_user_m().contains_key(v.user.0));
                }
                let found = self.remove_user_entry(v.user.0, v.visited_at);
                if !found {
                    proof {
                        assert(false);
                    }
                    return Err(Status::Internal);
                }
                nv.user = u;
            },
            Optional::Nothing => {},
        }
        proof {
            assert(self.by_location_m() == m1_loc);
            assert(self.by_user_m() == m1_usr);
            assert(nv.location == nvs.location && nv.user == nvs.user && nv.visited_at
                == v.visited_at && nv.mark == v.mark && nv.id == v.id);
        }
        match up.visited_at {
            Optional::Something(t) => {
                let _ = self.remove_location_entry(nv.location.0, v.visited_at);
                let _ = self.remove_user_entry(nv.user.0, v.visited_at);
                nv.visited_at = t;
            },
            Optional::Nothing => {},
        }
        proof {
            assert(self.by_location_m() == m2_loc);
            assert(self.by_user_m() == m2_usr);
            assert(nv.location == nvs.location && nv.user == nvs.user && nv.visited_at
                == nvs.visited_at && nv.mark == v.mark && nv.id == v.id);
        }
        match up.mark {
            Optional::Something(m) => {
                nv.mark = m;
            },
            Optional::Nothing => {},
        }
        proof {
            assert(nv == nvs);
        }
        self.visits.insert(id.0, nv);
        self.insert_location_entry(nv.location.0, nv);
        self.insert_user_entry(nv.user.0, nv);
        proof {
            assert(location_key()(v) == v.location.0 && location_key()(nvs) == nvs.location.0);
            assert(user_key()(v) == v.user.0 && user_key()(nvs) == nvs.user.0);
            assert(self.by_location_m() == index_added(m2_loc, nvs.location.0, nvs));
            assert(self.by_location_m() == index_reindexed(
                pre.by_location_m(),
                v,
                nvs,
                location_key(),
                up.location is Something,
                up.visited_at is Something,
            ));
            assert(self.by_user_m() == index_added(m2_usr, nvs.user.0, nvs));
            assert(self.by_user_m() == index_reindexed(
                pre.by_user_m(),
                v,
                nvs,
                user_key(),
                up.user is Something,
                up.visited_at is Something,
            ));
            self.lemma_update_visit_wf(pre, id, *up, v, nvs);
        }
        Ok(())
    }

    /// The well-formedness and coverage side of `update_visit`,
    /// separated to keep each solver query small.
    proof fn lemma_update_visit_wf(
        self,
        pre: Database,
        id: VisitId,
        up: VisitUpdate,
        v: Visit,
        nvs: Visit,
    )
        requires
            pre.wf(),
            pre.visits_m().contains_key(id.0),
            pre.visits_m()[id.0] == v,
            nvs == up.applied(v),
            self.repr_inv(),
            self.users_m() == pre.users_m(),
            self.locations_m() == pre.locations_m(),
            self.visits_m() == pre.visits_m().insert(id.0, nvs),
            self.by_user_m() == index_reindexed(
                pre.by_user_m(),
                v,
                nvs,
                user_key(),
                up.user is Something,
                up.visited_at is Something,
            ),
            self.by_location_m() == index_reindexed(
                pre.by_location_m(),
                v,
                nvs,
                location_key(),
                up.location is Something,
                up.visited_at is Something,
            ),
        ensures
            self.wf(),
            pre.covered() && pre.time_free(id.0, v.visited_at) && pre.time_free(
                id.0,
                nvs.visited_at,
            ) ==> self.covered(),
            pre.distinct_times() && pre.time_free(id.0, nvs.visited_at) ==> self.distinct_times(),
            up.is_empty() && pre.covered() ==> models_eq(self, pre),
    {
        lemma_users_ids_same(pre, self);
        lemma_locations_ids_same(pre, self);
        assert(v.id.0 == id.0);
        assert(nvs.id == v.id);
        assert forall|vid: u32| self.visits_m().contains_key(vid) implies self.visits_m()[vid].id.0
            == vid by {
            if vid != id.0 {
                assert(pre.visits_m().contains_key(vid));
            }
        }
        assert(user_key()(v) == v.user.0 && user_key()(nvs) == nvs.user.0);
        assert(location_key()(v) == v.location.0 && location_key()(nvs) == nvs.location.0);
        lemma_reindex_ok(
            pre.by_user_m(),
            pre.visits_m(),
            user_key(),
            id.0,
            nvs,
            up.user is Something,
            up.visited_at is Something,
        );
        lemma_reindex_ok(
            pre.by_location_m(),
            pre.visits_m(),
            location_key(),
            id.0,
            nvs,
            up.location is Something,
            up.visited_at is Something,
        );
        if pre.covered() && pre.time_free(id.0, v.visited_at) && pre.time_free(
            id.0,
            nvs.visited_at,
        ) {
            assert forall|j: u32| #[trigger]
                pre.visits_m().contains_key(j) && j != id.0 implies pre.visits_m()[j].visited_at
                != v.visited_at && pre.visits_m()[j].visited_at != nvs.visited_at by {}
            assert(self.covered());
        }
        if pre.distinct_times() && pre.time_free(id.0, nvs.visited_at) {
            assert forall|a: u32, b: u32|
                #![trigger self.visits_m()[a], self.visits_m()[b]]
                self.visits_m().contains_key(a) && self.visits_m().contains_key(b) && a
                    != b implies self.visits_m()[a].visited_at
                != self.visits_m()[b].visited_at by {
                if a != id.0 && b != id.0 {
                    assert(pre.visits_m().contains_key(a));
                    assert(pre.visits_m().contains_key(b));
                } else if a == id.0 {
                    assert(pre.visits_m().contains_key(b));
                } else {
                    assert(pre.visits_m().contains_key(a));
                }
            }
        }
        if up.is_empty() && pre.covered() {
            assert(nvs == v);
            lemma_reindex_noop(pre.by_user_m(), pre.visits_m(), user_key(), id.0);
            lemma_reindex_noop(pre.by_location_m(), pre.visits_m(), location_key(), id.0);
        }
    }
}

} // verus!
