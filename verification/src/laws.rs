use vstd::prelude::*;

use crate::api::get_dispatched;
use crate::data::{Location, Timestamp, User, Visit};
use crate::database::{
    in_range, list_spec, listed_visit, location_key, rating_count, rating_sum, user_key, Database,
};
use crate::request::{GetAverageLocationRating, GetRequest, GetVisits};
use crate::response::{GetResponse, Status};

verus! {

/// Two read payloads that carry the same data; listings compare row
/// for row.
pub open spec fn responses_agree(a: GetResponse, b: GetResponse) -> bool {
    match (a, b) {
        (GetResponse::Visits(x), GetResponse::Visits(y)) => x@ == y@,
        _ => a == b,
    }
}

/// Reads are pure: against one store state, any number of reads of
/// the same request return the same answer, each pinned to that state
/// by its contract alone — so concurrent readers sharing the store
/// all see results consistent with it.
pub proof fn lemma_reads_agree(
    db: Database,
    now: Timestamp,
    request: GetRequest,
    r1: Result<GetResponse, Status>,
    r2: Result<GetResponse, Status>,
)
    requires
        get_dispatched(db, now, request, r1),
        get_dispatched(db, now, request, r2),
    ensures
        match (r1, r2) {
            (Ok(a), Ok(b)) => responses_agree(a, b),
            (Err(a), Err(b)) => a == b,
            _ => false,
        },
{
}

/// Index coverage: in a well-formed, covered store, each secondary
/// index holds an entry for every visit at exactly its current
/// foreign key and timestamp, and that entry is an exact copy of the
/// record. Well-formedness alone already rules out stale entries,
/// since every entry equals the record the primary map currently
/// files under the entry's id, keyed by that record's own fields.
/// Coverage is stated apart because two visits sharing one bucket and
/// timestamp overwrite each other's entries; the mutation contracts
/// carry it over whenever no stored visits share a timestamp.
pub proof fn lemma_index_coverage(db: Database, vid: u32)
    requires
        db.wf(),
        db.covered(),
        db.visits_m().contains_key(vid),
    ensures
        ({
            let v = db.visits_m()[vid];
            &&& db.by_user_m().contains_key(v.user.0)
            &&& db.by_user_m()[v.user.0].contains_key(v.visited_at)
            &&& db.by_user_m()[v.user.0][v.visited_at] == v
            &&& db.by_location_m().contains_key(v.location.0)
            &&& db.by_location_m()[v.location.0].contains_key(v.visited_at)
            &&& db.by_location_m()[v.location.0][v.visited_at] == v
        }),
{
    let v = db.visits_m()[vid];
    assert(user_key()(v) == v.user.0);
    assert(location_key()(v) == v.location.0);
    assert(db.by_user_m()[v.user.0][v.visited_at].id.0 == vid);
    assert(db.by_location_m()[v.location.0][v.visited_at].id.0 == vid);
    assert(v.id.0 == vid);
}

/// Range bounds are exclusive on both sides: a visit timed exactly at
/// `from` or at `to` contributes nothing to any query — no listing
/// row, no counted visit, no summed mark — whatever the filters say.
pub proof fn lemma_boundary_visit_excluded(
    s: Seq<Visit>,
    v: Visit,
    locs: Map<u32, Location>,
    users: Map<u32, User>,
    p: GetVisits,
    q: GetAverageLocationRating,
    now: Timestamp,
    from: Timestamp,
    to: Timestamp,
)
    requires
        v.visited_at == from || v.visited_at == to,
    ensures
        list_spec(s.push(v), locs, p, from, to) == list_spec(s, locs, p, from, to),
        rating_count(s.push(v), users, q, now, from, to) == rating_count(
            s,
            users,
            q,
            now,
            from,
            to,
        ),
        rating_sum(s.push(v), users, q, now, from, to) == rating_sum(s, users, q, now, from, to),
{
    assert(s.push(v).drop_last() =~= s);
    assert(s.push(v).last() == v);
    assert(!in_range(v.visited_at, from, to));
}

/// Every row of a listing comes from strictly inside the date range:
/// nothing at or beyond a bound is ever reported.
pub proof fn lemma_listed_rows_in_range(
    s: Seq<Visit>,
    locs: Map<u32, Location>,
    p: GetVisits,
    from: Timestamp,
    to: Timestamp,
)
    ensures
        forall|i: int|
            0 <= i < list_spec(s, locs, p, from, to).len() ==> in_range(
                #[trigger] list_spec(s, locs, p, from, to)[i].visited_at,
                from,
                to,
            ),
    decreases s.len(),
{
    if s.len() > 0 {
        lemma_listed_rows_in_range(s.drop_last(), locs, p, from, to);
        let rest = list_spec(s.drop_last(), locs, p, from, to);
        let whole = list_spec(s, locs, p, from, to);
        if listed_visit(s.last(), locs, p, from, to) {
            assert forall|i: int| 0 <= i < whole.len() implies in_range(
                whole[i].visited_at,
                from,
                to,
            ) by {
                if i < rest.len() {
                    assert(whole[i] == rest[i]);
                } else {
                    assert(whole[i].visited_at == s.last().visited_at);
                }
            }
        }
    }
}

/// Listings keep the index order: over a bucket in strictly ascending
/// timestamp order — as every bucket of a well-formed store is — the
/// rows come out strictly ascending by `visited_at` too, and each row
/// takes its timestamp from some bucket entry.
pub proof fn lemma_listing_ascending(
    s: Seq<Visit>,
    locs: Map<u32, Location>,
    p: GetVisits,
    from: Timestamp,
    to: Timestamp,
)
    requires
        crate::index::sorted_by_time(s),
    ensures
        ({
            let items = list_spec(s, locs, p, from, to);
            &&& forall|i: int, j: int|
                0 <= i < j < items.len() ==> #[trigger] items[i].visited_at
                    < #[trigger] items[j].visited_at
            &&& forall|i: int|
                0 <= i < items.len() ==> exists|k: int|
                    0 <= k < s.len() && #[trigger] items[i].visited_at == #[trigger] s[
                    k].visited_at
        }),
    decreases s.len(),
{
    let items = list_spec(s, locs, p, from, to);
    if s.len() > 0 {
        let s0 = s.drop_last();
        assert(crate::index::sorted_by_time(s0));
        lemma_listing_ascending(s0, locs, p, from, to);
        let rest = list_spec(s0, locs, p, from, to);
        assert forall|i: int| 0 <= i < items.len() implies exists|k: int|
            0 <= k < s.len() && #[trigger] items[i].visited_at == s[k].visited_at by {
            if i < rest.len() {
                assert(items[i] == rest[i]);
                let k = choose|k: int|
                    0 <= k < s0.len() && #[trigger] rest[i].visited_at == s0[k].visited_at;
                assert(s0[k] == s[k]);
                assert(items[i].visited_at == s[k].visited_at);
            } else {
                assert(items[i].visited_at == s[s.len() - 1].visited_at);
            }
        }
        assert forall|i: int, j: int|
            0 <= i < j < items.len() implies items[i].visited_at < items[j].visited_at by {
            if j < rest.len() {
                assert(items[i] == rest[i] && items[j] == rest[j]);
            } else {
                assert(items[i] == rest[i]);
                let k = choose|k: int|
                    0 <= k < s0.len() && #[trigger] rest[i].visited_at == s0[k].visited_at;
                assert(s0[k] == s[k]);
                assert(s[k].visited_at < s[s.len() - 1].visited_at);
                assert(items[j].visited_at == s[s.len() - 1].visited_at);
            }
        }
    }
}

} // verus!
