use vstd::prelude::*;

use crate::data::{Timestamp, Visit};

verus! {

/// The visits stand in strictly increasing `visited_at` order, so no
/// two share a timestamp.
pub open spec fn sorted_by_time(s: Seq<Visit>) -> bool {
    forall|i: int, j: int| 0 <= i < j < s.len() ==> s[i].visited_at < s[j].visited_at
}

/// Whether some visit in `s` is keyed at moment `t`.
pub open spec fn has_time(s: Seq<Visit>, t: Timestamp) -> bool {
    exists|i: int| 0 <= i < s.len() && s[i].visited_at == t
}

/// The position of the visit keyed at `t`; meaningful when `has_time`
/// holds, and unique when `s` is sorted.
pub open spec fn index_of_time(s: Seq<Visit>, t: Timestamp) -> int {
    choose|i: int| 0 <= i < s.len() && s[i].visited_at == t
}

/// The entries of a bucket, read as a map from timestamp to the
/// stored visit copy.
pub open spec fn time_map(s: Seq<Visit>) -> Map<Timestamp, Visit> {
    Map::new(|t: Timestamp| has_time(s, t), |t: Timestamp| s[index_of_time(s, t)])
}

/// In a sorted bucket a timestamp names at most one position.
proof fn lemma_sorted_unique(s: Seq<Visit>, a: int, b: int)
    requires
        sorted_by_time(s),
        0 <= a < s.len(),
        0 <= b < s.len(),
        s[a].visited_at == s[b].visited_at,
    ensures
        a == b,
{
    if a < b {
        assert(s[a].visited_at < s[b].visited_at);
    }
    if b < a {
        assert(s[b].visited_at < s[a].visited_at);
    }
}

/// Every position of a sorted bucket shows up in its map at its own
/// timestamp.
proof fn lemma_time_map_entry(s: Seq<Visit>, i: int)
    requires
        sorted_by_time(s),
        0 <= i < s.len(),
    ensures
        time_map(s).contains_key(s[i].visited_at),
        time_map(s)[s[i].visited_at] == s[i],
{
    assert(has_time(s, s[i].visited_at));
    let j = index_of_time(s, s[i].visited_at);
    lemma_sorted_unique(s, i, j);
}

/// An empty bucket has an empty map.
pub proof fn lemma_time_map_empty()
    ensures
        time_map(Seq::<Visit>::empty()) == Map::<Timestamp, Visit>::empty(),
{
    assert(time_map(Seq::<Visit>::empty()) =~= Map::<Timestamp, Visit>::empty());
}

/// Overwriting the entry at position `i` with a visit of the same
/// timestamp acts on the map as a plain insertion.
#[verifier::spinoff_prover]
proof fn lemma_update_at_map(s0: Seq<Visit>, i: int, v: Visit)
    requires
        sorted_by_time(s0),
        0 <= i < s0.len(),
        s0[i].visited_at == v.visited_at,
    ensures
        sorted_by_time(s0.update(i, v)),
        time_map(s0.update(i, v)) == time_map(s0).insert(v.visited_at, v),
{
    let s1 = s0.update(i, v);
    assert forall|a: int, b: int| 0 <= a < b < s1.len() implies s1[a].visited_at
        < s1[b].visited_at by {
        assert(s0[a].visited_at < s0[b].visited_at);
    }
    let lhs = time_map(s1);
    let rhs = time_map(s0).insert(v.visited_at, v);
    assert forall|t: Timestamp| lhs.contains_key(t) implies rhs.contains_key(t) && lhs[t]
        == rhs[t] by {
        if t == v.visited_at {
            lemma_time_map_entry(s1, i);
        } else {
            let m = index_of_time(s1, t);
            assert(0 <= m < s1.len() && s1[m].visited_at == t);
            assert(m != i);
            assert(s1[m] == s0[m]);
            lemma_time_map_entry(s0, m);
            lemma_time_map_entry(s1, m);
        }
    }
    assert forall|t: Timestamp| rhs.contains_key(t) implies lhs.contains_key(t) by {
        if t == v.visited_at {
            lemma_time_map_entry(s1, i);
        } else {
            let m = index_of_time(s0, t);
            assert(0 <= m < s0.len() && s0[m].visited_at == t);
            assert(m != i);
            assert(s1[m] == s0[m]);
            lemma_time_map_entry(s1, m);
        }
    }
    assert(lhs =~= rhs);
}

/// Splicing a visit in at position `i`, between strictly earlier and
/// strictly later entries, acts on the map as a plain insertion.
#[verifier::spinoff_prover]
proof fn lemma_insert_at_map(s0: Seq<Visit>, i: int, v: Visit)
    requires
        sorted_by_time(s0),
        0 <= i <= s0.len(),
        forall|k: int| 0 <= k < i ==> s0[k].visited_at < v.visited_at,
        forall|k: int| i <= k < s0.len() ==> s0[k].visited_at > v.visited_at,
    ensures
        sorted_by_time(s0.insert(i, v)),
        time_map(s0.insert(i, v)) == time_map(s0).insert(v.visited_at, v),
{
    let s1 = s0.insert(i, v);
    s0.insert_ensures(i, v);
    assert forall|a: int, b: int| 0 <= a < b < s1.len() implies s1[a].visited_at
        < s1[b].visited_at by {
        if b < i {
            assert(s1[a] == s0[a] && s1[b] == s0[b]);
        } else if a > i {
            assert(s1[a] == s0[a - 1] && s1[b] == s0[b - 1]);
        } else if a < i && b == i {
            assert(s1[a] == s0[a]);
        } else if a == i && b > i {
            assert(s1[b] == s0[b - 1]);
        } else if a < i && b > i {
            assert(s1[a] == s0[a] && s1[b] == s0[b - 1]);
        }
    }
    let lhs = time_map(s1);
    let rhs = time_map(s0).insert(v.visited_at, v);
    assert forall|t: Timestamp| lhs.contains_key(t) implies rhs.contains_key(t) && lhs[t]
        == rhs[t] by {
        if t == v.visited_at {
            assert(s1[i] == v);
            lemma_time_map_entry(s1, i);
        } else {
            let m = index_of_time(s1, t);
            assert(0 <= m < s1.len() && s1[m].visited_at == t);
            assert(m != i);
            if m < i {
                assert(s1[m] == s0[m]);
                lemma_time_map_entry(s0, m);
                lemma_time_map_entry(s1, m);
            } else {
                assert(s1[m] == s0[m - 1]);
                lemma_time_map_entry(s0, m - 1);
                lemma_time_map_entry(s1, m);
            }
        }
    }
    assert forall|t: Timestamp| rhs.contains_key(t) implies lhs.contains_key(t) by {
        if t == v.visited_at {
            assert(s1[i] == v);
            lemma_time_map_entry(s1, i);
        } else {
            let m = index_of_time(s0, t);
            assert(0 <= m < s0.len() && s0[m].visited_at == t);
            if m < i {
                assert(s1[m] == s0[m]);
                lemma_time_map_entry(s1, m);
            } else {
                assert(s1[m + 1] == s0[m]);
                lemma_time_map_entry(s1, m + 1);
            }
        }
    }
    assert(lhs =~= rhs);
}

/// Taking the entry at position `i` out acts on the map as a plain
/// removal of its timestamp.
#[verifier::spinoff_prover]
proof fn lemma_remove_at_map(s0: Seq<Visit>, i: int)
    requires
        sorted_by_time(s0),
        0 <= i < s0.len(),
    ensures
        sorted_by_time(s0.remove(i)),
        time_map(s0.remove(i)) == time_map(s0).remove(s0[i].visited_at),
{
    let t0 = s0[i].visited_at;
    let s1 = s0.remove(i);
    s0.remove_ensures(i);
    assert forall|a: int, b: int| 0 <= a < b < s1.len() implies s1[a].visited_at
        < s1[b].visited_at by {
        if b < i {
            assert(s1[a] == s0[a] && s1[b] == s0[b]);
        } else if a >= i {
            assert(s1[a] == s0[a + 1] && s1[b] == s0[b + 1]);
        } else {
            assert(s1[a] == s0[a] && s1[b] == s0[b + 1]);
        }
    }
    let lhs = time_map(s1);
    let rhs = time_map(s0).remove(t0);
    assert forall|t: Timestamp| lhs.contains_key(t) implies rhs.contains_key(t) && lhs[t]
        == rhs[t] by {
        let m = index_of_time(s1, t);
        assert(0 <= m < s1.len() && s1[m].visited_at == t);
        if m < i {
            assert(s1[m] == s0[m]);
            if t == t0 {
                lemma_sorted_unique(s0, m, i);
                assert(false);
            }
            lemma_time_map_entry(s0, m);
            lemma_time_map_entry(s1, m);
        } else {
            assert(s1[m] == s0[m + 1]);
            if t == t0 {
                lemma_sorted_unique(s0, m + 1, i);
                assert(false);
            }
            lemma_time_map_entry(s0, m + 1);
            lemma_time_map_entry(s1, m);
        }
    }
    assert forall|t: Timestamp| rhs.contains_key(t) implies lhs.contains_key(t) by {
        let m = index_of_time(s0, t);
        assert(0 <= m < s0.len() && s0[m].visited_at == t);
        assert(m != i);
        if m < i {
            assert(s1[m] == s0[m]);
            lemma_time_map_entry(s1, m);
        } else {
            assert(s1[m - 1] == s0[m]);
            lemma_time_map_entry(s1, m - 1);
        }
    }
    assert(lhs =~= rhs);
}

/// Removing a timestamp that no entry holds changes nothing.
#[verifier::spinoff_prover]
proof fn lemma_remove_absent_map(s0: Seq<Visit>, t0: Timestamp)
    requires
        sorted_by_time(s0),
        !has_time(s0, t0),
    ensures
        time_map(s0).remove(t0) == time_map(s0),
{
    assert(!time_map(s0).contains_key(t0));
    assert(time_map(s0).remove(t0) =~= time_map(s0));
}

/// One timestamp-ordered index bucket: independent copies of visits,
/// sorted by `visited_at`, at most one per timestamp.
pub struct VisitIndex {
    entries: Vec<Visit>,
}

impl View for VisitIndex {
    type V = Seq<Visit>;

    closed spec fn view(&self) -> Seq<Visit> {
        self.entries@
    }
}

impl VisitIndex {
    /// The bucket's representation is in order.
    pub open spec fn inv(self) -> bool {
        sorted_by_time(self@)
    }

    /// A bucket with nothing in it.
    pub fn new() -> (r: Self)
        ensures
            r@ == Seq::<Visit>::empty(),
            r.inv(),
    {
        VisitIndex { entries: Vec::new() }
    }

    /// The entries in ascending `visited_at` order, for scanning.
    pub fn entries(&self) -> (r: &Vec<Visit>)
        ensures
            r@ == self@,
    {
        &self.entries
    }

    /// Puts `v` at key `v.visited_at`, replacing whatever entry held
    /// that timestamp before.
    pub fn insert(&mut self, v: Visit)
        requires
            old(self).inv(),
        ensures
            final(self).inv(),
            time_map(final(self)@) == time_map(old(self)@).insert(v.visited_at, v),
    {
        let ghost s0 = self.entries@;
        let mut i: usize = 0;
        while i < self.entries.len() && self.entries[i].visited_at < v.visited_at
            invariant
                sorted_by_time(self.entries@),
                self.entries@ == s0,
                0 <= i <= self.entries.len(),
                forall|k: int| 0 <= k < i ==> self.entries@[k].visited_at < v.visited_at,
            decreases self.entries.len() - i,
        {
            i = i + 1;
        }
        if i < self.entries.len() && self.entries[i].visited_at == v.visited_at {
            self.entries[i] = v;
            proof {
                lemma_update_at_map(s0, i as int, v);
            }
        } else {
            proof {
                assert forall|k: int| i <= k < s0.len() implies s0[k].visited_at
                    > v.visited_at by {
                    if k > i {
                        assert(s0[i as int].visited_at < s0[k].visited_at);
                    }
                }
            }
            self.entries.insert(i, v);
            proof {
                lemma_insert_at_map(s0, i as int, v);
            }
        }
    }

    /// Takes out the entry keyed at `t`, silently doing nothing when
    /// no entry holds that timestamp.
    pub fn remove(&mut self, t: Timestamp)
        requires
            old(self).inv(),
        ensures
            final(self).inv(),
            time_map(final(self)@) == time_map(old(self)@).remove(t),
    {
        let ghost s0 = self.entries@;
        let mut i: usize = 0;
        while i < self.entries.len() && self.entries[i].visited_at < t
            invariant
                sorted_by_time(self.entries@),
                self.entries@ == s0,
                0 <= i <= self.entries.len(),
                forall|k: int| 0 <= k < i ==> self.entries@[k].visited_at < t,
            decreases self.entries.len() - i,
        {
            i = i + 1;
        }
        if i < self.entries.len() && self.entries[i].visited_at == t {
            self.entries.remove(i);
            proof {
                lemma_remove_at_map(s0, i as int);
            }
        } else {
            proof {
                if has_time(s0, t) {
                    let m = index_of_time(s0, t);
                    assert(0 <= m < s0.len() && s0[m].visited_at == t);
                    if m < i {
                        assert(s0[m].visited_at < t);
                    } else if (i as int) < s0.len() {
                        if m > i {
                            assert(s0[i as int].visited_at < s0[m].visited_at);
                        }
                        assert(s0[m].visited_at != t);
                    }
                    assert(false);
                }
                lemma_remove_absent_map(s0, t);
            }
        }
    }
}

} // verus!
