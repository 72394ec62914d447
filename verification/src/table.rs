//! A sparse association table from chunk identities to values.
//!
//! The table is a vector of (identity, value) entries whose identities are
//! kept strictly increasing in lexicographic order, so each identity maps
//! to at most one entry and iteration by index enumerates the identities
//! in a deterministic order. Its mathematical model is the finite map
//! [`id_map`] from identity triples to values.

use vstd::assert_maps_equal;
use vstd::map::*;
use vstd::prelude::*;

verus! {

/// A chunk identity as a triple of mathematical integers.
pub open spec fn id_of(p: [i32; 3]) -> (int, int, int) {
    (p[0] as int, p[1] as int, p[2] as int)
}

/// Lexicographic order on identity triples: by x, then y, then z.
pub open spec fn id_lt(a: (int, int, int), b: (int, int, int)) -> bool {
    a.0 < b.0 || (a.0 == b.0 && (a.1 < b.1 || (a.1 == b.1 && a.2 < b.2)))
}

/// The identities of an entry sequence are strictly increasing, so no
/// identity occurs twice.
pub open spec fn sorted_ids<T>(s: Seq<([i32; 3], T)>) -> bool {
    forall|i: int, j: int|
        0 <= i < j < s.len() ==> id_lt(id_of(#[trigger] s[i].0), id_of(#[trigger] s[j].0))
}

/// Some entry of the sequence carries the identity `k`.
pub open spec fn has_id<T>(s: Seq<([i32; 3], T)>, k: (int, int, int)) -> bool {
    exists|i: int| 0 <= i < s.len() && id_of(#[trigger] s[i].0) == k
}

/// The index of the entry carrying identity `k`.
pub open spec fn idx_of<T>(s: Seq<([i32; 3], T)>, k: (int, int, int)) -> int {
    choose|i: int| 0 <= i < s.len() && id_of(#[trigger] s[i].0) == k
}

/// The finite map that an entry sequence represents.
pub open spec fn id_map<T>(s: Seq<([i32; 3], T)>) -> Map<(int, int, int), T> {
    Map::new(|k: (int, int, int)| has_id(s, k), |k: (int, int, int)| s[idx_of(s, k)].1)
}

/// In a sorted entry sequence, the entry at index `i` is the one entry for
/// its identity, and the map reads it back.
pub proof fn lemma_entry_at<T>(s: Seq<([i32; 3], T)>, i: int)
    requires
        sorted_ids(s),
        0 <= i < s.len(),
    ensures
        has_id(s, id_of(s[i].0)),
        idx_of(s, id_of(s[i].0)) == i,
        id_map(s).dom().contains(id_of(s[i].0)),
        id_map(s)[id_of(s[i].0)] == s[i].1,
{
    let k = id_of(s[i].0);
    assert(0 <= i < s.len() && id_of(s[i].0) == k);
    let j = idx_of(s, k);
    assert(0 <= j < s.len() && id_of(s[j].0) == k);
    if i < j {
        assert(id_lt(id_of(s[i].0), id_of(s[j].0)));
        assert(false);
    } else if j < i {
        assert(id_lt(id_of(s[j].0), id_of(s[i].0)));
        assert(false);
    }
}

/// Replacing the value of the entry at index `i`, identity unchanged,
/// updates the represented map at exactly that identity.
pub proof fn lemma_update_value<T>(s: Seq<([i32; 3], T)>, i: int, v: T)
    requires
        sorted_ids(s),
        0 <= i < s.len(),
    ensures
        sorted_ids(s.update(i, (s[i].0, v))),
        id_map(s.update(i, (s[i].0, v))) == id_map(s).insert(id_of(s[i].0), v),
{
    let t = s.update(i, (s[i].0, v));
    let k = id_of(s[i].0);
    assert(forall|a: int| 0 <= a < t.len() ==> id_of(#[trigger] t[a].0) == id_of(s[a].0));
    assert forall|a: int, b: int| 0 <= a < b < t.len() implies id_lt(
        id_of(#[trigger] t[a].0),
        id_of(#[trigger] t[b].0),
    ) by {
        assert(id_lt(id_of(s[a].0), id_of(s[b].0)));
    }
    assert(sorted_ids(t));
    assert_maps_equal!(id_map(t), id_map(s).insert(k, v), kk => {
        if kk == k {
            lemma_entry_at(t, i);
        } else {
            if has_id(s, kk) {
                let j = idx_of(s, kk);
                assert(0 <= j < s.len() && id_of(s[j].0) == kk);
                lemma_entry_at(s, j);
                lemma_entry_at(t, j);
            }
            if has_id(t, kk) {
                let j = idx_of(t, kk);
                assert(0 <= j < t.len() && id_of(t[j].0) == kk);
                lemma_entry_at(t, j);
                lemma_entry_at(s, j);
            }
        }
    });
}

/// Inserting an entry between the identities below it and the identities
/// above it keeps the sequence sorted and inserts into the represented map.
pub proof fn lemma_insert_entry<T>(s: Seq<([i32; 3], T)>, p: int, e: ([i32; 3], T))
    requires
        sorted_ids(s),
        0 <= p <= s.len(),
        forall|i: int| 0 <= i < p ==> id_lt(id_of(#[trigger] s[i].0), id_of(e.0)),
        forall|i: int| p <= i < s.len() ==> id_lt(id_of(e.0), id_of(#[trigger] s[i].0)),
    ensures
        sorted_ids(s.insert(p, e)),
        id_map(s.insert(p, e)) == id_map(s).insert(id_of(e.0), e.1),
{
    let t = s.insert(p, e);
    let k = id_of(e.0);
    s.insert_ensures(p, e);
    assert forall|a: int, b: int| 0 <= a < b < t.len() implies id_lt(
        id_of(#[trigger] t[a].0),
        id_of(#[trigger] t[b].0),
    ) by {
        if a < p {
            assert(t[a] == s[a]);
        } else if a == p {
            assert(t[a] == e);
        } else {
            assert(t[a] == s[a - 1]);
        }
        if b < p {
            assert(t[b] == s[b]);
        } else if b == p {
            assert(t[b] == e);
        } else {
            assert(t[b] == s[b - 1]);
        }
    }
    assert_maps_equal!(id_map(t), id_map(s).insert(k, e.1), kk => {
        if kk == k {
            lemma_entry_at(t, p);
        } else {
            if has_id(s, kk) {
                let j = idx_of(s, kk);
                assert(0 <= j < s.len() && id_of(s[j].0) == kk);
                lemma_entry_at(s, j);
                if j < p {
                    assert(t[j] == s[j]);
                    lemma_entry_at(t, j);
                } else {
                    assert(t[j + 1] == s[j]);
                    lemma_entry_at(t, j + 1);
                }
            }
            if has_id(t, kk) {
                let j = idx_of(t, kk);
                assert(0 <= j < t.len() && id_of(t[j].0) == kk);
                lemma_entry_at(t, j);
                if j < p {
                    assert(t[j] == s[j]);
                    lemma_entry_at(s, j);
                } else {
                    assert(j != p);
                    assert(t[j] == s[j - 1]);
                    lemma_entry_at(s, j - 1);
                }
            }
        }
    });
}

/// The table: entries sorted by identity, each identity at most once.
pub struct IdTable<T> {
    pub entries: Vec<([i32; 3], T)>,
}

impl<T> View for IdTable<T> {
    type V = Map<(int, int, int), T>;

    open spec fn view(&self) -> Map<(int, int, int), T> {
        id_map(self.entries@)
    }
}

/// The two identities are equal.
fn id_eq(a: &[i32; 3], b: &[i32; 3]) -> (r: bool)
    ensures
        r == (id_of(*a) == id_of(*b)),
{
    a[0] == b[0] && a[1] == b[1] && a[2] == b[2]
}

/// The first identity is lexicographically before the second.
fn id_before(a: &[i32; 3], b: &[i32; 3]) -> (r: bool)
    ensures
        r == id_lt(id_of(*a), id_of(*b)),
{
    a[0] < b[0] || (a[0] == b[0] && (a[1] < b[1] || (a[1] == b[1] && a[2] < b[2])))
}

impl<T> IdTable<T> {
    /// The sorted-entries invariant.
    pub open spec fn wf(self) -> bool {
        sorted_ids(self.entries@)
    }

    /// An empty table.
    pub fn new() -> (t: IdTable<T>)
        ensures
            t.wf(),
            t@ == Map::<(int, int, int), T>::empty(),
            t.entries@.len() == 0,
    {
        let t = IdTable { entries: Vec::new() };
        proof {
            assert_maps_equal!(id_map(t.entries@), Map::<(int, int, int), T>::empty());
        }
        t
    }

    /// How many identities the table holds.
    pub fn len(&self) -> (n: usize)
        ensures
            n == self.entries@.len(),
    {
        self.entries.len()
    }

    /// The index of the entry for an identity, if the identity is present.
    pub fn find(&self, id: &[i32; 3]) -> (r: Option<usize>)
        requires
            self.wf(),
        ensures
            match r {
                Some(i) => i < self.entries@.len() && id_of(self.entries@[i as int].0) == id_of(
                    *id,
                ) && self@.dom().contains(id_of(*id)) && self@[id_of(*id)]
                    == self.entries@[i as int].1,
                None => !self@.dom().contains(id_of(*id)),
            },
    {
        let mut i: usize = 0;
        while i < self.entries.len()
            invariant
                self.wf(),
                i <= self.entries@.len(),
                forall|j: int| 0 <= j < i ==> id_of(#[trigger] self.entries@[j].0) != id_of(*id),
            decreases self.entries@.len() - i,
        {
            if id_eq(&self.entries[i].0, id) {
                proof {
                    lemma_entry_at(self.entries@, i as int);
                }
                return Some(i);
            }
            i += 1;
        }
        None
    }

    /// Mutable access to the value of the entry at index `i`; the entry
    /// keeps its identity.
    pub fn value_mut(&mut self, i: usize) -> (r: &mut T)
        requires
            i < old(self).entries@.len(),
        ensures
            *r == old(self).entries@[i as int].1,
            final(self).entries@ == old(self).entries@.update(
                i as int,
                (old(self).entries@[i as int].0, *final(r)),
            ),
    {
        &mut self.entries[i].1
    }

    /// Insert an entry for an identity that is not yet present.
    pub fn insert_absent(&mut self, id: [i32; 3], value: T)
        requires
            old(self).wf(),
            !old(self)@.dom().contains(id_of(id)),
        ensures
            final(self).wf(),
            final(self)@ == old(self)@.insert(id_of(id), value),
            final(self).entries@.len() == old(self).entries@.len() + 1,
    {
        let mut p: usize = 0;
        while p < self.entries.len() && id_before(&self.entries[p].0, &id)
            invariant
                p <= self.entries@.len(),
                forall|j: int| 0 <= j < p ==> id_lt(id_of(#[trigger] self.entries@[j].0), id_of(id)),
            decreases self.entries@.len() - p,
        {
            p += 1;
        }
        proof {
            let s = self.entries@;
            assert forall|i: int| p <= i < s.len() implies id_lt(
                id_of(id),
                id_of(#[trigger] s[i].0),
            ) by {
                if i == p {
                    assert(!(0 <= i < s.len() && id_of(s[i].0) == id_of(id)));
                } else {
                    assert(id_lt(id_of(s[p as int].0), id_of(s[i].0)));
                    assert(!(0 <= p < s.len() && id_of(s[p as int].0) == id_of(id)));
                }
            }
            lemma_insert_entry(s, p as int, (id, value));
        }
        self.entries.insert(p, (id, value));
    }
}

} // verus!
