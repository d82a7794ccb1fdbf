use vstd::prelude::*;

use crate::catalog::Pending;
use crate::ids::{MovieId, SeriesId};

verus! {

broadcast use vstd::seq_lib::group_seq_properties;

/// The order of pending entries in time: by timestamp, then by id.
pub open spec fn time_less(a: (i64, u128), b: (i64, u128)) -> bool {
    a.0 < b.0 || (a.0 == b.0 && a.1 < b.1)
}

/// The key of a pending entry in time order.
pub open spec fn time_key(p: Pending) -> (i64, u128) {
    (p.timestamp.millis, p.series.0)
}

/// Database of things to watch next: one entry per id.
pub struct PendingDatabase {
    /// Entries by id.
    data: Vec<Pending>,
    /// Index by timestamp.
    by_timestamp: Vec<(i64, u128)>,
}

/// The entries of `d` by id.
pub open spec fn pending_map(d: Seq<Pending>) -> Map<u128, Pending> {
    Map::new(
        |k: u128| exists|i: int| 0 <= i < d.len() && d[i].series.0 == k,
        |k: u128| d[choose|i: int| 0 <= i < d.len() && d[i].series.0 == k],
    )
}

/// Entries sorted by id, the time index sorted, and the index holding
/// exactly the keys of the entries.
pub open spec fn pending_wf(d: Seq<Pending>, t: Seq<(i64, u128)>) -> bool {
    &&& forall|i: int, j: int| 0 <= i < j < d.len() ==> (#[trigger] d[i]).series.0 < (#[trigger] d[j]).series.0
    &&& forall|i: int, j: int| 0 <= i < j < t.len() ==> time_less(#[trigger] t[i], #[trigger] t[j])
    &&& t.len() == d.len()
    &&& forall|i: int| 0 <= i < d.len() ==> t.contains(time_key(#[trigger] d[i]))
    &&& forall|i: int| 0 <= i < t.len() ==> is_key_of(d, #[trigger] t[i])
}

/// Whether `x` is the time key of some entry of `d`.
pub open spec fn is_key_of(d: Seq<Pending>, x: (i64, u128)) -> bool {
    exists|j: int| 0 <= j < d.len() && x == time_key(d[j])
}

/// In a list sorted by id, the entry at each position is the one the map
/// gives for its id.
proof fn lemma_pending_at(d: Seq<Pending>, i: int)
    requires
        forall|a: int, b: int| 0 <= a < b < d.len() ==> (#[trigger] d[a]).series.0 < (#[trigger] d[b]).series.0,
        0 <= i < d.len(),
    ensures
        pending_map(d).contains_key(d[i].series.0),
        pending_map(d)[d[i].series.0] == d[i],
{
    let k = d[i].series.0;
    assert(exists|j: int| 0 <= j < d.len() && d[j].series.0 == k);
    let j = choose|j: int| 0 <= j < d.len() && d[j].series.0 == k;
    if j < i {
        assert(d[j].series.0 < d[i].series.0);
    } else if i < j {
        assert(d[i].series.0 < d[j].series.0);
    }
}

/// Where `key` goes in a sorted time index: after every entry before it.
fn time_position(t: &Vec<(i64, u128)>, key: (i64, u128)) -> (r: usize)
    requires
        forall|i: int, j: int| 0 <= i < j < t@.len() ==> time_less(#[trigger] t@[i], #[trigger] t@[j]),
    ensures
        r <= t@.len(),
        forall|i: int| 0 <= i < r ==> time_less(#[trigger] t@[i], key),
        forall|i: int| r <= i < t@.len() ==> !time_less(#[trigger] t@[i], key),
{
    let mut i: usize = 0;
    while i < t.len()
        invariant
            forall|a: int, b: int| 0 <= a < b < t@.len() ==> time_less(#[trigger] t@[a], #[trigger] t@[b]),
            i <= t@.len(),
            forall|j: int| 0 <= j < i ==> time_less(#[trigger] t@[j], key),
        decreases t@.len() - i,
    {
        let (ts, u) = t[i];
        if !(ts < key.0 || (ts == key.0 && u < key.1)) {
            proof {
                assert forall|j: int| i <= j < t@.len() implies !time_less(#[trigger] t@[j], key) by {
                    if j > i {
                        assert(time_less(t@[i as int], t@[j]));
                    }
                }
            }
            return i;
        }
        i = i + 1;
    }
    i
}

/// Removing an entry and its key from the index keeps the invariant.
proof fn lemma_remove_wf(d: Seq<Pending>, t: Seq<(i64, u128)>, i: int, pos: int)
    requires
        pending_wf(d, t),
        0 <= i < d.len(),
        0 <= pos < t.len(),
        t[pos] == time_key(d[i]),
    ensures
        pending_wf(d.remove(i), t.remove(pos)),
{
    let nd = d.remove(i);
    let nt = t.remove(pos);
    assert forall|a: int, b: int| 0 <= a < b < nd.len() implies (#[trigger] nd[a]).series.0 < (#[trigger] nd[b]).series.0 by {
        let (a0, b0) = (if a < i { a } else { a + 1 }, if b < i { b } else { b + 1 });
        assert(nd[a] == d[a0] && nd[b] == d[b0]);
    }
    assert forall|a: int, b: int| 0 <= a < b < nt.len() implies time_less(#[trigger] nt[a], #[trigger] nt[b]) by {
        let (a0, b0) = (if a < pos { a } else { a + 1 }, if b < pos { b } else { b + 1 });
        assert(nt[a] == t[a0] && nt[b] == t[b0]);
    }
    assert forall|a: int| 0 <= a < nd.len() implies nt.contains(time_key(#[trigger] nd[a])) by {
        let a0 = if a < i { a } else { a + 1 };
        assert(nd[a] == d[a0]);
        assert(t.contains(time_key(d[a0])));
        let j = choose|j: int| 0 <= j < t.len() && t[j] == time_key(d[a0]);
        assert(j != pos) by {
            if j == pos {
                if a0 < i {
                    assert(d[a0].series.0 < d[i].series.0);
                } else {
                    assert(d[i].series.0 < d[a0].series.0);
                }
            }
        }
        let j0 = if j < pos { j } else { j - 1 };
        assert(nt[j0] == t[j]);
    }
    assert forall|a: int| 0 <= a < nt.len() implies is_key_of(nd, #[trigger] nt[a]) by {
        let a0 = if a < pos { a } else { a + 1 };
        assert(nt[a] == t[a0]);
        assert(is_key_of(d, t[a0]));
        let j = choose|j: int| 0 <= j < d.len() && t[a0] == time_key(d[j]);
        assert(j != i) by {
            if j == i {
                if a0 < pos {
                    assert(time_less(t[a0], t[pos]));
                } else {
                    assert(time_less(t[pos], t[a0]));
                }
            }
        }
        let j0 = if j < i { j } else { j - 1 };
        assert(nd[j0] == d[j]);
    }
}

/// Removing the entry of `k` removes `k` from the map.
proof fn lemma_remove_map(d: Seq<Pending>, i: int)
    requires
        forall|a: int, b: int| 0 <= a < b < d.len() ==> (#[trigger] d[a]).series.0 < (#[trigger] d[b]).series.0,
        0 <= i < d.len(),
    ensures
        pending_map(d.remove(i)) == pending_map(d).remove(d[i].series.0),
{
    let k = d[i].series.0;
    let nd = d.remove(i);
    let m = pending_map(d);
    assert forall|a: int, b: int| 0 <= a < b < nd.len() implies (#[trigger] nd[a]).series.0 < (#[trigger] nd[b]).series.0 by {
        let (a0, b0) = (if a < i { a } else { a + 1 }, if b < i { b } else { b + 1 });
        assert(nd[a] == d[a0] && nd[b] == d[b0]);
    }
    assert forall|q: u128| #[trigger] pending_map(nd).contains_key(q) <==> m.remove(k).contains_key(q) by {
        if pending_map(nd).contains_key(q) {
            let j = choose|j: int| 0 <= j < nd.len() && nd[j].series.0 == q;
            let j0 = if j < i { j } else { j + 1 };
            assert(d[j0] == nd[j]);
            if q == k {
                if j0 < i {
                    assert(d[j0].series.0 < d[i].series.0);
                } else {
                    assert(d[i].series.0 < d[j0].series.0);
                }
            }
        }
        if m.remove(k).contains_key(q) {
            let j = choose|j: int| 0 <= j < d.len() && d[j].series.0 == q;
            assert(j != i);
            let j0 = if j < i { j } else { j - 1 };
            assert(nd[j0] == d[j]);
        }
    }
    assert forall|q: u128| #[trigger] pending_map(nd).contains_key(q) implies pending_map(nd)[q] == m.remove(k)[q] by {
        let j = choose|j: int| 0 <= j < nd.len() && nd[j].series.0 == q;
        lemma_pending_at(nd, j);
        let j0 = if j < i { j } else { j + 1 };
        assert(d[j0] == nd[j]);
        lemma_pending_at(d, j0);
    }
    assert(pending_map(nd) =~= m.remove(k));
}

/// Inserting an entry whose id is absent, at its places in both lists,
/// keeps the invariant and adds it to the map.
proof fn lemma_insert_wf(d: Seq<Pending>, t: Seq<(i64, u128)>, i: int, pos: int, p: Pending)
    requires
        pending_wf(d, t),
        0 <= i <= d.len(),
        0 <= pos <= t.len(),
        forall|j: int| 0 <= j < i ==> (#[trigger] d[j]).series.0 < p.series.0,
        forall|j: int| i <= j < d.len() ==> p.series.0 < (#[trigger] d[j]).series.0,
        forall|j: int| 0 <= j < pos ==> time_less(#[trigger] t[j], time_key(p)),
        forall|j: int| pos <= j < t.len() ==> !time_less(#[trigger] t[j], time_key(p)),
    ensures
        pending_wf(d.insert(i, p), t.insert(pos, time_key(p))),
        pending_map(d.insert(i, p)) == pending_map(d).insert(p.series.0, p),
{
    let key = time_key(p);
    let nd = d.insert(i, p);
    let nt = t.insert(pos, key);
    // Every key in the index belongs to another id, so it differs from `key`.
    assert forall|j: int| pos <= j < t.len() implies time_less(key, #[trigger] t[j]) by {
        assert(is_key_of(d, t[j]));
        let x = choose|x: int| 0 <= x < d.len() && t[j] == time_key(d[x]);
        assert(d[x].series.0 != p.series.0);
    }
    assert forall|a: int, b: int| 0 <= a < b < nd.len() implies (#[trigger] nd[a]).series.0 < (#[trigger] nd[b]).series.0 by {
        if a < i && b > i {
            assert(nd[a] == d[a] && nd[b] == d[b - 1]);
        } else if a > i {
            assert(nd[a] == d[a - 1] && nd[b] == d[b - 1]);
        } else if b < i {
            assert(nd[a] == d[a] && nd[b] == d[b]);
        } else if a == i {
            assert(nd[b] == d[b - 1]);
        } else {
            assert(nd[a] == d[a]);
        }
    }
    assert forall|a: int, b: int| 0 <= a < b < nt.len() implies time_less(#[trigger] nt[a], #[trigger] nt[b]) by {
        if a < pos && b > pos {
            assert(nt[a] == t[a] && nt[b] == t[b - 1]);
            assert(time_less(t[a], key) && time_less(key, t[b - 1]));
        } else if a > pos {
            assert(nt[a] == t[a - 1] && nt[b] == t[b - 1]);
        } else if b < pos {
            assert(nt[a] == t[a] && nt[b] == t[b]);
        } else if a == pos {
            assert(nt[b] == t[b - 1]);
        } else {
            assert(nt[a] == t[a]);
        }
    }
    assert forall|a: int| 0 <= a < nd.len() implies nt.contains(time_key(#[trigger] nd[a])) by {
        if a == i {
            assert(nt[pos] == key);
        } else {
            let a0 = if a < i { a } else { a - 1 };
            assert(nd[a] == d[a0]);
            assert(t.contains(time_key(d[a0])));
            let j = choose|j: int| 0 <= j < t.len() && t[j] == time_key(d[a0]);
            let j0 = if j < pos { j } else { j + 1 };
            assert(nt[j0] == t[j]);
        }
    }
    assert forall|a: int| 0 <= a < nt.len() implies is_key_of(nd, #[trigger] nt[a]) by {
        if a == pos {
            assert(nd[i] == p);
        } else {
            let a0 = if a < pos { a } else { a - 1 };
            assert(nt[a] == t[a0]);
            assert(is_key_of(d, t[a0]));
            let j = choose|j: int| 0 <= j < d.len() && t[a0] == time_key(d[j]);
            let j0 = if j < i { j } else { j + 1 };
            assert(nd[j0] == d[j]);
        }
    }
    let m = pending_map(d);
    assert forall|q: u128| #[trigger] pending_map(nd).contains_key(q) <==> m.insert(p.series.0, p).contains_key(q) by {
        if pending_map(nd).contains_key(q) && q != p.series.0 {
            let j = choose|j: int| 0 <= j < nd.len() && nd[j].series.0 == q;
            let j0 = if j < i { j } else { j - 1 };
            assert(d[j0] == nd[j]);
        }
        if m.contains_key(q) {
            let j = choose|j: int| 0 <= j < d.len() && d[j].series.0 == q;
            let j0 = if j < i { j } else { j + 1 };
            assert(nd[j0] == d[j]);
        }
        if q == p.series.0 {
            assert(nd[i] == p);
        }
    }
    assert forall|q: u128| #[trigger] pending_map(nd).contains_key(q) implies pending_map(nd)[q] == m.insert(
        p.series.0,
        p,
    )[q] by {
        let j = choose|j: int| 0 <= j < nd.len() && nd[j].series.0 == q;
        lemma_pending_at(nd, j);
        if j != i {
            let j0 = if j < i { j } else { j - 1 };
            assert(d[j0] == nd[j]);
            lemma_pending_at(d, j0);
        }
    }
    assert(pending_map(nd) =~= m.insert(p.series.0, p));
}

/// The map after inserting the entries of `s` one by one.
pub open spec fn extended(m: Map<u128, Pending>, s: Seq<Pending>) -> Map<u128, Pending>
    decreases s.len(),
{
    if s.len() == 0 {
        m
    } else {
        extended(m, s.drop_last()).insert(s.last().series.0, s.last())
    }
}

/// `r` is an export of the entries `m`: each once, in order of id.
pub open spec fn pending_export_of(m: Map<u128, Pending>, r: Seq<Pending>) -> bool {
    &&& forall|i: int| 0 <= i < r.len() ==> m.contains_key((#[trigger] r[i]).series.0) && r[i] == m[r[i].series.0]
    &&& forall|k: u128| #[trigger] m.contains_key(k) ==> exists|i: int| 0 <= i < r.len() && r[i].series.0 == k
    &&& forall|i: int, j: int| 0 <= i < j < r.len() ==> (#[trigger] r[i]).series.0 < (#[trigger] r[j]).series.0
}

impl PendingDatabase {
    /// The entries, by id.
    pub closed spec fn view(&self) -> Map<u128, Pending> {
        pending_map(self.data@)
    }

    /// The invariant: entries sorted by id, the time index sorted, and the
    /// index holding exactly the keys of the entries.
    pub closed spec fn wf(&self) -> bool {
        pending_wf(self.data@, self.by_timestamp@)
    }

    /// An empty database.
    pub fn new() -> (db: PendingDatabase)
        ensures
            db.wf(),
            db.view() == Map::<u128, Pending>::empty(),
    {
        let db = PendingDatabase { data: Vec::new(), by_timestamp: Vec::new() };
        assert(db.view() =~= Map::<u128, Pending>::empty());
        db
    }

    proof fn lemma_at(&self, i: int)
        requires
            self.wf(),
            0 <= i < self.data@.len(),
        ensures
            self.view().contains_key(self.data@[i].series.0),
            self.view()[self.data@[i].series.0] == self.data@[i],
    {
        lemma_pending_at(self.data@, i);
    }

    /// Where the entry of `k` is, or where it would go.
    fn find(&self, k: u128) -> (r: (usize, bool))
        requires
            self.wf(),
        ensures
            r.0 <= self.data@.len(),
            r.1 ==> r.0 < self.data@.len() && self.data@[r.0 as int].series.0 == k,
            r.1 == self.view().contains_key(k),
            forall|i: int| 0 <= i < r.0 ==> (#[trigger] self.data@[i]).series.0 < k,
            !r.1 ==> forall|i: int| r.0 <= i < self.data@.len() ==> k < (#[trigger] self.data@[i]).series.0,
    {
        let mut i: usize = 0;
        while i < self.data.len()
            invariant
                self.wf(),
                i <= self.data@.len(),
                forall|j: int| 0 <= j < i ==> (#[trigger] self.data@[j]).series.0 < k,
            decreases self.data@.len() - i,
        {
            let c = self.data[i].series.0;
            if c == k {
                proof {
                    self.lemma_at(i as int);
                }
                return (i, true);
            }
            if c > k {
                proof {
                    assert forall|j: int| i <= j < self.data@.len() implies k < (#[trigger] self.data@[j]).series.0 by {
                        if j > i {
                            assert(self.data@[i as int].series.0 < self.data@[j].series.0);
                        }
                    }
                }
                return (i, false);
            }
            i = i + 1;
        }
        (i, false)
    }

    /// The entry of `k`, if any.
    fn get_key(&self, k: u128) -> (r: Option<Pending>)
        requires
            self.wf(),
        ensures
            r == (if self.view().contains_key(k) {
                Some(self.view()[k])
            } else {
                None
            }),
    {
        let (i, found) = self.find(k);
        if found {
            proof {
                self.lemma_at(i as int);
            }
            Some(self.data[i])
        } else {
            None
        }
    }

    /// Get the pending entry of a series.
    pub fn get(&self, id: &SeriesId) -> (r: Option<Pending>)
        requires
            self.wf(),
        ensures
            r == (if self.view().contains_key(id.0) {
                Some(self.view()[id.0])
            } else {
                None
            }),
    {
        self.get_key(id.0)
    }

    /// Get the pending entry of a movie.
    pub fn by_movie(&self, id: &MovieId) -> (r: Option<Pending>)
        requires
            self.wf(),
        ensures
            r == (if self.view().contains_key(id.0) {
                Some(self.view()[id.0])
            } else {
                None
            }),
    {
        self.get_key(id.0)
    }

    /// Remove the entry of `k`, if any.
    fn remove_key(&mut self, k: u128) -> (r: Option<Pending>)
        requires
            old(self).wf(),
        ensures
            final(self).wf(),
            final(self).view() == old(self).view().remove(k),
            r == (if old(self).view().contains_key(k) {
                Some(old(self).view()[k])
            } else {
                None
            }),
    {
        let (i, found) = self.find(k);
        if !found {
            assert(old(self).view().remove(k) =~= old(self).view());
            return None;
        }
        proof {
            self.lemma_at(i as int);
        }
        let ghost od = self.data@;
        let ghost ot = self.by_timestamp@;
        let key = (self.data[i].timestamp.millis, self.data[i].series.0);
        assert(ot.contains(key));
        let ghost w = choose|j: int| 0 <= j < ot.len() && ot[j] == key;
        let pos = time_position(&self.by_timestamp, key);
        assert(pos == w) by {
            if pos < w {
                assert(!time_less(ot[pos as int], key));
                assert(time_less(ot[pos as int], ot[w]));
            } else if pos > w {
                assert(time_less(ot[w], key));
            }
        }
        let p = self.data.remove(i);
        let _ = self.by_timestamp.remove(pos);
        proof {
            lemma_remove_wf(od, ot, i as int, pos as int);
            lemma_remove_map(od, i as int);
        }
        Some(p)
    }

    /// Remove the pending entry of a series.
    pub fn remove_series(&mut self, id: &SeriesId) -> (r: Option<Pending>)
        requires
            old(self).wf(),
        ensures
            final(self).wf(),
            final(self).view() == old(self).view().remove(id.0),
            r == (if old(self).view().contains_key(id.0) {
                Some(old(self).view()[id.0])
            } else {
                None
            }),
    {
        self.remove_key(id.0)
    }

    /// Remove the pending entry of a movie.
    pub fn remove_movie(&mut self, id: &MovieId) -> (r: Option<Pending>)
        requires
            old(self).wf(),
        ensures
            final(self).wf(),
            final(self).view() == old(self).view().remove(id.0),
            r == (if old(self).view().contains_key(id.0) {
                Some(old(self).view()[id.0])
            } else {
                None
            }),
    {
        self.remove_key(id.0)
    }

    /// Insert `p`, in place of an entry with the same id.
    pub fn insert(&mut self, p: Pending)
        requires
            old(self).wf(),
        ensures
            final(self).wf(),
            final(self).view() == old(self).view().insert(p.series.0, p),
    {
        let _ = self.remove_key(p.series.0);
        let ghost mid = self.view();
        let (i, found) = self.find(p.series.0);
        assert(!found);
        let key = (p.timestamp.millis, p.series.0);
        let pos = time_position(&self.by_timestamp, key);
        proof {
            lemma_insert_wf(self.data@, self.by_timestamp@, i as int, pos as int, p);
        }
        self.data.insert(i, p);
        self.by_timestamp.insert(pos, key);
        assert(mid.insert(p.series.0, p) =~= old(self).view().insert(p.series.0, p));
    }

    /// Insert the given entries in order, each in place of an entry with
    /// the same id.
    pub fn extend(&mut self, items: Vec<Pending>)
        requires
            old(self).wf(),
        ensures
            final(self).wf(),
            final(self).view() == extended(old(self).view(), items@),
    {
        let mut i: usize = 0;
        while i < items.len()
            invariant
                self.wf(),
                i <= items@.len(),
                self.view() == extended(old(self).view(), items@.take(i as int)),
            decreases items@.len() - i,
        {
            proof {
                assert(items@.take(i + 1).drop_last() =~= items@.take(i as int));
            }
            self.insert(items[i]);
            i = i + 1;
        }
        assert(items@.take(i as int) =~= items@);
    }

    /// The entries in time order: by timestamp, then by id.
    pub fn iter(&self) -> (r: Vec<Pending>)
        requires
            self.wf(),
        ensures
            forall|i: int|
                0 <= i < r@.len() ==> self.view().contains_key((#[trigger] r@[i]).series.0) && r@[i] == self.view()[r@[i].series.0],
            forall|k: u128| #[trigger] self.view().contains_key(k) ==> exists|i: int| 0 <= i < r@.len() && r@[i].series.0 == k,
            forall|i: int, j: int| 0 <= i < j < r@.len() ==> time_less(time_key(#[trigger] r@[i]), time_key(#[trigger] r@[j])),
    {
        let ghost t = self.by_timestamp@;
        let ghost d = self.data@;
        let mut out: Vec<Pending> = Vec::new();
        let mut i: usize = 0;
        while i < self.by_timestamp.len()
            invariant
                self.wf(),
                t == self.by_timestamp@,
                d == self.data@,
                i <= t.len(),
                out@.len() == i,
                forall|p: int| 0 <= p < i ==> time_key(#[trigger] out@[p]) == t[p] && self.view().contains_key(out@[p].series.0)
                    && out@[p] == self.view()[out@[p].series.0],
            decreases t.len() - i,
        {
            let (_, u) = self.by_timestamp[i];
            proof {
                assert(is_key_of(d, t[i as int]));
                let j = choose|j: int| 0 <= j < d.len() && t[i as int] == time_key(d[j]);
                self.lemma_at(j);
            }
            match self.get_key(u) {
                Some(p) => {
                    out.push(p);
                },
                None => {
                    assert(false);
                },
            }
            i = i + 1;
        }
        proof {
            assert forall|k: u128| #[trigger] self.view().contains_key(k) implies exists|p: int|
                0 <= p < out@.len() && out@[p].series.0 == k by {
                let j = choose|j: int| 0 <= j < d.len() && d[j].series.0 == k;
                assert(t.contains(time_key(d[j])));
                let p = choose|p: int| 0 <= p < t.len() && t[p] == time_key(d[j]);
                assert(time_key(out@[p]) == t[p]);
            }
        }
        out
    }

    /// The entries in order of id.
    pub fn export(&self) -> (r: Vec<Pending>)
        requires
            self.wf(),
        ensures
            pending_export_of(self.view(), r@),
    {
        let mut out: Vec<Pending> = Vec::new();
        let mut i: usize = 0;
        while i < self.data.len()
            invariant
                self.wf(),
                i <= self.data@.len(),
                out@ == self.data@.take(i as int),
            decreases self.data@.len() - i,
        {
            out.push(self.data[i]);
            i = i + 1;
            assert(out@ =~= self.data@.take(i as int));
        }
        proof {
            assert(out@ =~= self.data@);
            assert forall|a: int| 0 <= a < out@.len() implies self.view().contains_key((#[trigger] out@[a]).series.0)
                && out@[a] == self.view()[out@[a].series.0] by {
                self.lemma_at(a);
            }
        }
        out
    }
}

proof fn lemma_extended_distinct(r: Seq<Pending>)
    requires
        forall|i: int, j: int| 0 <= i < j < r.len() ==> (#[trigger] r[i]).series.0 != (
        #[trigger] r[j]).series.0,
    ensures
        forall|k: u128|
            #[trigger] extended(Map::empty(), r).contains_key(k) <==> exists|i: int|
                0 <= i < r.len() && r[i].series.0 == k,
        forall|i: int| 0 <= i < r.len() ==> extended(Map::empty(), r)[(#[trigger] r[i]).series.0] == r[i],
    decreases r.len(),
{
    if r.len() > 0 {
        let p = r.drop_last();
        assert forall|i: int, j: int| 0 <= i < j < p.len() implies (#[trigger] p[i]).series.0
            != (#[trigger] p[j]).series.0 by {
            assert(p[i] == r[i] && p[j] == r[j]);
        }
        lemma_extended_distinct(p);
        let n = r.len() - 1;
        assert(r.last() == r[n]);
        assert forall|k: u128|
            #[trigger] extended(Map::empty(), r).contains_key(k) <==> exists|i: int|
                0 <= i < r.len() && r[i].series.0 == k by {
            if extended(Map::empty(), p).contains_key(k) {
                let i = choose|i: int| 0 <= i < p.len() && p[i].series.0 == k;
                assert(r[i] == p[i]);
            }
            if exists|i: int| 0 <= i < r.len() && r[i].series.0 == k {
                let i = choose|i: int| 0 <= i < r.len() && r[i].series.0 == k;
                if i < n {
                    assert(p[i] == r[i]);
                }
            }
        }
        assert forall|i: int| 0 <= i < r.len() implies extended(Map::empty(), r)[(
        #[trigger] r[i]).series.0] == r[i] by {
            if i < n {
                assert(p[i] == r[i]);
                assert(r[i].series.0 != r[n].series.0);
            }
        }
    }
}

/// Extending an empty database with an export of another gives back its entries.
pub proof fn lemma_export_extend_roundtrip(m: Map<u128, Pending>, r: Seq<Pending>)
    requires
        pending_export_of(m, r),
    ensures
        extended(Map::empty(), r) == m,
{
    lemma_extended_distinct(r);
    let a = extended(Map::empty(), r);
    assert forall|k: u128| #[trigger] a.contains_key(k) <==> m.contains_key(k) by {
        if a.contains_key(k) {
            let i = choose|i: int| 0 <= i < r.len() && r[i].series.0 == k;
            assert(m.contains_key(r[i].series.0));
        }
    }
    assert forall|k: u128| #[trigger] a.contains_key(k) implies a[k] == m[k] by {
        let i = choose|i: int| 0 <= i < r.len() && r[i].series.0 == k;
        assert(a[r[i].series.0] == r[i]);
    }
    assert(a =~= m);
}

} // verus!
