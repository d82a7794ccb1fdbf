use std::collections::HashMap;

use slab::Slab;
use vstd::prelude::*;

use crate::catalog::Series;
use crate::ids::SeriesId;
use vstd::utf8::{encode_utf8, encode_utf8_decode_utf8};

use crate::remote_map::{bytes_less, lemma_bytes_less};

verus! {

broadcast use {vstd::std_specs::hash::group_hash_axioms, vstd::seq_lib::group_seq_properties};

#[verifier::external_type_specification]
#[verifier::external_body]
#[verifier::reject_recursive_types(T)]
pub struct ExSlab<T>(Slab<T>);

/// The series that a slab holds, by key.
pub uninterp spec fn slab_series(s: Slab<Series>) -> Map<usize, Series>;

/// `slab::Slab::new`: an empty slab.
#[verifier::external_body]
fn series_slab_new() -> (created: Slab<Series>)
    ensures
        slab_series(created).dom() == Set::<usize>::empty(),
{
    Slab::new()
}

/// `slab::Slab::insert`: stores the value under a key that held nothing and
/// returns that key; the other keys keep their values. (Like any growth of
/// a vector, it aborts when the storage cannot be allocated.)
#[verifier::external_body]
fn series_slab_insert(s: &mut Slab<Series>, v: Series) -> (k: usize)
    ensures
        !slab_series(*old(s)).contains_key(k),
        slab_series(*final(s)) == slab_series(*old(s)).insert(k, v),
{
    s.insert(v)
}

/// `slab::Slab::get`: the value under the key, if there is one.
#[verifier::external_body]
fn series_slab_get(s: &Slab<Series>, k: usize) -> (r: Option<&Series>)
    ensures
        match r {
            Some(v) => slab_series(*s).contains_key(k) && *v == slab_series(*s)[k],
            None => !slab_series(*s).contains_key(k),
        },
{
    s.get(k)
}

/// `slab::Slab::try_remove`: takes out the value under the key, if there is
/// one; the other keys keep their values.
#[verifier::external_body]
fn series_slab_try_remove(s: &mut Slab<Series>, k: usize) -> (r: Option<Series>)
    ensures
        slab_series(*final(s)) == slab_series(*old(s)).remove(k),
        match r {
            Some(v) => slab_series(*old(s)).contains_key(k) && v == slab_series(*old(s))[k],
            None => !slab_series(*old(s)).contains_key(k),
        },
{
    s.try_remove(k)
}

/// `slab::Slab::iter`, keeping the keys: the keys that hold a value, in
/// increasing order, as the iterator walks the slots from the first.
#[verifier::external_body]
fn series_slab_keys(s: &Slab<Series>) -> (r: Vec<usize>)
    ensures
        forall|i: int, j: int| 0 <= i < j < r@.len() ==> #[trigger] r@[i] < #[trigger] r@[j],
        forall|k: usize| r@.contains(k) <==> slab_series(*s).contains_key(k),
{
    s.iter().map(|(k, _)| k).collect()
}

/// The order of series by name: by the bytes of the title, then by id.
pub open spec fn name_less(t1: Seq<char>, id1: SeriesId, t2: Seq<char>, id2: SeriesId) -> bool {
    bytes_less(encode_utf8(t1), encode_utf8(t2)) || (t1 == t2 && id1.0 < id2.0)
}

/// The order by name is a strict total order.
pub proof fn lemma_name_order(
    t1: Seq<char>,
    id1: SeriesId,
    t2: Seq<char>,
    id2: SeriesId,
    t3: Seq<char>,
    id3: SeriesId,
)
    ensures
        !name_less(t1, id1, t1, id1),
        name_less(t1, id1, t2, id2) && name_less(t2, id2, t3, id3) ==> name_less(t1, id1, t3, id3),
        (t1 != t2 || id1 != id2) ==> name_less(t1, id1, t2, id2) || name_less(t2, id2, t1, id1),
{
    let (b1, b2, b3) = (encode_utf8(t1), encode_utf8(t2), encode_utf8(t3));
    lemma_bytes_less(b1, b2, b3);
    lemma_bytes_less(b2, b1, b3);
    lemma_bytes_less(b1, b1, b1);
    encode_utf8_decode_utf8(t1);
    encode_utf8_decode_utf8(t2);
    encode_utf8_decode_utf8(t3);
    if t1 == t2 && id1 != id2 {
        assert(id1.0 != id2.0);
    }
}

/// Whether the bytes `a` sort before the bytes `b`.
fn bytes_before(a: &[u8], b: &[u8]) -> (r: bool)
    ensures
        r == bytes_less(a@, b@),
{
    let mut i: usize = 0;
    assert(a@.skip(0) =~= a@);
    assert(b@.skip(0) =~= b@);
    while i < a.len() && i < b.len()
        invariant
            i <= a@.len(),
            i <= b@.len(),
            bytes_less(a@, b@) == bytes_less(a@.skip(i as int), b@.skip(i as int)),
        decreases a@.len() - i,
    {
        let x = a[i];
        let y = b[i];
        assert(a@.skip(i as int).drop_first() =~= a@.skip(i + 1));
        assert(b@.skip(i as int).drop_first() =~= b@.skip(i + 1));
        assert(a@.skip(i as int)[0] == x);
        assert(b@.skip(i as int)[0] == y);
        if x != y {
            return x < y;
        }
        i = i + 1;
    }
    i < b.len()
}

/// Whether the series named `t1` with id `id1` sorts before `t2`, `id2`.
fn name_before(t1: &str, id1: SeriesId, t2: &str, id2: SeriesId) -> (r: bool)
    ensures
        r == name_less(t1@, id1, t2@, id2),
{
    let a = t1.as_bytes();
    let b = t2.as_bytes();
    if bytes_before(a, b) {
        return true;
    }
    if bytes_before(b, a) {
        return false;
    }
    proof {
        lemma_bytes_less(a@, b@, a@);
        encode_utf8_decode_utf8(t1@);
        encode_utf8_decode_utf8(t2@);
    }
    id1.0 < id2.0
}

/// Database of series: each stored once, found by id or walked by name.
pub struct SeriesDatabase {
    data: Slab<Series>,
    by_id: HashMap<u128, usize>,
    by_name: Vec<(String, SeriesId)>,
}

impl SeriesDatabase {
    /// The series, by id.
    pub closed spec fn view(&self) -> Map<SeriesId, Series> {
        Map::new(
            |id: SeriesId| self.by_id@.contains_key(id.0),
            |id: SeriesId| slab_series(self.data)[self.by_id@[id.0]],
        )
    }

    /// The invariant: the id index and the slab match one for one, and the
    /// name index holds each series once, by title and id, in order.
    pub closed spec fn wf(&self) -> bool {
        let s = slab_series(self.data);
        let ix = self.by_id@;
        let n = self.by_name@;
        &&& forall|k: u128| #[trigger] ix.contains_key(k) ==> s.contains_key(ix[k]) && s[ix[k]].id.0 == k
        &&& forall|j: usize| #[trigger] s.contains_key(j) ==> ix.contains_key(s[j].id.0) && ix[s[j].id.0] == j
        &&& forall|a: int, b: int|
            0 <= a < b < n.len() ==> name_less(#[trigger] n[a].0@, n[a].1, #[trigger] n[b].0@, n[b].1)
        &&& forall|a: int|
            0 <= a < n.len() ==> ix.contains_key((#[trigger] n[a]).1.0) && s[ix[n[a].1.0]].title@ == n[a].0@
        &&& forall|k: u128| #[trigger] ix.contains_key(k) ==> exists|a: int| 0 <= a < n.len() && n[a].1.0 == k
    }

    /// An empty database.
    pub fn new() -> (db: SeriesDatabase)
        ensures
            db.wf(),
            db.view() == Map::<SeriesId, Series>::empty(),
    {
        let db = SeriesDatabase { data: series_slab_new(), by_id: HashMap::new(), by_name: Vec::new() };
        assert(slab_series(db.data) =~= Map::<usize, Series>::empty());
        assert(db.view() =~= Map::<SeriesId, Series>::empty());
        db
    }

    /// Get a series.
    pub fn get(&self, id: &SeriesId) -> (r: Option<&Series>)
        requires
            self.wf(),
        ensures
            match r {
                Some(v) => self.view().contains_key(*id) && *v == self.view()[*id],
                None => !self.view().contains_key(*id),
            },
    {
        match self.by_id.get(&id.0) {
            Some(index) => series_slab_get(&self.data, *index),
            None => None,
        }
    }

    /// Where the entry of `id` sits in the name index.
    fn name_position(&self, id: SeriesId) -> (r: usize)
        requires
            self.wf(),
            self.by_id@.contains_key(id.0),
        ensures
            r < self.by_name@.len(),
            self.by_name@[r as int].1 == id,
    {
        let ghost n = self.by_name@;
        let ghost w = choose|a: int| 0 <= a < n.len() && n[a].1.0 == id.0;
        let mut i: usize = 0;
        while i < self.by_name.len()
            invariant
                n == self.by_name@,
                0 <= w < n.len(),
                n[w].1.0 == id.0,
                i <= w,
            decreases n.len() - i,
        {
            if self.by_name[i].1.0 == id.0 {
                return i;
            }
            i = i + 1;
        }
        i
    }

    /// Remove the series with the given identifier.
    pub fn remove(&mut self, id: &SeriesId) -> (r: Option<Series>)
        requires
            old(self).wf(),
        ensures
            final(self).wf(),
            final(self).view() == old(self).view().remove(*id),
            match r {
                Some(v) => old(self).view().contains_key(*id) && v == old(self).view()[*id],
                None => !old(self).view().contains_key(*id),
            },
    {
        if !self.by_id.contains_key(&id.0) {
            assert(old(self).view().remove(*id) =~= old(self).view());
            return None;
        }
        let pos = self.name_position(*id);
        let ghost os = slab_series(self.data);
        let ghost oix = self.by_id@;
        let ghost on = self.by_name@;
        let index = match self.by_id.remove(&id.0) {
            Some(index) => index,
            None => {
                assert(false);
                return None;
            },
        };
        let series = match series_slab_try_remove(&mut self.data, index) {
            Some(series) => series,
            None => {
                assert(false);
                return None;
            },
        };
        let _ = self.by_name.remove(pos);
        proof {
            let s = slab_series(self.data);
            let ix = self.by_id@;
            let n = self.by_name@;
            assert(s == os.remove(index));
            assert(ix == oix.remove(id.0));
            assert forall|k: u128| #[trigger] ix.contains_key(k) implies s.contains_key(ix[k]) && s[ix[k]].id.0 == k by {
                assert(oix.contains_key(k));
                assert(os[oix[k]].id.0 == k);
                if oix[k] == index {
                    assert(os[index].id.0 == id.0);
                }
            }
            assert forall|j: usize| #[trigger] s.contains_key(j) implies ix.contains_key(s[j].id.0) && ix[s[j].id.0] == j by {
                assert(os.contains_key(j));
                assert(oix[os[j].id.0] == j);
            }
            assert forall|a: int, b: int| 0 <= a < b < n.len() implies name_less(
                #[trigger] n[a].0@,
                n[a].1,
                #[trigger] n[b].0@,
                n[b].1,
            ) by {
                let (a0, b0) = (if a < pos { a } else { a + 1 }, if b < pos { b } else { b + 1 });
                assert(n[a] == on[a0] && n[b] == on[b0]);
                assert(name_less(on[a0].0@, on[a0].1, on[b0].0@, on[b0].1));
            }
            assert forall|a: int| 0 <= a < n.len() implies ix.contains_key((#[trigger] n[a]).1.0) && s[ix[n[a].1.0]].title@
                == n[a].0@ by {
                let a0 = if a < pos { a } else { a + 1 };
                assert(n[a] == on[a0]);
                assert(oix.contains_key(on[a0].1.0));
                if on[a0].1.0 == id.0 {
                    self.lemma_names_distinct(on, oix, os, a0, pos as int);
                }
                assert(os[oix[on[a0].1.0]].title@ == on[a0].0@);
                assert(os.contains_key(oix[on[a0].1.0]));
            }
            assert forall|k: u128| #[trigger] ix.contains_key(k) implies exists|a: int| 0 <= a < n.len() && n[a].1.0 == k by {
                let a0 = choose|a: int| 0 <= a < on.len() && on[a].1.0 == k;
                if a0 < pos {
                    assert(n[a0] == on[a0]);
                } else {
                    assert(a0 != pos);
                    assert(n[a0 - 1] == on[a0]);
                }
            }
            assert(self.view() =~= old(self).view().remove(*id));
        }
        Some(series)
    }

    /// Insert the given series, in place of one with the same id.
    pub fn insert(&mut self, series: Series)
        requires
            old(self).wf(),
        ensures
            final(self).wf(),
            final(self).view() == old(self).view().insert(series.id, series),
    {
        let id = series.id;
        if self.by_id.contains_key(&id.0) {
            let _ = self.remove(&id);
        } else {
            assert(old(self).view().remove(id) =~= old(self).view());
        }
        let ghost mid = self.view();
        assert(mid == old(self).view().remove(id));
        assert(!mid.contains_key(id));
        let ghost os = slab_series(self.data);
        let ghost oix = self.by_id@;
        let ghost on = self.by_name@;
        let title = series.title.clone();
        let mut pos: usize = 0;
        while pos < self.by_name.len()
            invariant_except_break
                pos <= on.len(),
                on == self.by_name@,
                forall|a: int| 0 <= a < pos ==> name_less(#[trigger] on[a].0@, on[a].1, title@, id),
            invariant
                pos <= on.len(),
                on == self.by_name@,
            ensures
                pos <= on.len(),
                forall|a: int| 0 <= a < pos ==> name_less(#[trigger] on[a].0@, on[a].1, title@, id),
                pos < on.len() ==> !name_less(on[pos as int].0@, on[pos as int].1, title@, id),
            decreases on.len() - pos,
        {
            if !name_before(self.by_name[pos].0.as_str(), self.by_name[pos].1, title.as_str(), id) {
                break;
            }
            pos = pos + 1;
        }
        let ghost v = series;
        let index = series_slab_insert(&mut self.data, series);
        self.by_id.insert(id.0, index);
        self.by_name.insert(pos, (title, id));
        proof {
            let s = slab_series(self.data);
            let ix = self.by_id@;
            let n = self.by_name@;
            assert(!oix.contains_key(id.0));
            assert(s == os.insert(index, v));
            assert(ix == oix.insert(id.0, index));
            assert forall|k: u128| #[trigger] ix.contains_key(k) implies s.contains_key(ix[k]) && s[ix[k]].id.0 == k by {
                if k != id.0 {
                    assert(os.contains_key(oix[k]));
                    assert(oix[k] != index);
                }
            }
            assert forall|j: usize| #[trigger] s.contains_key(j) implies ix.contains_key(s[j].id.0) && ix[s[j].id.0] == j by {
                if j != index {
                    assert(os.contains_key(j));
                    assert(oix.contains_key(os[j].id.0));
                    assert(os[j].id.0 != id.0);
                }
            }
            // Entries after `pos` sort after the new one: the order is total
            // and the new id is not in the index.
            assert forall|a: int| pos <= a < on.len() implies name_less(title@, id, #[trigger] on[a].0@, on[a].1) by {
                assert(oix.contains_key(on[a].1.0));
                assert(on[a].1 != id);
                lemma_name_order(on[pos as int].0@, on[pos as int].1, title@, id, on[a].0@, on[a].1);
                lemma_name_order(title@, id, on[pos as int].0@, on[pos as int].1, on[a].0@, on[a].1);
                if a > pos {
                    assert(name_less(on[pos as int].0@, on[pos as int].1, on[a].0@, on[a].1));
                }
                assert(oix.contains_key(on[pos as int].1.0));
                assert(on[pos as int].1 != id);
            }
            assert forall|a: int, b: int| 0 <= a < b < n.len() implies name_less(
                #[trigger] n[a].0@,
                n[a].1,
                #[trigger] n[b].0@,
                n[b].1,
            ) by {
                if a < pos && b == pos {
                } else if a == pos {
                    assert(n[b] == on[b - 1]);
                } else if b < pos {
                    assert(n[a] == on[a] && n[b] == on[b]);
                } else if a < pos {
                    assert(n[a] == on[a] && n[b] == on[b - 1]);
                    lemma_name_order(on[a].0@, on[a].1, title@, id, on[b - 1].0@, on[b - 1].1);
                } else {
                    assert(n[a] == on[a - 1] && n[b] == on[b - 1]);
                }
            }
            assert forall|a: int| 0 <= a < n.len() implies ix.contains_key((#[trigger] n[a]).1.0) && s[ix[n[a].1.0]].title@
                == n[a].0@ by {
                if a == pos {
                } else {
                    let a0 = if a < pos { a } else { a - 1 };
                    assert(n[a] == on[a0]);
                    assert(oix.contains_key(on[a0].1.0));
                    assert(os.contains_key(oix[on[a0].1.0]));
                    assert(oix[on[a0].1.0] != index);
                }
            }
            assert forall|k: u128| #[trigger] ix.contains_key(k) implies exists|a: int| 0 <= a < n.len() && n[a].1.0 == k by {
                if k == id.0 {
                    assert(n[pos as int].1.0 == k);
                } else {
                    let a0 = choose|a: int| 0 <= a < on.len() && on[a].1.0 == k;
                    if a0 < pos {
                        assert(n[a0] == on[a0]);
                    } else {
                        assert(n[a0 + 1] == on[a0]);
                    }
                }
            }
            assert(self.view() =~= mid.insert(id, v));
            assert(mid.insert(id, v) =~= old(self).view().insert(id, v));
        }
    }

    /// All series, in some order: each once.
    pub fn iter(&self) -> (r: Vec<&Series>)
        requires
            self.wf(),
        ensures
            forall|i: int|
                0 <= i < r@.len() ==> self.view().contains_key((#[trigger] r@[i]).id) && *r@[i] == self.view()[r@[i].id],
            forall|id: SeriesId| #[trigger]
                self.view().contains_key(id) ==> exists|i: int| 0 <= i < r@.len() && r@[i].id == id,
            forall|i: int, j: int| 0 <= i < j < r@.len() ==> (#[trigger] r@[i]).id != (#[trigger] r@[j]).id,
    {
        let keys = series_slab_keys(&self.data);
        let ghost sl = slab_series(self.data);
        let ghost ix = self.by_id@;
        let mut out: Vec<&Series> = Vec::new();
        let mut i: usize = 0;
        while i < keys.len()
            invariant
                self.wf(),
                sl == slab_series(self.data),
                ix == self.by_id@,
                forall|a: int, b: int| 0 <= a < b < keys@.len() ==> #[trigger] keys@[a] < #[trigger] keys@[b],
                forall|k: usize| keys@.contains(k) <==> sl.contains_key(k),
                i <= keys@.len(),
                out@.len() == i,
                forall|p: int| 0 <= p < i ==> *(#[trigger] out@[p]) == sl[keys@[p]],
            decreases keys@.len() - i,
        {
            assert(keys@.contains(keys@[i as int]));
            match series_slab_get(&self.data, keys[i]) {
                Some(v) => out.push(v),
                None => {
                    assert(false);
                },
            }
            i = i + 1;
        }
        proof {
            assert forall|p: int| 0 <= p < out@.len() implies self.view().contains_key((#[trigger] out@[p]).id) && *out@[p]
                == self.view()[out@[p].id] by {
                assert(keys@.contains(keys@[p]));
                assert(sl.contains_key(keys@[p]));
            }
            assert forall|id: SeriesId| #[trigger] self.view().contains_key(id) implies exists|p: int|
                0 <= p < out@.len() && out@[p].id == id by {
                let j = ix[id.0];
                assert(sl.contains_key(j));
                assert(keys@.contains(j));
                let p = choose|p: int| 0 <= p < keys@.len() && keys@[p] == j;
                assert(out@[p].id == sl[j].id);
            }
            assert forall|a: int, b: int| 0 <= a < b < out@.len() implies (#[trigger] out@[a]).id != (
            #[trigger] out@[b]).id by {
                assert(keys@.contains(keys@[a]));
                assert(keys@.contains(keys@[b]));
                assert(keys@[a] < keys@[b]);
                assert(ix[sl[keys@[a]].id.0] == keys@[a]);
                assert(ix[sl[keys@[b]].id.0] == keys@[b]);
            }
        }
        out
    }

    /// All series, sorted by title and then by id.
    pub fn iter_by_name(&self) -> (r: Vec<&Series>)
        requires
            self.wf(),
        ensures
            forall|i: int|
                0 <= i < r@.len() ==> self.view().contains_key((#[trigger] r@[i]).id) && *r@[i] == self.view()[r@[i].id],
            forall|id: SeriesId| #[trigger]
                self.view().contains_key(id) ==> exists|i: int| 0 <= i < r@.len() && r@[i].id == id,
            forall|i: int, j: int|
                0 <= i < j < r@.len() ==> name_less(
                    (#[trigger] r@[i]).title@,
                    r@[i].id,
                    (#[trigger] r@[j]).title@,
                    r@[j].id,
                ),
    {
        let ghost n = self.by_name@;
        let mut out: Vec<&Series> = Vec::new();
        let mut i: usize = 0;
        while i < self.by_name.len()
            invariant
                self.wf(),
                n == self.by_name@,
                i <= n.len(),
                out@.len() == i,
                forall|p: int|
                    0 <= p < i ==> self.view().contains_key(n[p].1) && *(#[trigger] out@[p]) == self.view()[n[p].1],
            decreases n.len() - i,
        {
            let id = self.by_name[i].1;
            assert(self.by_id@.contains_key((n[i as int]).1.0));
            match self.get(&id) {
                Some(v) => out.push(v),
                None => {
                    assert(false);
                },
            }
            i = i + 1;
        }
        proof {
            let sl = slab_series(self.data);
            let ix = self.by_id@;
            assert forall|p: int| 0 <= p < out@.len() implies out@[p].id == n[p].1 && out@[p].title@ == n[p].0@ by {
                assert(ix.contains_key((n[p]).1.0));
                assert(sl[ix[n[p].1.0]].id.0 == n[p].1.0);
            }
            assert forall|id: SeriesId| #[trigger] self.view().contains_key(id) implies exists|p: int|
                0 <= p < out@.len() && out@[p].id == id by {
                let p = choose|p: int| 0 <= p < n.len() && n[p].1.0 == id.0;
                assert(out@[p].id == n[p].1);
            }
            assert forall|a: int, b: int| 0 <= a < b < out@.len() implies name_less(
                (#[trigger] out@[a]).title@,
                out@[a].id,
                (#[trigger] out@[b]).title@,
                out@[b].id,
            ) by {
                assert(name_less(n[a].0@, n[a].1, n[b].0@, n[b].1));
            }
        }
        out
    }

    /// The series to save, sorted by title and then by id.
    pub fn export(&self) -> (r: Vec<&Series>)
        requires
            self.wf(),
        ensures
            forall|i: int|
                0 <= i < r@.len() ==> self.view().contains_key((#[trigger] r@[i]).id) && *r@[i] == self.view()[r@[i].id],
            forall|id: SeriesId| #[trigger]
                self.view().contains_key(id) ==> exists|i: int| 0 <= i < r@.len() && r@[i].id == id,
            forall|i: int, j: int|
                0 <= i < j < r@.len() ==> name_less(
                    (#[trigger] r@[i]).title@,
                    r@[i].id,
                    (#[trigger] r@[j]).title@,
                    r@[j].id,
                ),
    {
        self.iter_by_name()
    }

    proof fn lemma_names_distinct(
        &self,
        n: Seq<(String, SeriesId)>,
        ix: Map<u128, usize>,
        s: Map<usize, Series>,
        a: int,
        b: int,
    )
        requires
            forall|x: int, y: int|
                0 <= x < y < n.len() ==> name_less(#[trigger] n[x].0@, n[x].1, #[trigger] n[y].0@, n[y].1),
            forall|x: int| 0 <= x < n.len() ==> ix.contains_key((#[trigger] n[x]).1.0) && s[ix[n[x].1.0]].title@ == n[x].0@,
            0 <= a < n.len(),
            0 <= b < n.len(),
            n[a].1.0 == n[b].1.0,
        ensures
            a == b,
    {
        assert(s[ix[n[a].1.0]].title@ == n[a].0@);
        assert(s[ix[n[b].1.0]].title@ == n[b].0@);
        assert(n[a].1 == n[b].1);
        lemma_name_order(n[a].0@, n[a].1, n[a].0@, n[a].1, n[a].0@, n[a].1);
        if a < b {
            assert(name_less(n[a].0@, n[a].1, n[b].0@, n[b].1));
        } else if b < a {
            assert(name_less(n[b].0@, n[b].1, n[a].0@, n[a].1));
        }
    }
}

} // verus!
