use vstd::prelude::*;

use crate::remote::RemoteSeriesId;

verus! {

/// Position of a service in the order of remote identifiers.
pub open spec fn service_rank(r: RemoteSeriesId) -> int {
    match r {
        RemoteSeriesId::Tvdb { .. } => 0,
        RemoteSeriesId::Tmdb { .. } => 1,
        RemoteSeriesId::Imdb { .. } => 2,
    }
}

/// Whether byte string `a` sorts before `b`.
pub open spec fn bytes_less(a: Seq<u8>, b: Seq<u8>) -> bool
    decreases a.len(),
{
    if a.len() == 0 {
        b.len() > 0
    } else if b.len() == 0 {
        false
    } else if a[0] != b[0] {
        a[0] < b[0]
    } else {
        bytes_less(a.drop_first(), b.drop_first())
    }
}

/// The order of remote identifiers: by service (thetvdb.com, themoviedb.org,
/// IMDb), then by number or by the bytes of the identifier.
pub open spec fn remote_less(a: RemoteSeriesId, b: RemoteSeriesId) -> bool {
    match (a, b) {
        (RemoteSeriesId::Tvdb { id: x }, RemoteSeriesId::Tvdb { id: y }) => x < y,
        (RemoteSeriesId::Tmdb { id: x }, RemoteSeriesId::Tmdb { id: y }) => x < y,
        (RemoteSeriesId::Imdb { id: x }, RemoteSeriesId::Imdb { id: y }) => bytes_less(x@, y@),
        _ => service_rank(a) < service_rank(b),
    }
}

proof fn lemma_bytes_less_irreflexive(a: Seq<u8>)
    ensures
        !bytes_less(a, a),
    decreases a.len(),
{
    if a.len() > 0 {
        lemma_bytes_less_irreflexive(a.drop_first());
    }
}

proof fn lemma_bytes_less_transitive(a: Seq<u8>, b: Seq<u8>, c: Seq<u8>)
    requires
        bytes_less(a, b),
        bytes_less(b, c),
    ensures
        bytes_less(a, c),
    decreases a.len(),
{
    if a.len() > 0 && b.len() > 0 && c.len() > 0 && a[0] == b[0] && b[0] == c[0] {
        lemma_bytes_less_transitive(a.drop_first(), b.drop_first(), c.drop_first());
    }
}

proof fn lemma_bytes_less_total(a: Seq<u8>, b: Seq<u8>)
    requires
        a != b,
    ensures
        bytes_less(a, b) || bytes_less(b, a),
    decreases a.len(),
{
    if a.len() == 0 || b.len() == 0 {
        if a.len() == 0 && b.len() == 0 {
            assert(a =~= b);
        }
    } else if a[0] == b[0] {
        assert(a.drop_first() != b.drop_first()) by {
            if a.drop_first() == b.drop_first() {
                assert(a.drop_first().len() == b.drop_first().len());
                assert(a.len() == b.len());
                assert forall|i: int| 0 <= i < a.len() implies a[i] == b[i] by {
                    if i > 0 {
                        assert(a[i] == a.drop_first()[i - 1]);
                        assert(b[i] == b.drop_first()[i - 1]);
                    }
                }
                assert(a =~= b);
            }
        }
        lemma_bytes_less_total(a.drop_first(), b.drop_first());
    }
}

/// The order of byte strings is a strict total order.
pub proof fn lemma_bytes_less(a: Seq<u8>, b: Seq<u8>, c: Seq<u8>)
    ensures
        !bytes_less(a, a),
        bytes_less(a, b) && bytes_less(b, c) ==> bytes_less(a, c),
        a != b ==> bytes_less(a, b) || bytes_less(b, a),
{
    lemma_bytes_less_irreflexive(a);
    if bytes_less(a, b) && bytes_less(b, c) {
        lemma_bytes_less_transitive(a, b, c);
    }
    if a != b {
        lemma_bytes_less_total(a, b);
    }
}

/// `remote_less` is a strict total order.
pub proof fn lemma_remote_less_order(a: RemoteSeriesId, b: RemoteSeriesId, c: RemoteSeriesId)
    ensures
        !remote_less(a, a),
        remote_less(a, b) && remote_less(b, c) ==> remote_less(a, c),
        a != b ==> remote_less(a, b) || remote_less(b, a),
{
    match (a, b, c) {
        (RemoteSeriesId::Imdb { id: x }, RemoteSeriesId::Imdb { id: y }, RemoteSeriesId::Imdb {
            id: z,
        }) => {
            lemma_bytes_less(x@, y@, z@);
            if x@ == y@ {
                assert(x.0 =~= y.0);
            }
        },
        (RemoteSeriesId::Imdb { id: x }, RemoteSeriesId::Imdb { id: y }, _) => {
            lemma_bytes_less(x@, y@, x@);
            if x@ == y@ {
                assert(x.0 =~= y.0);
            }
        },
        (RemoteSeriesId::Imdb { id: x }, _, _) => {
            lemma_bytes_less(x@, x@, x@);
        },
        _ => {},
    }
}

fn raw_less(a: &[u8; 16], b: &[u8; 16]) -> (r: bool)
    ensures
        r == bytes_less(a@, b@),
{
    let mut i: usize = 0;
    assert(a@.skip(0) =~= a@);
    assert(b@.skip(0) =~= b@);
    while i < 16
        invariant
            i <= 16,
            a@.len() == 16,
            b@.len() == 16,
            bytes_less(a@, b@) == bytes_less(a@.skip(i as int), b@.skip(i as int)),
        decreases 16 - i,
    {
        let x = a[i];
        let y = b[i];
        assert(a@.skip(i as int).drop_first() =~= a@.skip(i + 1));
        assert(b@.skip(i as int).drop_first() =~= b@.skip(i + 1));
        assert(a@.skip(i as int)[0] == x);
        assert(b@.skip(i as int)[0] == y);
        if x != y {
            return x < y;
        }
        i = i + 1;
    }
    assert(a@.skip(16).len() == 0);
    false
}

/// Whether `a` sorts before `b`.
pub fn remote_before(a: &RemoteSeriesId, b: &RemoteSeriesId) -> (r: bool)
    ensures
        r == remote_less(*a, *b),
{
    match (a, b) {
        (RemoteSeriesId::Tvdb { id: x }, RemoteSeriesId::Tvdb { id: y }) => *x < *y,
        (RemoteSeriesId::Tmdb { id: x }, RemoteSeriesId::Tmdb { id: y }) => *x < *y,
        (RemoteSeriesId::Imdb { id: x }, RemoteSeriesId::Imdb { id: y }) => raw_less(&x.0, &y.0),
        _ => {
            let ra: u8 = match a {
                RemoteSeriesId::Tvdb { .. } => 0,
                RemoteSeriesId::Tmdb { .. } => 1,
                RemoteSeriesId::Imdb { .. } => 2,
            };
            let rb: u8 = match b {
                RemoteSeriesId::Tvdb { .. } => 0,
                RemoteSeriesId::Tmdb { .. } => 1,
                RemoteSeriesId::Imdb { .. } => 2,
            };
            ra < rb
        },
    }
}

/// The keys of `l` are strictly increasing.
pub open spec fn sorted_keys<V>(l: Seq<(RemoteSeriesId, V)>) -> bool {
    forall|i: int, j: int| 0 <= i < j < l.len() ==> remote_less(#[trigger] l[i].0, #[trigger] l[j].0)
}

/// Whether `k` is a key of `l`.
pub open spec fn has_key<V>(l: Seq<(RemoteSeriesId, V)>, k: RemoteSeriesId) -> bool {
    exists|i: int| 0 <= i < l.len() && l[i].0 == k
}

/// A position of key `k` in `l`.
pub open spec fn key_index<V>(l: Seq<(RemoteSeriesId, V)>, k: RemoteSeriesId) -> int {
    choose|i: int| 0 <= i < l.len() && l[i].0 == k
}

/// The pairs of `l` as a map.
pub open spec fn pairs_map<V>(l: Seq<(RemoteSeriesId, V)>) -> Map<RemoteSeriesId, V> {
    Map::new(|k: RemoteSeriesId| has_key(l, k), |k: RemoteSeriesId| l[key_index(l, k)].1)
}

/// In a list with strictly increasing keys, a key sits at one position.
pub proof fn lemma_sorted_unique<V>(l: Seq<(RemoteSeriesId, V)>, i: int, j: int)
    requires
        sorted_keys(l),
        0 <= i < l.len(),
        0 <= j < l.len(),
        l[i].0 == l[j].0,
    ensures
        i == j,
{
    lemma_remote_less_order(l[i].0, l[i].0, l[i].0);
    if i < j {
        assert(remote_less(l[i].0, l[j].0));
    } else if j < i {
        assert(remote_less(l[j].0, l[i].0));
    }
}

/// The map of a sorted list gives, for the key at each position, the value
/// there.
pub proof fn lemma_pairs_map_at<V>(l: Seq<(RemoteSeriesId, V)>, i: int)
    requires
        sorted_keys(l),
        0 <= i < l.len(),
    ensures
        pairs_map(l).contains_key(l[i].0),
        pairs_map(l)[l[i].0] == l[i].1,
{
    let k = l[i].0;
    assert(has_key(l, k));
    lemma_sorted_unique(l, i, key_index(l, k));
}

/// A map from remote identifiers, kept as a list sorted by key.
#[derive(Debug)]
pub struct RemoteMap<V> {
    data: Vec<(RemoteSeriesId, V)>,
}

impl<V> RemoteMap<V> {
    /// The pairs, sorted by key.
    pub closed spec fn entries(&self) -> Seq<(RemoteSeriesId, V)> {
        self.data@
    }

    /// The map the pairs make up.
    pub open spec fn view(&self) -> Map<RemoteSeriesId, V> {
        pairs_map(self.entries())
    }

    /// The invariant: keys strictly increase, so each occurs once.
    pub open spec fn wf(&self) -> bool {
        sorted_keys(self.entries())
    }

    /// An empty map.
    pub fn new() -> (m: Self)
        ensures
            m.wf(),
            m.entries() == Seq::<(RemoteSeriesId, V)>::empty(),
            m@ == Map::<RemoteSeriesId, V>::empty(),
    {
        let m = RemoteMap { data: Vec::new() };
        assert(m@ =~= Map::<RemoteSeriesId, V>::empty());
        m
    }

    /// The number of pairs.
    pub fn len(&self) -> (r: usize)
        ensures
            r == self.entries().len(),
    {
        self.data.len()
    }

    /// The pair at position `i` in key order.
    pub fn entry(&self, i: usize) -> (r: (&RemoteSeriesId, &V))
        requires
            i < self.entries().len(),
        ensures
            *r.0 == self.entries()[i as int].0,
            *r.1 == self.entries()[i as int].1,
    {
        let p = &self.data[i];
        (&p.0, &p.1)
    }

    /// The map of a sorted list: each position's key maps to its value, and
    /// every key of the map sits at some position.
    pub proof fn lemma_view(&self)
        requires
            self.wf(),
        ensures
            forall|i: int|
                0 <= i < self.entries().len() ==> self@.contains_key(#[trigger] self.entries()[i].0)
                    && self@[self.entries()[i].0] == self.entries()[i].1,
            forall|k: RemoteSeriesId| #[trigger]
                self@.contains_key(k) ==> exists|i: int|
                    0 <= i < self.entries().len() && self.entries()[i].0 == k,
    {
        assert forall|i: int| 0 <= i < self.entries().len() implies self@.contains_key(
            #[trigger] self.entries()[i].0,
        ) && self@[self.entries()[i].0] == self.entries()[i].1 by {
            lemma_pairs_map_at(self.entries(), i);
        }
    }

    /// Where `k` is, or where it would go.
    fn position(&self, k: &RemoteSeriesId) -> (r: (usize, bool))
        requires
            self.wf(),
        ensures
            r.0 <= self.entries().len(),
            r.1 ==> r.0 < self.entries().len() && self.entries()[r.0 as int].0 == *k,
            !r.1 ==> !self@.contains_key(*k),
            forall|i: int| 0 <= i < r.0 ==> remote_less(#[trigger] self.entries()[i].0, *k),
            !r.1 ==> forall|i: int|
                r.0 <= i < self.entries().len() ==> remote_less(*k, #[trigger] self.entries()[i].0),
    {
        let mut i: usize = 0;
        while i < self.data.len()
            invariant
                i <= self.data@.len(),
                self.wf(),
                forall|j: int| 0 <= j < i ==> remote_less(#[trigger] self.data@[j].0, *k),
            decreases self.data@.len() - i,
        {
            let c = self.data[i].0;
            if c == *k {
                return (i, true);
            }
            if !remote_before(&c, k) {
                proof {
                    lemma_remote_less_order(*k, c, c);
                    assert forall|j: int| i <= j < self.data@.len() implies remote_less(
                        *k,
                        #[trigger] self.data@[j].0,
                    ) by {
                        if j > i {
                            assert(remote_less(self.data@[i as int].0, self.data@[j].0));
                            lemma_remote_less_order(*k, c, self.data@[j].0);
                        }
                    }
                    if self@.contains_key(*k) {
                        let j = key_index(self.data@, *k);
                        lemma_remote_less_order(*k, *k, *k);
                    }
                }
                return (i, false);
            }
            i = i + 1;
        }
        proof {
            if self@.contains_key(*k) {
                let j = key_index(self.data@, *k);
                lemma_remote_less_order(*k, *k, *k);
            }
        }
        (i, false)
    }

    /// The value of `k`, if any.
    pub fn get(&self, k: &RemoteSeriesId) -> (r: Option<&V>)
        requires
            self.wf(),
        ensures
            match r {
                Some(v) => self@.contains_key(*k) && *v == self@[*k],
                None => !self@.contains_key(*k),
            },
    {
        let (i, found) = self.position(k);
        if found {
            proof {
                lemma_pairs_map_at(self.data@, i as int);
            }
            Some(&self.data[i].1)
        } else {
            None
        }
    }

    /// Whether `k` has a value.
    pub fn contains(&self, k: &RemoteSeriesId) -> (r: bool)
        requires
            self.wf(),
        ensures
            r == self@.contains_key(*k),
    {
        match self.get(k) {
            Some(_) => true,
            None => false,
        }
    }

    /// Set the value of `k` to `v`; returns the value it replaced.
    pub fn insert(&mut self, k: RemoteSeriesId, v: V) -> (r: Option<V>)
        requires
            old(self).wf(),
        ensures
            final(self).wf(),
            final(self)@ == old(self)@.insert(k, v),
            match r {
                Some(o) => old(self)@.contains_key(k) && o == old(self)@[k],
                None => !old(self)@.contains_key(k),
            },
    {
        let ghost m = self@;
        let (i, found) = self.position(&k);
        let mut replaced: Option<V> = None;
        if found {
            proof {
                lemma_pairs_map_at(self.data@, i as int);
            }
            let (_, o) = self.data.remove(i);
            replaced = Some(o);
        }
        self.data.insert(i, (k, v));
        proof {
            let l = self.data@;
            let ol = old(self).data@;
            assert(sorted_keys(l)) by {
                assert forall|a: int, b: int| 0 <= a < b < l.len() implies remote_less(
                    #[trigger] l[a].0,
                    #[trigger] l[b].0,
                ) by {
                    if found {
                        assert(l[a].0 == ol[a].0 || a == i);
                        if a == i {
                            assert(l[b].0 == ol[b].0);
                            assert(remote_less(ol[a].0, ol[b].0));
                        } else if b == i {
                            assert(l[a].0 == ol[a].0);
                            assert(remote_less(ol[a].0, ol[b].0));
                        } else {
                            assert(l[a].0 == ol[a].0 && l[b].0 == ol[b].0);
                        }
                    } else {
                        if a < i && b == i {
                        } else if a == i {
                            assert(l[b].0 == ol[b - 1].0);
                        } else if b < i {
                        } else if a < i {
                            assert(l[b].0 == ol[b - 1].0);
                            lemma_remote_less_order(l[a].0, k, l[b].0);
                        } else {
                            assert(l[a].0 == ol[a - 1].0 && l[b].0 == ol[b - 1].0);
                        }
                    }
                }
            }
            assert forall|q: RemoteSeriesId| #[trigger] self@.contains_key(q) <==> m.insert(k, v).contains_key(q) by {
                if self@.contains_key(q) && q != k {
                    let j = key_index(l, q);
                    if found || j < i {
                        assert(ol[j].0 == q);
                    } else {
                        assert(ol[j - 1].0 == q);
                    }
                }
                if m.contains_key(q) && q != k {
                    let j = key_index(ol, q);
                    if found || j < i {
                        assert(l[j].0 == q);
                    } else {
                        assert(l[j + 1].0 == q);
                    }
                }
                if q == k {
                    assert(l[i as int].0 == q);
                }
            }
            assert forall|q: RemoteSeriesId| #[trigger] self@.contains_key(q) implies self@[q] == m.insert(k, v)[q] by {
                let j = key_index(l, q);
                lemma_pairs_map_at(l, j);
                if q != k {
                    if found || j < i {
                        assert(ol[j] == l[j]);
                        lemma_pairs_map_at(ol, j);
                    } else {
                        assert(ol[j - 1] == l[j]);
                        lemma_pairs_map_at(ol, j - 1);
                    }
                } else {
                    lemma_sorted_unique(l, j, i as int);
                }
            }
            assert(self@ =~= m.insert(k, v));
        }
        replaced
    }

    /// Remove `k`; returns the value it had.
    pub fn remove(&mut self, k: &RemoteSeriesId) -> (r: Option<V>)
        requires
            old(self).wf(),
        ensures
            final(self).wf(),
            final(self)@ == old(self)@.remove(*k),
            match r {
                Some(o) => old(self)@.contains_key(*k) && o == old(self)@[*k],
                None => !old(self)@.contains_key(*k),
            },
    {
        let ghost m = self@;
        let (i, found) = self.position(k);
        if !found {
            assert(m.remove(*k) =~= m);
            return None;
        }
        proof {
            lemma_pairs_map_at(self.data@, i as int);
        }
        let (_, o) = self.data.remove(i);
        proof {
            let l = self.data@;
            let ol = old(self).data@;
            assert(sorted_keys(l)) by {
                assert forall|a: int, b: int| 0 <= a < b < l.len() implies remote_less(
                    #[trigger] l[a].0,
                    #[trigger] l[b].0,
                ) by {
                    if b < i {
                    } else if a < i {
                        assert(l[b] == ol[b + 1]);
                    } else {
                        assert(l[a] == ol[a + 1] && l[b] == ol[b + 1]);
                    }
                }
            }
            assert forall|q: RemoteSeriesId| #[trigger] self@.contains_key(q) <==> m.remove(*k).contains_key(q) by {
                if self@.contains_key(q) {
                    let j = key_index(l, q);
                    if j < i {
                        assert(ol[j].0 == q);
                        if q == *k {
                            lemma_sorted_unique(ol, j, i as int);
                        }
                    } else {
                        assert(ol[j + 1].0 == q);
                        if q == *k {
                            lemma_sorted_unique(ol, j + 1, i as int);
                        }
                    }
                }
                if m.contains_key(q) && q != *k {
                    let j = key_index(ol, q);
                    if j < i {
                        assert(l[j].0 == q);
                    } else {
                        assert(j != i);
                        assert(l[j - 1].0 == q);
                    }
                }
            }
            assert forall|q: RemoteSeriesId| #[trigger] self@.contains_key(q) implies self@[q] == m.remove(*k)[q] by {
                let j = key_index(l, q);
                lemma_pairs_map_at(l, j);
                if j < i {
                    assert(ol[j] == l[j]);
                    lemma_pairs_map_at(ol, j);
                } else {
                    assert(ol[j + 1] == l[j]);
                    lemma_pairs_map_at(ol, j + 1);
                }
            }
            assert(self@ =~= m.remove(*k));
        }
        Some(o)
    }

    /// Remove every pair.
    pub fn clear(&mut self)
        ensures
            final(self).wf(),
            final(self)@ == Map::<RemoteSeriesId, V>::empty(),
            final(self).entries().len() == 0,
    {
        self.data.clear();
        assert(self@ =~= Map::<RemoteSeriesId, V>::empty());
    }
}

} // verus!
