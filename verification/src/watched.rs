use std::collections::HashMap;

use vstd::prelude::*;
use vstd::std_specs::iter::IteratorSpec;

use crate::catalog::Episode;
use crate::ids::{EpisodeId, SeriesId, WatchedId};
use crate::season::SeasonNumber;
use crate::text::{decimal_text, push_decimal, push_str};
use crate::time::Timestamp;

verus! {

broadcast use {vstd::std_specs::hash::group_hash_axioms, vstd::seq_lib::group_seq_properties};

/// What was watched.
#[derive(Clone, Copy, PartialEq, Eq, Structural, Debug)]
pub enum WatchedKind {
    /// An episode of a series.
    Series { series: SeriesId, episode: EpisodeId },
}

/// A record of something having been watched.
#[derive(Clone, Copy, PartialEq, Eq, Structural, Debug)]
pub struct Watched {
    /// Unique identifier for this watch.
    pub id: WatchedId,
    /// When it was watched.
    pub timestamp: Timestamp,
    /// What was watched.
    pub kind: WatchedKind,
}

pub open spec fn series_of(w: Watched) -> u128 {
    match w.kind {
        WatchedKind::Series { series, .. } => series.0,
    }
}

pub open spec fn episode_of(w: Watched) -> u128 {
    match w.kind {
        WatchedKind::Series { episode, .. } => episode.0,
    }
}

/// The identifiers other than `id`, in order.
pub open spec fn without_id(l: Seq<WatchedId>, id: WatchedId) -> Seq<WatchedId> {
    l.filter(|x: WatchedId| x != id)
}

/// An index entry without `id`; the entry goes when nothing is left in it.
pub open spec fn cleared(m: Map<u128, Seq<WatchedId>>, k: u128, id: WatchedId) -> Map<
    u128,
    Seq<WatchedId>,
> {
    if m.contains_key(k) {
        let l = without_id(m[k], id);
        if l.len() == 0 {
            m.remove(k)
        } else {
            m.insert(k, l)
        }
    } else {
        m
    }
}

/// An index entry with `id` appended.
pub open spec fn appended(m: Map<u128, Seq<WatchedId>>, k: u128, id: WatchedId) -> Map<
    u128,
    Seq<WatchedId>,
> {
    m.insert(
        k,
        if m.contains_key(k) {
            m[k].push(id)
        } else {
            seq![id]
        },
    )
}

/// The watch history as seen by its contracts: watches by identifier, and
/// the identifiers of the watches of each episode and of each series, in
/// the order they were recorded (keys are the 128 bits of the identifiers).
pub struct WatchedModel {
    pub data: Map<WatchedId, Watched>,
    pub by_episode: Map<u128, Seq<WatchedId>>,
    pub by_series: Map<u128, Seq<WatchedId>>,
}

/// The history after `w` is recorded, replacing any watch with its
/// identifier.
pub open spec fn inserted(m: WatchedModel, w: Watched) -> WatchedModel {
    let (e0, s0) = if m.data.contains_key(w.id) {
        let o = m.data[w.id];
        (cleared(m.by_episode, episode_of(o), o.id), cleared(m.by_series, series_of(o), o.id))
    } else {
        (m.by_episode, m.by_series)
    };
    WatchedModel {
        data: m.data.insert(w.id, w),
        by_episode: appended(e0, episode_of(w), w.id),
        by_series: appended(s0, series_of(w), w.id),
    }
}

/// Watch history.
pub struct WatchedDatabase {
    data: HashMap<u128, Watched>,
    by_episode: HashMap<u128, Vec<WatchedId>>,
    by_series: HashMap<u128, Vec<WatchedId>>,
}

/// Every identifier in an index names a recorded watch that belongs there,
/// and no list is empty or names a watch twice.
pub open spec fn index_sound(
    data: Map<WatchedId, Watched>,
    index: Map<u128, Seq<WatchedId>>,
    key_of: spec_fn(Watched) -> u128,
) -> bool {
    forall|k: u128|
        #![trigger index[k]]
        index.contains_key(k) ==> {
            &&& index[k].len() > 0
            &&& index[k].no_duplicates()
            &&& forall|i: int|
                0 <= i < index[k].len() ==> data.contains_key(#[trigger] index[k][i])
                    && key_of(data[index[k][i]]) == k
        }
}

/// Every recorded watch is listed under its series.
pub open spec fn series_complete(m: WatchedModel) -> bool {
    forall|id: WatchedId| #[trigger]
        m.data.contains_key(id) ==> m.by_series.contains_key(series_of(m.data[id]))
            && m.by_series[series_of(m.data[id])].contains(id)
}

/// The invariant of the watch history.
pub open spec fn watched_wf(m: WatchedModel) -> bool {
    &&& index_sound(m.data, m.by_episode, |w: Watched| episode_of(w))
    &&& index_sound(m.data, m.by_series, |w: Watched| series_of(w))
    &&& series_complete(m)
    &&& forall|id: WatchedId| #[trigger] m.data.contains_key(id) ==> m.data[id].id == id
}

/// An index with its lists seen as sequences.
pub open spec fn index_view(m: HashMap<u128, Vec<WatchedId>>) -> Map<u128, Seq<WatchedId>> {
    Map::new(|k: u128| m@.contains_key(k), |k: u128| m@[k]@)
}

fn index_remove(index: &mut HashMap<u128, Vec<WatchedId>>, k: u128, id: WatchedId)
    ensures
        index_view(*final(index)) == cleared(index_view(*old(index)), k, id),
{
    let ghost before = index_view(*index);
    match index.remove(&k) {
        None => {
            assert(!before.contains_key(k));
            assert(index_view(*index) =~= before);
        },
        Some(list) => {
            let ghost l = list@;
            let mut kept: Vec<WatchedId> = Vec::new();
            let mut i: usize = 0;
            while i < list.len()
                invariant
                    l == list@,
                    i <= l.len(),
                    kept@ == without_id(l.take(i as int), id),
                decreases l.len() - i,
            {
                let x = list[i];
                proof {
                    reveal_with_fuel(Seq::filter, 1);
                    assert(l.take(i + 1).drop_last() =~= l.take(i as int));
                }
                if x != id {
                    kept.push(x);
                }
                i = i + 1;
            }
            assert(l.take(l.len() as int) =~= l);
            assert(before.contains_key(k));
            assert(before[k] == l);
            if kept.len() > 0 {
                index.insert(k, kept);
                assert(index_view(*index) =~= before.insert(k, without_id(l, id)));
            } else {
                assert(index_view(*index) =~= before.remove(k));
            }
        },
    }
}

fn index_push(index: &mut HashMap<u128, Vec<WatchedId>>, k: u128, id: WatchedId)
    ensures
        index_view(*final(index)) == appended(index_view(*old(index)), k, id),
{
    let mut list = match index.remove(&k) {
        Some(list) => list,
        None => Vec::new(),
    };
    list.push(id);
    index.insert(k, list);
    assert(index_view(*index) =~= appended(index_view(*old(index)), k, id));
}

impl WatchedDatabase {
    /// The history's contents.
    pub closed spec fn view(&self) -> WatchedModel {
        WatchedModel {
            data: Map::new(|id: WatchedId| self.data@.contains_key(id.0), |id: WatchedId| self.data@[id.0]),
            by_episode: index_view(self.by_episode),
            by_series: index_view(self.by_series),
        }
    }

    /// An empty history.
    pub fn new() -> (db: WatchedDatabase)
        ensures
            db.view().data == Map::<WatchedId, Watched>::empty(),
            db.view().by_episode == Map::<u128, Seq<WatchedId>>::empty(),
            db.view().by_series == Map::<u128, Seq<WatchedId>>::empty(),
            watched_wf(db.view()),
    {
        let db = WatchedDatabase {
            data: HashMap::new(),
            by_episode: HashMap::new(),
            by_series: HashMap::new(),
        };
        assert(db.view().data =~= Map::<WatchedId, Watched>::empty());
        assert(db.view().by_episode =~= Map::<u128, Seq<WatchedId>>::empty());
        assert(db.view().by_series =~= Map::<u128, Seq<WatchedId>>::empty());
        db
    }

    /// Record a watch; one with the same identifier is replaced.
    pub fn insert(&mut self, w: Watched)
        ensures
            final(self).view() == inserted(old(self).view(), w),
    {
        let ghost m = self.view();
        let old_entry = self.data.insert(w.id.0, w);
        if let Some(o) = old_entry {
            match o.kind {
                WatchedKind::Series { series, episode } => {
                    index_remove(&mut self.by_series, series.0, o.id);
                    index_remove(&mut self.by_episode, episode.0, o.id);
                },
            }
        }
        let ghost e1 = index_view(self.by_episode);
        let ghost s1 = index_view(self.by_series);
        match w.kind {
            WatchedKind::Series { series, episode } => {
                index_push(&mut self.by_episode, episode.0, w.id);
                index_push(&mut self.by_series, series.0, w.id);
            },
        }
        proof {
            assert(self.view().data =~= m.data.insert(w.id, w)) by {
                assert forall|id: WatchedId| #[trigger] self.view().data.contains_key(id) <==> m.data.insert(w.id, w).contains_key(id) by {
                    if id.0 == w.id.0 {
                        assert(id == w.id);
                    }
                }
                assert forall|id: WatchedId| #[trigger] self.view().data.contains_key(id) implies self.view().data[id] == m.data.insert(w.id, w)[id] by {
                    if id.0 == w.id.0 {
                        assert(id == w.id);
                    }
                }
            }
            if old_entry is Some {
                let o = old_entry.unwrap();
                assert(m.data.contains_key(w.id));
                assert(m.data[w.id] == o);
                assert(e1 == cleared(m.by_episode, episode_of(o), o.id));
                assert(s1 == cleared(m.by_series, series_of(o), o.id));
            } else {
                assert(!m.data.contains_key(w.id));
                assert(e1 == m.by_episode);
                assert(s1 == m.by_series);
            }
            let t = inserted(m, w);
            assert(self.view().by_episode =~= t.by_episode);
            assert(self.view().by_series =~= t.by_series);
        }
    }

    /// Remove a single watch by identifier, with its index entries.
    pub fn remove_watch(&mut self, id: &WatchedId) -> (r: Option<Watched>)
        ensures
            r == (if old(self).view().data.contains_key(*id) {
                Some(old(self).view().data[*id])
            } else {
                None
            }),
            final(self).view() == removed_watch(old(self).view(), *id),
    {
        let ghost m = self.view();
        let w = match self.data.remove(&id.0) {
            Some(w) => w,
            None => {
                assert(!m.data.contains_key(*id));
                assert(self.view().data =~= m.data);
                return None;
            },
        };
        assert(m.data.contains_key(*id) && m.data[*id] == w);
        match w.kind {
            WatchedKind::Series { series, episode } => {
                index_remove(&mut self.by_series, series.0, w.id);
                index_remove(&mut self.by_episode, episode.0, w.id);
            },
        }
        proof {
            assert forall|k: WatchedId| #[trigger] self.view().data.contains_key(k) <==> m.data.remove(*id).contains_key(k) by {
                if k.0 == id.0 {
                    assert(k == *id);
                }
            }
            assert(self.view().data =~= m.data.remove(*id));
        }
        Some(w)
    }

    /// Remove every watch of an episode, with its index entries; returns how
    /// many identifiers the episode's index held.
    pub fn remove_by_episode(&mut self, episode_id: &EpisodeId) -> (r: usize)
        ensures
            old(self).view().by_episode.contains_key(episode_id.0) ==> forall|id: WatchedId|
                #[trigger] final(self).view().data.contains_key(id) <==> (old(self).view().data.contains_key(id)
                    && !old(self).view().by_episode[episode_id.0].contains(id)),
            forall|id: WatchedId| #[trigger]
                final(self).view().data.contains_key(id) ==> old(self).view().data.contains_key(id)
                    && final(self).view().data[id] == old(self).view().data[id],
            watched_wf(old(self).view()) ==> watched_wf(final(self).view()),
            episode_listed(old(self).view(), episode_id.0) ==> forall|id: WatchedId| #[trigger]
                final(self).view().data.contains_key(id) ==> episode_of(final(self).view().data[id]) != episode_id.0,
            old(self).view().by_episode.contains_key(episode_id.0) ==> {
                &&& r == old(self).view().by_episode[episode_id.0].len()
                &&& final(self).view() == drop_episode_watches(
                    WatchedModel {
                        by_episode: old(self).view().by_episode.remove(episode_id.0),
                        ..old(self).view()
                    },
                    old(self).view().by_episode[episode_id.0],
                )
            },
            !old(self).view().by_episode.contains_key(episode_id.0) ==> r == 0 && final(self).view()
                == old(self).view(),
    {
        let ghost m = self.view();
        let removed = match self.by_episode.remove(&episode_id.0) {
            Some(l) => l,
            None => {
                assert(self.view().by_episode =~= m.by_episode);
                return 0;
            },
        };
        let ghost start = WatchedModel { by_episode: m.by_episode.remove(episode_id.0), ..m };
        assert(self.view().by_episode =~= start.by_episode);
        assert(removed@ == m.by_episode[episode_id.0]);
        let mut i: usize = 0;
        while i < removed.len()
            invariant
                i <= removed@.len(),
                self.view() == drop_episode_watches(start, removed@.take(i as int)),
            decreases removed@.len() - i,
        {
            let id = removed[i];
            let ghost before = self.view();
            assert(removed@.take(i + 1).drop_last() =~= removed@.take(i as int));
            match self.data.remove(&id.0) {
                Some(w) => {
                    proof {
                        assert(before.data.contains_key(id) && before.data[id] == w);
                    }
                    match w.kind {
                        WatchedKind::Series { series, .. } => {
                            index_remove(&mut self.by_series, series.0, w.id);
                        },
                    }
                    proof {
                        assert forall|k: WatchedId| #[trigger] self.view().data.contains_key(k) <==> before.data.remove(id).contains_key(k) by {
                            if k.0 == id.0 {
                                assert(k == id);
                            }
                        }
                        assert(self.view().data =~= before.data.remove(id));
                    }
                },
                None => {
                    proof {
                        assert(!before.data.contains_key(id));
                        assert(self.view().data =~= before.data);
                    }
                },
            }
            i = i + 1;
        }
        assert(removed@.take(removed@.len() as int) =~= removed@);
        proof {
            lemma_remove_episode_watches(m, episode_id.0);
        }
        removed.len()
    }

    /// Remove every watch of a series, with the index entries of its series
    /// and of its episodes.
    pub fn remove_by_series(&mut self, series_id: &SeriesId)
        ensures
            old(self).view().by_series.contains_key(series_id.0) ==> final(self).view()
                == drop_series_watches(
                WatchedModel {
                    by_series: old(self).view().by_series.remove(series_id.0),
                    ..old(self).view()
                },
                old(self).view().by_series[series_id.0],
            ),
            !old(self).view().by_series.contains_key(series_id.0) ==> final(self).view()
                == old(self).view(),
    {
        let ghost m = self.view();
        let indexes = match self.by_series.remove(&series_id.0) {
            Some(l) => l,
            None => {
                assert(self.view().by_series =~= m.by_series);
                return ;
            },
        };
        let ghost start = WatchedModel { by_series: m.by_series.remove(series_id.0), ..m };
        assert(self.view().by_series =~= start.by_series);
        let mut i: usize = 0;
        while i < indexes.len()
            invariant
                i <= indexes@.len(),
                self.view() == drop_series_watches(start, indexes@.take(i as int)),
            decreases indexes@.len() - i,
        {
            let id = indexes[i];
            let ghost before = self.view();
            assert(indexes@.take(i + 1).drop_last() =~= indexes@.take(i as int));
            match self.data.remove(&id.0) {
                Some(w) => {
                    proof {
                        assert(before.data.contains_key(id) && before.data[id] == w);
                    }
                    match w.kind {
                        WatchedKind::Series { episode, .. } => {
                            let _ = self.by_episode.remove(&episode.0);
                        },
                    }
                    proof {
                        assert forall|k: WatchedId| #[trigger] self.view().data.contains_key(k) <==> before.data.remove(id).contains_key(k) by {
                            if k.0 == id.0 {
                                assert(k == id);
                            }
                        }
                        assert(self.view().data =~= before.data.remove(id));
                        assert(self.view().by_episode =~= before.by_episode.remove(episode_of(w)));
                    }
                },
                None => {
                    proof {
                        assert(!before.data.contains_key(id));
                        assert(self.view().data =~= before.data);
                    }
                },
            }
            i = i + 1;
        }
        assert(indexes@.take(indexes@.len() as int) =~= indexes@);
    }

    /// The watches listed for a key of an index, in the order they were
    /// recorded; the listing stops at an identifier with no recorded watch.
    fn listed(&self, list: &Vec<WatchedId>) -> (r: Vec<Watched>)
        ensures
            r@ == lookup_until_missing(self.view().data, list@),
    {
        let mut out: Vec<Watched> = Vec::new();
        let mut i: usize = 0;
        while i < list.len()
            invariant
                i <= list@.len(),
                lookup_until_missing(self.view().data, list@) == out@ + lookup_until_missing(
                    self.view().data,
                    list@.skip(i as int),
                ),
            decreases list@.len() - i,
        {
            let id = list[i];
            assert(list@.skip(i as int).drop_first() =~= list@.skip(i + 1));
            assert(list@.skip(i as int)[0] == id);
            match self.data.get(&id.0) {
                Some(w) => {
                    out.push(*w);
                    assert(self.view().data.contains_key(id));
                },
                None => {
                    assert(!self.view().data.contains_key(id));
                    assert(out@ + Seq::<Watched>::empty() =~= out@);
                    return out;
                },
            }
            i = i + 1;
        }
        assert(list@.skip(i as int) =~= Seq::<WatchedId>::empty());
        assert(out@ + Seq::<Watched>::empty() =~= out@);
        out
    }

    /// Get all watches for the given episode, in the order they were
    /// recorded.
    pub fn by_episode(&self, id: &EpisodeId) -> (r: Vec<Watched>)
        ensures
            r@ == (if self.view().by_episode.contains_key(id.0) {
                lookup_until_missing(self.view().data, self.view().by_episode[id.0])
            } else {
                Seq::empty()
            }),
    {
        match self.by_episode.get(&id.0) {
            Some(list) => self.listed(list),
            None => Vec::new(),
        }
    }

    /// Get all watches for the given series, in the order they were
    /// recorded.
    pub fn by_series(&self, id: &SeriesId) -> (r: Vec<Watched>)
        ensures
            r@ == (if self.view().by_series.contains_key(id.0) {
                lookup_until_missing(self.view().data, self.view().by_series[id.0])
            } else {
                Seq::empty()
            }),
    {
        match self.by_series.get(&id.0) {
            Some(list) => self.listed(list),
            None => Vec::new(),
        }
    }
}

/// The history without the watch `id` and its index entries.
pub open spec fn removed_watch(m: WatchedModel, id: WatchedId) -> WatchedModel {
    if m.data.contains_key(id) {
        let w = m.data[id];
        WatchedModel {
            data: m.data.remove(id),
            by_episode: cleared(m.by_episode, episode_of(w), w.id),
            by_series: cleared(m.by_series, series_of(w), w.id),
        }
    } else {
        m
    }
}

/// The history after the watches `ids` of an episode are dropped in turn,
/// each from the data and from its series' index.
pub open spec fn drop_episode_watches(m: WatchedModel, ids: Seq<WatchedId>) -> WatchedModel
    decreases ids.len(),
{
    if ids.len() == 0 {
        m
    } else {
        let p = drop_episode_watches(m, ids.drop_last());
        let id = ids.last();
        if p.data.contains_key(id) {
            let w = p.data[id];
            WatchedModel {
                data: p.data.remove(id),
                by_series: cleared(p.by_series, series_of(w), w.id),
                ..p
            }
        } else {
            p
        }
    }
}

/// The history after the watches `ids` of a series are dropped in turn,
/// each from the data, with the whole index entry of its episode.
pub open spec fn drop_series_watches(m: WatchedModel, ids: Seq<WatchedId>) -> WatchedModel
    decreases ids.len(),
{
    if ids.len() == 0 {
        m
    } else {
        let p = drop_series_watches(m, ids.drop_last());
        let id = ids.last();
        if p.data.contains_key(id) {
            let w = p.data[id];
            WatchedModel {
                data: p.data.remove(id),
                by_episode: p.by_episode.remove(episode_of(w)),
                ..p
            }
        } else {
            p
        }
    }
}

/// The watches named by `ids`, in order, up to the first one not recorded.
pub open spec fn lookup_until_missing(data: Map<WatchedId, Watched>, ids: Seq<WatchedId>) -> Seq<
    Watched,
>
    decreases ids.len(),
{
    if ids.len() == 0 {
        Seq::empty()
    } else if data.contains_key(ids[0]) {
        seq![data[ids[0]]] + lookup_until_missing(data, ids.drop_first())
    } else {
        Seq::empty()
    }
}

} // verus!

verus! {

proof fn lemma_without_id(l: Seq<WatchedId>, id: WatchedId)
    ensures
        forall|x: WatchedId| #[trigger]
            without_id(l, id).contains(x) <==> (l.contains(x) && x != id),
        l.no_duplicates() ==> without_id(l, id).no_duplicates(),
    decreases l.len(),
{
    reveal_with_fuel(Seq::filter, 1);
    if l.len() > 0 {
        let p = l.drop_last();
        lemma_without_id(p, id);
        assert(l =~= p.push(l.last()));
        assert forall|x: WatchedId| #[trigger]
            without_id(l, id).contains(x) <==> (l.contains(x) && x != id) by {
            if l.contains(x) && x != id {
                let i = choose|i: int| 0 <= i < l.len() && l[i] == x;
                if i < l.len() - 1 {
                    assert(p[i] == x);
                    assert(p.contains(x));
                }
            }
            if without_id(l, id).contains(x) {
                if l.last() != id && x == l.last() {
                } else {
                    assert(without_id(p, id).contains(x));
                    let i = choose|i: int| 0 <= i < p.len() && p[i] == x;
                    assert(l[i] == x);
                }
            }
        }
        if l.no_duplicates() {
            assert(p.no_duplicates());
            if l.last() != id {
                assert(!p.contains(l.last()));
                assert(!without_id(p, id).contains(l.last()));
            }
        }
    } else {
        assert(without_id(l, id) =~= l);
    }
}

proof fn lemma_cleared_sound(
    data: Map<WatchedId, Watched>,
    index: Map<u128, Seq<WatchedId>>,
    key_of: spec_fn(Watched) -> u128,
    k: u128,
    id: WatchedId,
)
    requires
        index_sound(data, index, key_of),
    ensures
        index_sound(data, cleared(index, k, id), key_of),
        forall|j: u128, x: WatchedId|
            #![trigger cleared(index, k, id)[j].contains(x)]
            cleared(index, k, id).contains_key(j) && cleared(index, k, id)[j].contains(x) ==> index.contains_key(j)
                && index[j].contains(x) && (j == k ==> x != id),
        forall|j: u128, x: WatchedId|
            #![trigger index[j].contains(x)]
            index.contains_key(j) && index[j].contains(x) && (j == k ==> x != id) ==> cleared(
                index,
                k,
                id,
            ).contains_key(j) && cleared(index, k, id)[j].contains(x),
{
    if index.contains_key(k) {
        lemma_without_id(index[k], id);
        let l = without_id(index[k], id);
        let c = cleared(index, k, id);
        assert forall|j: u128| #![trigger c[j]] c.contains_key(j) implies {
            &&& c[j].len() > 0
            &&& c[j].no_duplicates()
            &&& forall|i: int|
                0 <= i < c[j].len() ==> data.contains_key(#[trigger] c[j][i]) && key_of(data[c[j][i]]) == j
        } by {
            if j == k {
                assert forall|i: int| 0 <= i < c[j].len() implies data.contains_key(#[trigger] c[j][i]) && key_of(data[c[j][i]]) == j by {
                    assert(l.contains(l[i]));
                    assert(index[k].contains(l[i]));
                    let q = choose|q: int| 0 <= q < index[k].len() && index[k][q] == l[i];
                    assert(data.contains_key(index[k][q]));
                }
            }
        }
        assert forall|j: u128, x: WatchedId|
            #![trigger index[j].contains(x)]
            index.contains_key(j) && index[j].contains(x) && (j == k ==> x != id) implies c.contains_key(j) && c[j].contains(x) by {
            if j == k {
                assert(l.contains(x));
                assert(l.len() > 0);
            }
        }
    }
}

/// Recording a watch keeps the watch history's invariant: every index
/// entry names recorded watches that belong under it, without repeats, and
/// every watch is listed under its series.
pub proof fn lemma_insert_keeps_wf(m: WatchedModel, w: Watched)
    requires
        watched_wf(m),
    ensures
        watched_wf(inserted(m, w)),
{
    let ep = |x: Watched| episode_of(x);
    let se = |x: Watched| series_of(x);
    let (e0, s0) = if m.data.contains_key(w.id) {
        let o = m.data[w.id];
        lemma_cleared_sound(m.data, m.by_episode, ep, episode_of(o), o.id);
        lemma_cleared_sound(m.data, m.by_series, se, series_of(o), o.id);
        (cleared(m.by_episode, episode_of(o), o.id), cleared(m.by_series, series_of(o), o.id))
    } else {
        (m.by_episode, m.by_series)
    };
    let t = inserted(m, w);
    let data = m.data.insert(w.id, w);
    // No entry left in the cleared indexes names `w.id`.
    assert forall|j: u128| #![trigger e0[j]] e0.contains_key(j) implies !e0[j].contains(w.id) by {
        if e0[j].contains(w.id) {
            let i = choose|i: int| 0 <= i < e0[j].len() && e0[j][i] == w.id;
            assert(m.data.contains_key(e0[j][i]));
        }
    }
    assert forall|j: u128| #![trigger s0[j]] s0.contains_key(j) implies !s0[j].contains(w.id) by {
        if s0[j].contains(w.id) {
            let i = choose|i: int| 0 <= i < s0[j].len() && s0[j][i] == w.id;
            assert(m.data.contains_key(s0[j][i]));
        }
    }
    assert(index_sound(data, t.by_episode, ep)) by {
        assert forall|k: u128| #![trigger t.by_episode[k]] t.by_episode.contains_key(k) implies {
            &&& t.by_episode[k].len() > 0
            &&& t.by_episode[k].no_duplicates()
            &&& forall|i: int|
                0 <= i < t.by_episode[k].len() ==> data.contains_key(#[trigger] t.by_episode[k][i])
                    && ep(data[t.by_episode[k][i]]) == k
        } by {
            if k == episode_of(w) && e0.contains_key(k) {
                assert(!e0[k].contains(w.id));
            }
            assert forall|i: int| 0 <= i < t.by_episode[k].len() implies data.contains_key(#[trigger] t.by_episode[k][i])
                && ep(data[t.by_episode[k][i]]) == k by {
                let x = t.by_episode[k][i];
                if x != w.id {
                    assert(e0.contains_key(k) && e0[k][i] == x);
                    assert(!e0[k].contains(w.id));
                }
            }
        }
    }
    assert(index_sound(data, t.by_series, se)) by {
        assert forall|k: u128| #![trigger t.by_series[k]] t.by_series.contains_key(k) implies {
            &&& t.by_series[k].len() > 0
            &&& t.by_series[k].no_duplicates()
            &&& forall|i: int|
                0 <= i < t.by_series[k].len() ==> data.contains_key(#[trigger] t.by_series[k][i])
                    && se(data[t.by_series[k][i]]) == k
        } by {
            if k == series_of(w) && s0.contains_key(k) {
                assert(!s0[k].contains(w.id));
            }
            assert forall|i: int| 0 <= i < t.by_series[k].len() implies data.contains_key(#[trigger] t.by_series[k][i])
                && se(data[t.by_series[k][i]]) == k by {
                let x = t.by_series[k][i];
                if x != w.id {
                    assert(s0.contains_key(k) && s0[k][i] == x);
                    assert(!s0[k].contains(w.id));
                }
            }
        }
    }
    assert(series_complete(t)) by {
        assert forall|id: WatchedId| #[trigger] t.data.contains_key(id) implies t.by_series.contains_key(series_of(t.data[id]))
            && t.by_series[series_of(t.data[id])].contains(id) by {
            if id == w.id {
                let l = t.by_series[series_of(w)];
                assert(l.last() == w.id);
                assert(l[l.len() - 1] == w.id);
            } else {
                let s = series_of(m.data[id]);
                assert(m.by_series.contains_key(s) && m.by_series[s].contains(id));
                assert(s0.contains_key(s) && s0[s].contains(id)) by {
                    if m.data.contains_key(w.id) {
                        let o = m.data[w.id];
                        assert(m.by_series[s].contains(id) && (s == series_of(o) ==> id != o.id));
                    }
                }
                if s == series_of(w) {
                    let q = choose|q: int| 0 <= q < s0[s].len() && s0[s][q] == id;
                    assert(t.by_series[s][q] == id);
                }
            }
        }
    }
}

} // verus!

verus! {

/// Removing a watch keeps the watch history's invariant.
pub proof fn lemma_remove_watch_keeps_wf(m: WatchedModel, id: WatchedId)
    requires
        watched_wf(m),
    ensures
        watched_wf(removed_watch(m, id)),
{
    if m.data.contains_key(id) {
        let w = m.data[id];
        let ep = |x: Watched| episode_of(x);
        let se = |x: Watched| series_of(x);
        lemma_cleared_sound(m.data, m.by_episode, ep, episode_of(w), w.id);
        lemma_cleared_sound(m.data, m.by_series, se, series_of(w), w.id);
        let t = removed_watch(m, id);
        assert(index_sound(t.data, t.by_episode, ep)) by {
            assert forall|k: u128| #![trigger t.by_episode[k]] t.by_episode.contains_key(k) implies
                forall|i: int|
                    0 <= i < t.by_episode[k].len() ==> t.data.contains_key(#[trigger] t.by_episode[k][i])
                        && ep(t.data[t.by_episode[k][i]]) == k by {
                assert forall|i: int| 0 <= i < t.by_episode[k].len() implies t.data.contains_key(#[trigger] t.by_episode[k][i])
                    && ep(t.data[t.by_episode[k][i]]) == k by {
                    let x = t.by_episode[k][i];
                    assert(t.by_episode[k].contains(x));
                    assert(m.by_episode.contains_key(k) && m.by_episode[k].contains(x));
                    let q = choose|q: int| 0 <= q < m.by_episode[k].len() && m.by_episode[k][q] == x;
                    assert(m.data.contains_key(m.by_episode[k][q]));
                }
            }
        }
        assert(index_sound(t.data, t.by_series, se)) by {
            assert forall|k: u128| #![trigger t.by_series[k]] t.by_series.contains_key(k) implies
                forall|i: int|
                    0 <= i < t.by_series[k].len() ==> t.data.contains_key(#[trigger] t.by_series[k][i])
                        && se(t.data[t.by_series[k][i]]) == k by {
                assert forall|i: int| 0 <= i < t.by_series[k].len() implies t.data.contains_key(#[trigger] t.by_series[k][i])
                    && se(t.data[t.by_series[k][i]]) == k by {
                    let x = t.by_series[k][i];
                    assert(t.by_series[k].contains(x));
                    assert(m.by_series.contains_key(k) && m.by_series[k].contains(x));
                    let q = choose|q: int| 0 <= q < m.by_series[k].len() && m.by_series[k][q] == x;
                    assert(m.data.contains_key(m.by_series[k][q]));
                }
            }
        }
        assert(series_complete(t)) by {
            assert forall|x: WatchedId| #[trigger] t.data.contains_key(x) implies t.by_series.contains_key(series_of(t.data[x]))
                && t.by_series[series_of(t.data[x])].contains(x) by {
                let s = series_of(m.data[x]);
                assert(m.by_series.contains_key(s) && m.by_series[s].contains(x));
            }
        }
    }
}

/// The history after recording each watch in order.
pub open spec fn inserted_all(m: WatchedModel, l: Seq<Watched>) -> WatchedModel
    decreases l.len(),
{
    if l.len() == 0 {
        m
    } else {
        inserted(inserted_all(m, l.drop_last()), l.last())
    }
}

impl WatchedDatabase {
    /// Record each watch in order.
    pub fn import(&mut self, watched: Vec<Watched>)
        ensures
            final(self).view() == inserted_all(old(self).view(), watched@),
    {
        let mut i: usize = 0;
        assert(watched@.take(0) =~= Seq::<Watched>::empty());
        while i < watched.len()
            invariant
                i <= watched@.len(),
                self.view() == inserted_all(old(self).view(), watched@.take(i as int)),
            decreases watched@.len() - i,
        {
            proof {
                assert(watched@.take(i + 1).drop_last() =~= watched@.take(i as int));
            }
            self.insert(watched[i]);
            i = i + 1;
        }
        assert(watched@.take(i as int) =~= watched@);
    }
}

/// Where in a series a watch was: the season and number of the episode.
#[derive(Clone, Copy, PartialEq, Eq, Structural, Debug)]
pub enum Place {
    Episode(SeasonNumber, u32),
}

impl Place {
    /// `SxN`: the short season title, `x`, and the episode number.
    pub fn to_string(&self) -> (s: String)
        ensures
            s@ == match *self {
                Place::Episode(season, number) => (match season {
                    SeasonNumber::Specials => "S"@,
                    SeasonNumber::Number(n) => decimal_text(n as nat),
                }) + "x"@ + decimal_text(number as nat),
            },
    {
        match self {
            Place::Episode(season, number) => {
                let mut s = season.short();
                push_str(&mut s, "x");
                push_decimal(&mut s, *number as u64);
                s
            },
        }
    }
}

/// A watch as exported, with its place.
#[derive(Clone, Copy, Debug)]
pub struct WatchedExport {
    pub place: Place,
    pub watched: Watched,
}

/// The season and number of the first episode of `l` with id `e`, or the
/// specials season and number zero when there is none.
pub open spec fn place_in(l: Seq<Episode>, e: u128) -> Place
    decreases l.len(),
{
    if l.len() == 0 {
        Place::Episode(SeasonNumber::Specials, 0)
    } else if l[0].id.0 == e {
        Place::Episode(l[0].season, l[0].number)
    } else {
        place_in(l.drop_first(), e)
    }
}

/// The place of an episode in a list is the season and number of the first episode of the list
/// with its id.
pub proof fn lemma_place_in_first(l: Seq<Episode>, e: u128, k: int)
    requires
        0 <= k < l.len(),
        l[k].id.0 == e,
        forall|j: int| 0 <= j < k ==> (#[trigger] l[j]).id.0 != e,
    ensures
        place_in(l, e) == Place::Episode(l[k].season, l[k].number),
    decreases k,
{
    if k > 0 {
        assert(l[0].id.0 != e);
        assert forall|j: int| 0 <= j < k - 1 implies (#[trigger] l.drop_first()[j]).id.0 != e by {
            assert(l.drop_first()[j] == l[j + 1]);
        }
        lemma_place_in_first(l.drop_first(), e, k - 1);
    }
}

/// An episode that no episode of a list has the id of stands in the specials with number zero.
pub proof fn lemma_place_in_missing(l: Seq<Episode>, e: u128)
    requires
        forall|j: int| 0 <= j < l.len() ==> (#[trigger] l[j]).id.0 != e,
    ensures
        place_in(l, e) == Place::Episode(SeasonNumber::Specials, 0),
    decreases l.len(),
{
    if l.len() > 0 {
        assert(l[0].id.0 != e);
        assert forall|j: int| 0 <= j < l.len() - 1 implies (#[trigger] l.drop_first()[j]).id.0 != e by {
            assert(l.drop_first()[j] == l[j + 1]);
        }
        lemma_place_in_missing(l.drop_first(), e);
    }
}

/// The place of a watch among the episodes of its series.
pub open spec fn place_of(episodes: Map<u128, Vec<Episode>>, w: Watched) -> Place {
    if episodes.contains_key(series_of(w)) {
        place_in(episodes[series_of(w)]@, episode_of(w))
    } else {
        Place::Episode(SeasonNumber::Specials, 0)
    }
}

/// The order of exported watches: by time, then season (specials first),
/// then episode number, then id.
pub open spec fn export_key(e: WatchedExport) -> (int, int, int, int) {
    let Place::Episode(season, number) = e.place;
    (
        e.watched.timestamp.millis as int,
        match season {
            SeasonNumber::Specials => 0,
            SeasonNumber::Number(n) => n + 1,
        },
        number as int,
        e.watched.id.0 as int,
    )
}

/// Lexicographic order of keys.
pub open spec fn key_less(a: (int, int, int, int), b: (int, int, int, int)) -> bool {
    a.0 < b.0 || (a.0 == b.0 && (a.1 < b.1 || (a.1 == b.1 && (a.2 < b.2 || (a.2 == b.2 && a.3 < b.3)))))
}

fn export_before(a: &WatchedExport, b: &WatchedExport) -> (r: bool)
    ensures
        r == key_less(export_key(*a), export_key(*b)),
{
    let Place::Episode(sa, na) = a.place;
    let Place::Episode(sb, nb) = b.place;
    let ra: u64 = match sa {
        SeasonNumber::Specials => 0,
        SeasonNumber::Number(n) => n as u64 + 1,
    };
    let rb: u64 = match sb {
        SeasonNumber::Specials => 0,
        SeasonNumber::Number(n) => n as u64 + 1,
    };
    let (ta, tb) = (a.watched.timestamp.millis, b.watched.timestamp.millis);
    if ta != tb {
        return ta < tb;
    }
    if ra != rb {
        return ra < rb;
    }
    if na != nb {
        return na < nb;
    }
    a.watched.id.0 < b.watched.id.0
}

fn find_place(list: &Vec<Episode>, e: u128) -> (r: Place)
    ensures
        r == place_in(list@, e),
        forall|k: int|
            0 <= k < list@.len() && (#[trigger] list@[k]).id.0 == e && (forall|j: int|
                0 <= j < k ==> list@[j].id.0 != e) ==> r == Place::Episode(list@[k].season, list@[k].number),
        (forall|j: int| 0 <= j < list@.len() ==> (#[trigger] list@[j]).id.0 != e) ==> r == Place::Episode(
            SeasonNumber::Specials,
            0,
        ),
{
    proof {
        assert forall|k: int|
            0 <= k < list@.len() && (#[trigger] list@[k]).id.0 == e && (forall|j: int|
                0 <= j < k ==> list@[j].id.0 != e) implies place_in(list@, e) == Place::Episode(
            list@[k].season,
            list@[k].number,
        ) by {
            lemma_place_in_first(list@, e, k);
        }
        if forall|j: int| 0 <= j < list@.len() ==> (#[trigger] list@[j]).id.0 != e {
            lemma_place_in_missing(list@, e);
        }
    }
    let mut i: usize = 0;
    while i < list.len()
        invariant
            i <= list@.len(),
            place_in(list@, e) == place_in(list@.skip(i as int), e),
            forall|k: int|
                0 <= k < list@.len() && (#[trigger] list@[k]).id.0 == e && (forall|j: int|
                    0 <= j < k ==> list@[j].id.0 != e) ==> place_in(list@, e) == Place::Episode(
                    list@[k].season,
                    list@[k].number,
                ),
            (forall|j: int| 0 <= j < list@.len() ==> (#[trigger] list@[j]).id.0 != e) ==> place_in(
                list@,
                e,
            ) == Place::Episode(SeasonNumber::Specials, 0),
        decreases list@.len() - i,
    {
        proof {
            assert(list@.skip(i as int).drop_first() =~= list@.skip(i + 1));
        }
        if list[i].id.0 == e {
            return Place::Episode(list[i].season, list[i].number);
        }
        i = i + 1;
    }
    Place::Episode(SeasonNumber::Specials, 0)
}

/// The keys are in order: no later one sorts before an earlier one.
pub open spec fn exports_sorted(s: Seq<WatchedExport>) -> bool {
    forall|i: int, j: int| 0 <= i < j < s.len() ==> !key_less(export_key(#[trigger] s[j]), export_key(#[trigger] s[i]))
}

/// Inserting at the place after every element that does not sort after it
/// keeps a list in order.
proof fn lemma_insert_sorted(before: Seq<WatchedExport>, pos: int, e: WatchedExport)
    requires
        exports_sorted(before),
        0 <= pos <= before.len(),
        forall|q: int| 0 <= q < pos ==> !key_less(export_key(e), export_key(#[trigger] before[q])),
        pos < before.len() ==> key_less(export_key(e), export_key(before[pos])),
    ensures
        exports_sorted(before.insert(pos, e)),
{
    let n = before.insert(pos, e);
    assert forall|a: int, b: int| 0 <= a < b < n.len() implies !key_less(
        export_key(#[trigger] n[b]),
        export_key(#[trigger] n[a]),
    ) by {
        if a < pos && b == pos {
        } else if a == pos {
            assert(n[b] == before[b - 1]);
            if b - 1 > pos {
                assert(!key_less(export_key(before[b - 1]), export_key(before[pos])));
            }
        } else if b < pos {
            assert(n[a] == before[a] && n[b] == before[b]);
        } else if a < pos {
            assert(n[a] == before[a] && n[b] == before[b - 1]);
            if b - 1 > pos {
                assert(!key_less(export_key(before[b - 1]), export_key(before[pos])));
            }
        } else {
            assert(n[a] == before[a - 1] && n[b] == before[b - 1]);
        }
    }
}

/// Sort exported watches by key, keeping each.
fn sort_exports(v: Vec<WatchedExport>) -> (r: Vec<WatchedExport>)
    ensures
        r@.len() == v@.len(),
        exports_sorted(r@),
        forall|i: int| 0 <= i < r@.len() ==> v@.contains(#[trigger] r@[i]),
        forall|i: int| 0 <= i < v@.len() ==> r@.contains(#[trigger] v@[i]),
{
    let mut out: Vec<WatchedExport> = Vec::new();
    let mut i: usize = 0;
    while i < v.len()
        invariant
            i <= v@.len(),
            out@.len() == i,
            exports_sorted(out@),
            forall|a: int| 0 <= a < out@.len() ==> v@.take(i as int).contains(#[trigger] out@[a]),
            forall|j: int| 0 <= j < i ==> out@.contains(#[trigger] v@[j]),
        decreases v@.len() - i,
    {
        let e = v[i];
        let ghost before = out@;
        let mut pos: usize = 0;
        while pos < out.len()
            invariant_except_break
                pos <= before.len(),
                out@ == before,
                forall|q: int| 0 <= q < pos ==> !key_less(export_key(e), export_key(#[trigger] before[q])),
            invariant
                pos <= before.len(),
                out@ == before,
            ensures
                pos <= before.len(),
                out@ == before,
                forall|q: int| 0 <= q < pos ==> !key_less(export_key(e), export_key(#[trigger] before[q])),
                pos < before.len() ==> key_less(export_key(e), export_key(before[pos as int])),
            decreases before.len() - pos,
        {
            if export_before(&e, &out[pos]) {
                break;
            }
            pos = pos + 1;
        }
        proof {
            lemma_insert_sorted(before, pos as int, e);
        }
        out.insert(pos, e);
        proof {
            let n = out@;
            assert forall|a: int| 0 <= a < n.len() implies v@.take(i + 1).contains(#[trigger] n[a]) by {
                if a == pos {
                    assert(v@.take(i + 1)[i as int] == e);
                } else {
                    let a0 = if a < pos { a } else { a - 1 };
                    assert(n[a] == before[a0]);
                    assert(v@.take(i as int).contains(before[a0]));
                    let k = choose|k: int| 0 <= k < i && v@.take(i as int)[k] == before[a0];
                    assert(v@.take(i + 1)[k] == before[a0]);
                }
            }
            assert forall|j: int| 0 <= j < i + 1 implies n.contains(#[trigger] v@[j]) by {
                if j == i {
                    assert(n[pos as int] == e);
                } else {
                    assert(before.contains(v@[j]));
                    let a = choose|a: int| 0 <= a < before.len() && before[a] == v@[j];
                    let a1 = if a < pos { a } else { a + 1 };
                    assert(n[a1] == before[a]);
                }
            }
        }
        i = i + 1;
    }
    assert(v@.take(i as int) =~= v@);
    out
}

/// `r` is an export of the watches `data`: as many records as watches,
/// each a watch with its place among `episodes`, every watch there, sorted
/// by time, then place, then id.
pub open spec fn watched_export_of(
    data: Map<WatchedId, Watched>,
    episodes: Map<u128, Vec<Episode>>,
    r: Seq<WatchedExport>,
) -> bool {
    &&& r.len() == data.dom().len()
    &&& exports_sorted(r)
    &&& forall|i: int|
        0 <= i < r.len() ==> data.values().contains((#[trigger] r[i]).watched) && r[i].place == place_of(
            episodes,
            r[i].watched,
        )
    &&& forall|id: WatchedId| #[trigger] data.contains_key(id) ==> exists|i: int| 0 <= i < r.len() && r[i].watched == data[id]
}

impl WatchedDatabase {
    /// Every watch, each once, in the order of the store.
    fn watch_values(&self) -> (r: Vec<Watched>)
        ensures
            r@.len() == self.data@.dom().len(),
            forall|i: int| 0 <= i < r@.len() ==> self.data@.values().contains(#[trigger] r@[i]),
            forall|k: u128| #[trigger] self.data@.contains_key(k) ==> r@.contains(self.data@[k]),
    {
        let mut out: Vec<Watched> = Vec::new();
        let ghost pairs = IteratorSpec::remaining(&vstd::std_specs::hash::spec_hash_map_iter(&self.data));
        for (k, w) in it: self.data.iter()
            invariant
                it.seq() == pairs,
                it.index() <= pairs.len(),
                out@.len() == it.index(),
                forall|a: int| 0 <= a < out@.len() ==> out@[a] == *(#[trigger] pairs[a]).1,
        {
            out.push(*w);
        }
        proof {
            assert(out@.len() == pairs.len());
            assert forall|a: int| 0 <= a < out@.len() implies self.data@.values().contains(#[trigger] out@[a]) by {
                assert(out@[a] == *pairs[a].1);
                assert(self.data@.contains_key(*pairs[a].0));
            }
            assert forall|k: u128| #[trigger] self.data@.contains_key(k) implies out@.contains(self.data@[k]) by {
                assert(pairs.contains((&k, &self.data@[k])));
                let j = choose|j: int| 0 <= j < pairs.len() && pairs[j] == (&k, &self.data@[k]);
                assert(out@[j] == self.data@[k]);
            }
        }
        out
    }

    /// Every watch with its place among `episodes`, sorted by time, then
    /// place, then id.
    pub fn export(&self, episodes: &HashMap<u128, Vec<Episode>>) -> (r: Vec<WatchedExport>)
        ensures
            watched_export_of(self.view().data, episodes@, r@),
    {
        let values = self.watch_values();
        let mut with_places: Vec<WatchedExport> = Vec::new();
        let mut i: usize = 0;
        while i < values.len()
            invariant
                i <= values@.len(),
                with_places@.len() == i,
                forall|a: int|
                    0 <= a < i ==> (#[trigger] with_places@[a]).watched == values@[a] && with_places@[a].place
                        == place_of(episodes@, values@[a]),
            decreases values@.len() - i,
        {
            let w = values[i];
            let place = match episodes.get(&series_bits(&w)) {
                Some(list) => find_place(list, episode_bits(&w)),
                None => Place::Episode(SeasonNumber::Specials, 0),
            };
            with_places.push(WatchedExport { place, watched: w });
            i = i + 1;
        }
        let ghost wp = with_places@;
        let out = sort_exports(with_places);
        proof {
            let data = self.view().data;
            assert forall|a: int| 0 <= a < out@.len() implies data.values().contains((#[trigger] out@[a]).watched)
                && out@[a].place == place_of(episodes@, out@[a].watched) by {
                assert(wp.contains(out@[a]));
                let j = choose|j: int| 0 <= j < wp.len() && wp[j] == out@[a];
                assert(wp[j].watched == values@[j]);
                assert(self.data@.values().contains(values@[j]));
                let k = choose|k: u128| #[trigger] self.data@.contains_key(k) && self.data@[k] == values@[j];
                assert(data.contains_key(WatchedId(k)));
                assert(data[WatchedId(k)] == values@[j]);
            }
            assert forall|id: WatchedId| #[trigger] data.contains_key(id) implies exists|a: int|
                0 <= a < out@.len() && out@[a].watched == data[id] by {
                assert(self.data@.contains_key(id.0));
                assert(values@.contains(self.data@[id.0]));
                let j = choose|j: int| 0 <= j < values@.len() && values@[j] == self.data@[id.0];
                assert(wp[j].watched == values@[j]);
                assert(out@.contains(wp[j]));
            }
            assert(data.dom() =~= self.data@.dom().map(|k: u128| WatchedId(k)));
            lemma_map_ids_len(self.data@.dom());
        }
        out
    }
}

proof fn lemma_map_ids_len(s: Set<u128>)
    requires
        s.finite(),
    ensures
        s.map(|k: u128| WatchedId(k)).len() == s.len(),
        s.map(|k: u128| WatchedId(k)).finite(),
    decreases s.len(),
{
    if s.len() == 0 {
        assert(s.map(|k: u128| WatchedId(k)) =~= Set::<WatchedId>::empty());
    } else {
        let x = s.choose();
        lemma_map_ids_len(s.remove(x));
        assert(s.map(|k: u128| WatchedId(k)) =~= s.remove(x).map(|k: u128| WatchedId(k)).insert(WatchedId(x)));
    }
}

fn series_bits(w: &Watched) -> (r: u128)
    ensures
        r == series_of(*w),
{
    match w.kind {
        WatchedKind::Series { series, .. } => series.0,
    }
}

fn episode_bits(w: &Watched) -> (r: u128)
    ensures
        r == episode_of(*w),
{
    match w.kind {
        WatchedKind::Series { episode, .. } => episode.0,
    }
}

/// The watches of the exported records.
pub open spec fn exported_watches(r: Seq<WatchedExport>) -> Seq<Watched> {
    r.map_values(|e: WatchedExport| e.watched)
}

proof fn lemma_inserted_all_data(l: Seq<Watched>, d: Map<WatchedId, Watched>)
    requires
        forall|i: int| 0 <= i < l.len() ==> d.contains_key((#[trigger] l[i]).id) && d[l[i].id] == l[i],
    ensures
        forall|k: WatchedId|
            #[trigger] inserted_all(empty_history(), l).data.contains_key(k) <==> exists|i: int|
                0 <= i < l.len() && l[i].id == k,
        forall|k: WatchedId|
            #[trigger] inserted_all(empty_history(), l).data.contains_key(k) ==> inserted_all(
                empty_history(),
                l,
            ).data[k] == d[k],
    decreases l.len(),
{
    if l.len() > 0 {
        let p = l.drop_last();
        assert forall|i: int| 0 <= i < p.len() implies d.contains_key((#[trigger] p[i]).id) && d[p[i].id]
            == p[i] by {
            assert(p[i] == l[i]);
        }
        lemma_inserted_all_data(p, d);
        let n = l.len() - 1;
        assert(l.last() == l[n]);
        assert forall|k: WatchedId|
            #[trigger] inserted_all(empty_history(), l).data.contains_key(k) <==> exists|i: int|
                0 <= i < l.len() && l[i].id == k by {
            if inserted_all(empty_history(), p).data.contains_key(k) {
                let i = choose|i: int| 0 <= i < p.len() && p[i].id == k;
                assert(l[i] == p[i]);
            }
            if exists|i: int| 0 <= i < l.len() && l[i].id == k {
                let i = choose|i: int| 0 <= i < l.len() && l[i].id == k;
                if i < n {
                    assert(p[i] == l[i]);
                }
            }
        }
        assert(inserted_all(empty_history(), l).data == inserted_all(empty_history(), p).data.insert(
            l[n].id,
            l[n],
        ));
    }
}

/// The empty history.
pub open spec fn empty_history() -> WatchedModel {
    WatchedModel { data: Map::empty(), by_episode: Map::empty(), by_series: Map::empty() }
}

/// Each exported watch stands at the season and number of its episode among the episodes of its
/// series: the first episode of that list with the watch's episode id.
pub proof fn lemma_export_places(
    data: Map<WatchedId, Watched>,
    episodes: Map<u128, Vec<Episode>>,
    r: Seq<WatchedExport>,
    i: int,
    k: int,
)
    requires
        watched_export_of(data, episodes, r),
        0 <= i < r.len(),
        episodes.contains_key(series_of(r[i].watched)),
        0 <= k < episodes[series_of(r[i].watched)]@.len(),
        episodes[series_of(r[i].watched)]@[k].id.0 == episode_of(r[i].watched),
        forall|j: int|
            0 <= j < k ==> (#[trigger] episodes[series_of(r[i].watched)]@[j]).id.0 != episode_of(r[i].watched),
    ensures
        r[i].place == Place::Episode(
            episodes[series_of(r[i].watched)]@[k].season,
            episodes[series_of(r[i].watched)]@[k].number,
        ),
{
    lemma_place_in_first(episodes[series_of(r[i].watched)]@, episode_of(r[i].watched), k);
}

/// Recording the watches of an export of a history, in order, into an empty history gives back
/// every watch of it.
pub proof fn lemma_export_import_roundtrip(
    m: WatchedModel,
    episodes: Map<u128, Vec<Episode>>,
    r: Seq<WatchedExport>,
)
    requires
        watched_wf(m),
        watched_export_of(m.data, episodes, r),
    ensures
        inserted_all(empty_history(), exported_watches(r)).data == m.data,
{
    let l = exported_watches(r);
    assert forall|i: int| 0 <= i < l.len() implies m.data.contains_key((#[trigger] l[i]).id)
        && m.data[l[i].id] == l[i] by {
        assert(l[i] == r[i].watched);
        assert(m.data.values().contains(r[i].watched));
        let id = choose|id: WatchedId| m.data.contains_key(id) && m.data[id] == r[i].watched;
        assert(m.data[id].id == id);
    }
    lemma_inserted_all_data(l, m.data);
    let a = inserted_all(empty_history(), l).data;
    assert forall|k: WatchedId| #[trigger] a.contains_key(k) <==> m.data.contains_key(k) by {
        if m.data.contains_key(k) {
            let i = choose|i: int| 0 <= i < r.len() && r[i].watched == m.data[k];
            assert(l[i] == r[i].watched);
            assert(l[i].id == k);
        }
    }
    assert(a =~= m.data);
}

} // verus!

verus! {

/// Whether every recorded watch of episode `e` is listed under it in the episode index.
pub open spec fn episode_listed(m: WatchedModel, e: u128) -> bool {
    forall|id: WatchedId|
        #[trigger] m.data.contains_key(id) && episode_of(m.data[id]) == e ==> m.by_episode.contains_key(e)
            && m.by_episode[e].contains(id)
}

/// Dropping the watches `ids` of an episode removes exactly those watches from the data, keeps
/// every other watch as it was, and leaves the episode index as it is.
pub proof fn lemma_drop_episode_watches_data(m: WatchedModel, ids: Seq<WatchedId>)
    ensures
        drop_episode_watches(m, ids).data == m.data.remove_keys(ids.to_set()),
        drop_episode_watches(m, ids).by_episode == m.by_episode,
    decreases ids.len(),
{
    if ids.len() == 0 {
        assert(ids.to_set() =~= Set::<WatchedId>::empty());
        assert(m.data.remove_keys(ids.to_set()) =~= m.data);
    } else {
        let q = ids.drop_last();
        lemma_drop_episode_watches_data(m, q);
        let id = ids.last();
        assert(ids.to_set() =~= q.to_set().insert(id)) by {
            assert(ids =~= q.push(id));
            assert forall|x: WatchedId| ids.to_set().contains(x) <==> q.to_set().insert(id).contains(x) by {
                if ids.contains(x) {
                    let i = choose|i: int| 0 <= i < ids.len() && ids[i] == x;
                    if i < ids.len() - 1 {
                        assert(q[i] == x);
                    }
                }
                if q.contains(x) {
                    let i = choose|i: int| 0 <= i < q.len() && q[i] == x;
                    assert(ids[i] == x);
                }
                if x == id {
                    assert(ids[ids.len() - 1] == x);
                }
            }
        }
        let p = drop_episode_watches(m, q);
        assert(drop_episode_watches(m, ids).data =~= m.data.remove_keys(ids.to_set()));
    }
}

/// Dropping one watch that no entry of the episode index lists, from the data and from its
/// series' entry, keeps the watch history's invariant.
proof fn lemma_drop_one_keeps_wf(p: WatchedModel, id: WatchedId)
    requires
        watched_wf(p),
        p.data.contains_key(id),
        forall|k: u128| #[trigger] p.by_episode.contains_key(k) ==> !p.by_episode[k].contains(id),
    ensures
        watched_wf(
            WatchedModel {
                data: p.data.remove(id),
                by_series: cleared(p.by_series, series_of(p.data[id]), p.data[id].id),
                ..p
            },
        ),
{
    let w = p.data[id];
    let ep = |x: Watched| episode_of(x);
    let se = |x: Watched| series_of(x);
    lemma_cleared_sound(p.data, p.by_series, se, series_of(w), w.id);
    let t = WatchedModel { data: p.data.remove(id), by_series: cleared(p.by_series, series_of(w), w.id), ..p };
    assert(w.id == id);
    assert(index_sound(t.data, t.by_episode, ep)) by {
        assert forall|k: u128| #![trigger t.by_episode[k]] t.by_episode.contains_key(k) implies
            forall|i: int|
                0 <= i < t.by_episode[k].len() ==> t.data.contains_key(#[trigger] t.by_episode[k][i])
                    && ep(t.data[t.by_episode[k][i]]) == k by {
            assert forall|i: int| 0 <= i < t.by_episode[k].len() implies t.data.contains_key(#[trigger] t.by_episode[k][i])
                && ep(t.data[t.by_episode[k][i]]) == k by {
                let x = t.by_episode[k][i];
                assert(p.by_episode[k].contains(x));
                assert(x != id);
                assert(p.data.contains_key(p.by_episode[k][i]));
            }
        }
    }
    assert(index_sound(t.data, t.by_series, se)) by {
        assert forall|k: u128| #![trigger t.by_series[k]] t.by_series.contains_key(k) implies
            forall|i: int|
                0 <= i < t.by_series[k].len() ==> t.data.contains_key(#[trigger] t.by_series[k][i])
                    && se(t.data[t.by_series[k][i]]) == k by {
            assert forall|i: int| 0 <= i < t.by_series[k].len() implies t.data.contains_key(#[trigger] t.by_series[k][i])
                && se(t.data[t.by_series[k][i]]) == k by {
                let x = t.by_series[k][i];
                assert(t.by_series[k].contains(x));
                assert(p.by_series.contains_key(k) && p.by_series[k].contains(x));
                let q = choose|q: int| 0 <= q < p.by_series[k].len() && p.by_series[k][q] == x;
                assert(p.data.contains_key(p.by_series[k][q]));
            }
        }
    }
    assert(series_complete(t)) by {
        assert forall|x: WatchedId| #[trigger] t.data.contains_key(x) implies t.by_series.contains_key(series_of(t.data[x]))
            && t.by_series[series_of(t.data[x])].contains(x) by {
            let s = series_of(p.data[x]);
            assert(p.by_series.contains_key(s) && p.by_series[s].contains(x));
        }
    }
}

/// Dropping watches of an episode whose index entry is already gone keeps the watch history's
/// invariant.
proof fn lemma_drop_episode_watches_wf(m: WatchedModel, e: u128, ids: Seq<WatchedId>)
    requires
        watched_wf(m),
        !m.by_episode.contains_key(e),
        forall|i: int|
            0 <= i < ids.len() && m.data.contains_key(#[trigger] ids[i]) ==> episode_of(m.data[ids[i]]) == e,
    ensures
        watched_wf(drop_episode_watches(m, ids)),
    decreases ids.len(),
{
    if ids.len() > 0 {
        let q = ids.drop_last();
        assert forall|i: int| 0 <= i < q.len() && m.data.contains_key(#[trigger] q[i]) implies episode_of(
            m.data[q[i]],
        ) == e by {
            assert(q[i] == ids[i]);
        }
        lemma_drop_episode_watches_wf(m, e, q);
        lemma_drop_episode_watches_data(m, q);
        let p = drop_episode_watches(m, q);
        let id = ids.last();
        if p.data.contains_key(id) {
            assert(m.data.contains_key(id) && p.data[id] == m.data[id]);
            assert(ids[ids.len() - 1] == id);
            assert(episode_of(p.data[id]) == e);
            assert forall|k: u128| #[trigger] p.by_episode.contains_key(k) implies !p.by_episode[k].contains(id) by {
                if p.by_episode[k].contains(id) {
                    let i = choose|i: int| 0 <= i < p.by_episode[k].len() && p.by_episode[k][i] == id;
                    assert(p.data.contains_key(p.by_episode[k][i]));
                    assert(episode_of(p.data[p.by_episode[k][i]]) == k);
                }
            }
            lemma_drop_one_keeps_wf(p, id);
        }
    }
}

/// Removing the watches of an episode, as `remove_by_episode` does: every watch listed under the
/// episode goes and every other watch stays as it was; where every watch of the episode is listed
/// under it, no watch of the episode is left; and the history stays well formed.
pub proof fn lemma_remove_episode_watches(m: WatchedModel, e: u128)
    requires
        m.by_episode.contains_key(e),
    ensures
        ({
            let f = drop_episode_watches(WatchedModel { by_episode: m.by_episode.remove(e), ..m }, m.by_episode[e]);
            &&& watched_wf(m) ==> watched_wf(f)
            &&& forall|id: WatchedId| #[trigger] f.data.contains_key(id) <==> (m.data.contains_key(id) && !m.by_episode[e].contains(id))
            &&& forall|id: WatchedId| #[trigger] f.data.contains_key(id) ==> f.data[id] == m.data[id]
            &&& episode_listed(m, e) ==> forall|id: WatchedId| #[trigger] f.data.contains_key(id) ==> episode_of(f.data[id]) != e
        }),
{
    let start = WatchedModel { by_episode: m.by_episode.remove(e), ..m };
    let ids = m.by_episode[e];
    if watched_wf(m) {
    assert(watched_wf(start)) by {
        let ep = |x: Watched| episode_of(x);
        assert(index_sound(start.data, start.by_episode, ep)) by {
            assert forall|k: u128| #![trigger start.by_episode[k]] start.by_episode.contains_key(k) implies {
                &&& start.by_episode[k].len() > 0
                &&& start.by_episode[k].no_duplicates()
                &&& forall|i: int|
                    0 <= i < start.by_episode[k].len() ==> start.data.contains_key(#[trigger] start.by_episode[k][i])
                        && ep(start.data[start.by_episode[k][i]]) == k
            } by {
                assert(m.by_episode.contains_key(k) && start.by_episode[k] == m.by_episode[k]);
            }
        }
    }
    assert forall|i: int| 0 <= i < ids.len() && start.data.contains_key(#[trigger] ids[i]) implies episode_of(
        start.data[ids[i]],
    ) == e by {
        assert(m.data.contains_key(m.by_episode[e][i]));
    }
    lemma_drop_episode_watches_wf(start, e, ids);
    }
    lemma_drop_episode_watches_data(start, ids);
    let f = drop_episode_watches(start, ids);
    assert forall|id: WatchedId| #[trigger] f.data.contains_key(id) <==> (m.data.contains_key(id) && !ids.contains(id)) by {
        if ids.contains(id) {
            assert(ids.to_set().contains(id));
        }
        if ids.to_set().contains(id) {
            assert(ids.contains(id));
        }
    }
    if episode_listed(m, e) {
        assert forall|id: WatchedId| #[trigger] f.data.contains_key(id) implies episode_of(f.data[id]) != e by {
            if episode_of(f.data[id]) == e {
                assert(m.data.contains_key(id) && episode_of(m.data[id]) == e);
            }
        }
    }
}

} // verus!
