use vstd::prelude::*;

use crate::etag::Etag;
use crate::remote::RemoteSeriesId;
use crate::remote_map::{lemma_pairs_map_at, lemma_remote_less_order, remote_less, sorted_keys, RemoteMap};
use crate::time::Timestamp;

verus! {

/// Synchronization state of one remote series.
#[derive(Debug)]
pub struct Entry {
    pub etag: Option<Etag>,
    pub last_sync: Option<Timestamp>,
    pub last_modified: Option<Timestamp>,
}

/// The bytes of an optional etag.
pub open spec fn etag_bytes(e: Option<Etag>) -> Option<Seq<u8>> {
    match e {
        Some(e) => Some(e@),
        None => None,
    }
}

/// An entry as seen by contracts: the etag by its bytes.
pub struct EntryModel {
    pub etag: Option<Seq<u8>>,
    pub last_sync: Option<Timestamp>,
    pub last_modified: Option<Timestamp>,
}

pub open spec fn entry_model(e: Entry) -> EntryModel {
    EntryModel { etag: etag_bytes(e.etag), last_sync: e.last_sync, last_modified: e.last_modified }
}

pub open spec fn empty_entry() -> EntryModel {
    EntryModel { etag: None, last_sync: None, last_modified: None }
}

/// Whether an entry holds nothing.
pub open spec fn entry_is_empty(e: EntryModel) -> bool {
    e.etag is None && e.last_sync is None && e.last_modified is None
}

impl Clone for Entry {
    fn clone(&self) -> (r: Entry)
        ensures
            entry_model(r) == entry_model(*self),
    {
        let etag = match &self.etag {
            Some(e) => Some(e.clone()),
            None => None,
        };
        Entry { etag, last_sync: self.last_sync, last_modified: self.last_modified }
    }
}

impl Entry {
    /// An entry holding nothing.
    pub fn new() -> (e: Entry)
        ensures
            entry_model(e) == empty_entry(),
    {
        Entry { etag: None, last_sync: None, last_modified: None }
    }

    /// Test if entry is empty.
    pub fn is_empty(&self) -> (r: bool)
        ensures
            r == entry_is_empty(entry_model(*self)),
    {
        self.etag.is_none() && self.last_sync.is_none() && self.last_modified.is_none()
    }
}

/// One exported record: a remote series and its state.
#[derive(Clone, Debug)]
pub struct Export {
    pub id: RemoteSeriesId,
    pub entry: Entry,
}

/// The records that an export of the sorted list `l` holds, each as a key
/// and the model of its entry: the non-empty entries, in order.
pub open spec fn export_model(l: Seq<(RemoteSeriesId, Entry)>) -> Seq<(RemoteSeriesId, EntryModel)>
    decreases l.len(),
{
    if l.len() == 0 {
        Seq::empty()
    } else {
        let rest = export_model(l.drop_last());
        let last = l.last();
        if entry_is_empty(entry_model(last.1)) {
            rest
        } else {
            rest.push((last.0, entry_model(last.1)))
        }
    }
}

/// Exported records as keys and entry models.
pub open spec fn exports_of(r: Seq<Export>) -> Seq<(RemoteSeriesId, EntryModel)> {
    r.map_values(|e: Export| (e.id, entry_model(e.entry)))
}

/// What an export of a sorted list holds: each record comes from the list
/// and is non-empty, the keys increase, and every non-empty entry is there.
proof fn lemma_export_model(l: Seq<(RemoteSeriesId, Entry)>)
    requires
        sorted_keys(l),
    ensures
        forall|a: int|
            0 <= a < export_model(l).len() ==> !entry_is_empty(#[trigger] export_model(l)[a].1) && exists|b: int|
                0 <= b < l.len() && l[b].0 == export_model(l)[a].0 && entry_model(l[b].1) == export_model(l)[a].1,
        forall|a: int, c: int|
            0 <= a < c < export_model(l).len() ==> remote_less(
                #[trigger] export_model(l)[a].0,
                #[trigger] export_model(l)[c].0,
            ),
        forall|b: int|
            0 <= b < l.len() && !entry_is_empty(entry_model(#[trigger] l[b].1)) ==> exists|a: int|
                0 <= a < export_model(l).len() && #[trigger] export_model(l)[a].0 == l[b].0,
    decreases l.len(),
{
    if l.len() > 0 {
        let p = l.drop_last();
        assert(sorted_keys(p)) by {
            assert forall|i: int, j: int| 0 <= i < j < p.len() implies remote_less(#[trigger] p[i].0, #[trigger] p[j].0) by {
                assert(p[i] == l[i] && p[j] == l[j]);
            }
        }
        lemma_export_model(p);
        let e = export_model(l);
        let r = export_model(p);
        let n = l.len() - 1;
        assert forall|a: int| 0 <= a < e.len() implies !entry_is_empty(#[trigger] e[a].1) && exists|b: int|
            0 <= b < l.len() && l[b].0 == e[a].0 && entry_model(l[b].1) == e[a].1 by {
            if a < r.len() {
                let b = choose|b: int| 0 <= b < p.len() && p[b].0 == r[a].0 && entry_model(p[b].1) == r[a].1;
                assert(l[b] == p[b]);
            } else {
                assert(l[n] == l.last());
            }
        }
        assert forall|a: int, c: int| 0 <= a < c < e.len() implies remote_less(#[trigger] e[a].0, #[trigger] e[c].0) by {
            if c >= r.len() {
                let b = choose|b: int| 0 <= b < p.len() && p[b].0 == r[a].0 && entry_model(p[b].1) == r[a].1;
                assert(l[b] == p[b]);
                assert(remote_less(l[b].0, l[n].0));
            }
        }
        assert forall|b: int| 0 <= b < l.len() && !entry_is_empty(entry_model(#[trigger] l[b].1)) implies exists|a: int|
            0 <= a < e.len() && #[trigger] e[a].0 == l[b].0 by {
            if b < n {
                assert(p[b] == l[b]);
                let a = choose|a: int| 0 <= a < r.len() && #[trigger] r[a].0 == p[b].0;
                assert(e[a] == r[a]);
            } else {
                assert(e[r.len() as int].0 == l[b].0);
            }
        }
    }
}

/// `r` is an export of the sync state `m`: its non-empty entries, each
/// once, sorted by key.
pub open spec fn sync_export_of(m: Map<RemoteSeriesId, EntryModel>, r: Seq<Export>) -> bool {
    &&& forall|i: int| 0 <= i < r.len() ==> !entry_is_empty(entry_model(#[trigger] r[i].entry))
    &&& forall|i: int| 0 <= i < r.len() ==> m.contains_key(#[trigger] r[i].id) && m[r[i].id] == entry_model(r[i].entry)
    &&& forall|k: RemoteSeriesId| #[trigger]
        m.contains_key(k) && !entry_is_empty(m[k]) ==> exists|i: int| 0 <= i < r.len() && r[i].id == k
    &&& forall|i: int, j: int| 0 <= i < j < r.len() ==> remote_less(#[trigger] r[i].id, #[trigger] r[j].id)
}

/// Database of synchronization state.
pub struct Database {
    data: RemoteMap<Entry>,
}

/// The entry stored for `id`, or an empty one.
pub open spec fn entry_or_empty(m: Map<RemoteSeriesId, EntryModel>, id: RemoteSeriesId) -> EntryModel {
    if m.contains_key(id) {
        m[id]
    } else {
        empty_entry()
    }
}

impl Database {
    /// The state of each remote series.
    pub closed spec fn view(&self) -> Map<RemoteSeriesId, EntryModel> {
        self.data@.map_values(|e: Entry| entry_model(e))
    }

    /// The invariant: entries sorted by key, so each key occurs once.
    pub closed spec fn wf(&self) -> bool {
        self.data.wf()
    }

    /// An empty database.
    pub fn new() -> (db: Database)
        ensures
            db.wf(),
            db.view() == Map::<RemoteSeriesId, EntryModel>::empty(),
    {
        let db = Database { data: RemoteMap::new() };
        assert(db.view() =~= Map::<RemoteSeriesId, EntryModel>::empty());
        db
    }

    /// The stored entry of `id`, or an empty one.
    fn get_entry(&self, id: &RemoteSeriesId) -> (e: Entry)
        requires
            self.wf(),
        ensures
            entry_model(e) == entry_or_empty(self.view(), *id),
    {
        match self.data.get(id) {
            Some(e) => e.clone(),
            None => Entry::new(),
        }
    }

    /// Store `e` as the entry of `id`.
    fn set_entry(&mut self, id: &RemoteSeriesId, e: Entry)
        requires
            old(self).wf(),
        ensures
            final(self).wf(),
            final(self).view() == old(self).view().insert(*id, entry_model(e)),
    {
        let ghost em = entry_model(e);
        let _ = self.data.insert(*id, e);
        assert(self.view() =~= old(self).view().insert(*id, em));
    }

    /// Export the non-empty entries, sorted by key.
    pub fn export(&self) -> (r: Vec<Export>)
        requires
            self.wf(),
        ensures
            sync_export_of(self.view(), r@),
    {
        let mut out: Vec<Export> = Vec::new();
        let mut i: usize = 0;
        let ghost l = self.data.entries();
        while i < self.data.len()
            invariant
                i <= l.len(),
                l == self.data.entries(),
                exports_of(out@) == export_model(l.take(i as int)),
            decreases l.len() - i,
        {
            let (k, e) = self.data.entry(i);
            let k = *k;
            let e = e.clone();
            proof {
                assert(l.take(i + 1).drop_last() =~= l.take(i as int));
                assert(l.take(i + 1).last() == l[i as int]);
            }
            if !e.is_empty() {
                out.push(Export { id: k, entry: e });
            }
            assert(exports_of(out@) =~= export_model(l.take(i + 1)));
            i = i + 1;
        }
        proof {
            assert(l.take(i as int) =~= l);
            lemma_export_model(l);
            self.data.lemma_view();
            assert forall|a: int| 0 <= a < out@.len() implies !entry_is_empty(entry_model(#[trigger] out@[a].entry)) by {
                assert(exports_of(out@)[a] == (out@[a].id, entry_model(out@[a].entry)));
                assert(export_model(l)[a].1 == entry_model(out@[a].entry));
            }
            assert forall|a: int|
                0 <= a < out@.len() implies self.view().contains_key(#[trigger] out@[a].id) && self.view()[out@[a].id]
                    == entry_model(out@[a].entry) by {
                assert(exports_of(out@)[a] == (out@[a].id, entry_model(out@[a].entry)));
                let b = choose|b: int| 0 <= b < l.len() && l[b].0 == export_model(l)[a].0 && entry_model(l[b].1) == export_model(l)[a].1;
                lemma_pairs_map_at(l, b);
            }
            assert forall|k: RemoteSeriesId| #[trigger]
                self.view().contains_key(k) && !entry_is_empty(self.view()[k]) implies exists|a: int|
                    0 <= a < out@.len() && out@[a].id == k by {
                let b = choose|b: int| 0 <= b < l.len() && l[b].0 == k;
                lemma_pairs_map_at(l, b);
                let a = choose|a: int| 0 <= a < export_model(l).len() && #[trigger] export_model(l)[a].0 == l[b].0;
                assert(exports_of(out@)[a] == (out@[a].id, entry_model(out@[a].entry)));
            }
            assert forall|a: int, c: int| 0 <= a < c < out@.len() implies remote_less(#[trigger] out@[a].id, #[trigger] out@[c].id) by {
                assert(exports_of(out@)[a] == (out@[a].id, entry_model(out@[a].entry)));
                assert(exports_of(out@)[c] == (out@[c].id, entry_model(out@[c].entry)));
            }
        }
        out
    }

    /// Import one exported record; an empty entry is ignored.
    pub fn import_push(&mut self, sync: Export)
        requires
            old(self).wf(),
        ensures
            final(self).wf(),
            final(self).view() == if entry_is_empty(entry_model(sync.entry)) {
                old(self).view()
            } else {
                old(self).view().insert(sync.id, entry_model(sync.entry))
            },
    {
        if !sync.entry.is_empty() {
            self.set_entry(&sync.id, sync.entry);
        }
    }

    /// Record `now` as the last sync of `id`; returns whether that changed.
    pub fn import_last_sync(&mut self, id: RemoteSeriesId, now: Timestamp) -> (r: bool)
        requires
            old(self).wf(),
        ensures
            final(self).wf(),
            r == (entry_or_empty(old(self).view(), id).last_sync != Some(now)),
            final(self).view() == old(self).view().insert(
                id,
                EntryModel { last_sync: Some(now), ..entry_or_empty(old(self).view(), id) },
            ),
    {
        let mut e = self.get_entry(&id);
        let changed = match e.last_sync {
            Some(t) => t != now,
            None => true,
        };
        e.last_sync = Some(now);
        self.set_entry(&id, e);
        changed
    }

    /// Update the last modified time of `id`; returns whether that changed.
    pub fn update_last_modified(&mut self, id: RemoteSeriesId, last_modified: Option<Timestamp>) -> (r: bool)
        requires
            old(self).wf(),
        ensures
            final(self).wf(),
            r == (entry_or_empty(old(self).view(), id).last_modified != last_modified),
            final(self).view() == old(self).view().insert(
                id,
                EntryModel { last_modified, ..entry_or_empty(old(self).view(), id) },
            ),
    {
        let mut e = self.get_entry(&id);
        let changed = !same_time(&e.last_modified, &last_modified);
        e.last_modified = last_modified;
        self.set_entry(&id, e);
        changed
    }

    /// Record a sync of `id` at `now` that saw `last_modified`; returns
    /// whether either changed.
    pub fn series_update_sync(
        &mut self,
        id: RemoteSeriesId,
        now: Timestamp,
        last_modified: Option<Timestamp>,
    ) -> (r: bool)
        requires
            old(self).wf(),
        ensures
            final(self).wf(),
            r == (entry_or_empty(old(self).view(), id).last_sync != Some(now) || entry_or_empty(
                old(self).view(),
                id,
            ).last_modified != last_modified),
            final(self).view() == old(self).view().insert(
                id,
                EntryModel {
                    last_sync: Some(now),
                    last_modified,
                    ..entry_or_empty(old(self).view(), id)
                },
            ),
    {
        let mut e = self.get_entry(&id);
        let a = !same_time(&e.last_sync, &Some(now));
        let b = !same_time(&e.last_modified, &last_modified);
        e.last_sync = Some(now);
        e.last_modified = last_modified;
        self.set_entry(&id, e);
        a || b
    }

    /// Store the last etag of `id`; returns whether it changed. Nothing is
    /// written when it is the same.
    pub fn update_last_etag(&mut self, id: RemoteSeriesId, etag: Option<Etag>) -> (r: bool)
        requires
            old(self).wf(),
        ensures
            final(self).wf(),
            r == (entry_or_empty(old(self).view(), id).etag != etag_bytes(etag)),
            r ==> final(self).view() == old(self).view().insert(
                id,
                EntryModel { etag: etag_bytes(etag), ..entry_or_empty(old(self).view(), id) },
            ),
            !r ==> final(self).view() == old(self).view().insert(id, entry_or_empty(old(self).view(), id)),
    {
        let mut e = self.get_entry(&id);
        let same = match (&e.etag, &etag) {
            (Some(a), Some(b)) => a.same(b),
            (None, None) => true,
            _ => false,
        };
        if same {
            self.set_entry(&id, e);
            return false;
        }
        e.etag = etag;
        self.set_entry(&id, e);
        true
    }

    /// Last sync of `id`, if known.
    pub fn last_sync(&self, id: &RemoteSeriesId) -> (r: Option<Timestamp>)
        requires
            self.wf(),
        ensures
            r == entry_or_empty(self.view(), *id).last_sync,
    {
        self.get_entry(id).last_sync
    }

    /// Last modified time of `id`, if known.
    pub fn last_modified(&self, id: &RemoteSeriesId) -> (r: Option<Timestamp>)
        requires
            self.wf(),
        ensures
            r == entry_or_empty(self.view(), *id).last_modified,
    {
        self.get_entry(id).last_modified
    }

    /// Last etag of `id`, if known.
    pub fn last_etag(&self, id: &RemoteSeriesId) -> (r: Option<Etag>)
        requires
            self.wf(),
        ensures
            etag_bytes(r) == entry_or_empty(self.view(), *id).etag,
    {
        self.get_entry(id).etag
    }

    /// Clear all sync data.
    pub fn clear(&mut self)
        ensures
            final(self).wf(),
            final(self).view() == Map::<RemoteSeriesId, EntryModel>::empty(),
    {
        self.data.clear();
        assert(self.view() =~= Map::<RemoteSeriesId, EntryModel>::empty());
    }
}

/// The sync state after importing each exported record in order.
pub open spec fn imported(m: Map<RemoteSeriesId, EntryModel>, l: Seq<Export>) -> Map<RemoteSeriesId, EntryModel>
    decreases l.len(),
{
    if l.len() == 0 {
        m
    } else {
        let m1 = imported(m, l.drop_last());
        if entry_is_empty(entry_model(l.last().entry)) {
            m1
        } else {
            m1.insert(l.last().id, entry_model(l.last().entry))
        }
    }
}

impl Database {
    /// Import each exported record in order; empty entries are ignored.
    pub fn import(&mut self, syncs: Vec<Export>)
        requires
            old(self).wf(),
        ensures
            final(self).wf(),
            final(self).view() == imported(old(self).view(), syncs@),
    {
        let ghost orig = syncs@;
        let mut syncs = syncs;
        let n: usize = syncs.len();
        assert(orig.len() == n);
        let mut i: usize = 0;
        assert(orig.take(0) =~= Seq::<Export>::empty());
        while syncs.len() > 0
            invariant
                self.wf(),
                syncs@ == orig.skip(i as int),
                i <= orig.len(),
                orig.len() <= usize::MAX,
                self.view() == imported(old(self).view(), orig.take(i as int)),
            decreases syncs@.len(),
        {
            let e = syncs.remove(0);
            proof {
                assert(e == orig[i as int]);
                assert(orig.take(i + 1).drop_last() =~= orig.take(i as int));
            }
            self.import_push(e);
            i = i + 1;
            proof {
                assert(syncs@ =~= orig.skip(i as int));
            }
        }
        assert(orig.take(i as int) =~= orig);
    }
}

fn same_time(a: &Option<Timestamp>, b: &Option<Timestamp>) -> (r: bool)
    ensures
        r == (*a == *b),
{
    match (a, b) {
        (Some(x), Some(y)) => x.millis == y.millis,
        (None, None) => true,
        _ => false,
    }
}

/// Storing the same etag twice reports a change at most the first time.
pub proof fn lemma_etag_update_idempotent(m: Map<RemoteSeriesId, EntryModel>, id: RemoteSeriesId, etag: Option<Seq<u8>>)
    ensures
        ({
            let m2 = m.insert(id, EntryModel { etag, ..entry_or_empty(m, id) });
            entry_or_empty(m2, id).etag == etag
        }),
{
}

/// The entries of a sync state that hold something.
pub open spec fn non_empty_entries(m: Map<RemoteSeriesId, EntryModel>) -> Map<RemoteSeriesId, EntryModel> {
    Map::new(|k: RemoteSeriesId| m.contains_key(k) && !entry_is_empty(m[k]), |k: RemoteSeriesId| m[k])
}

proof fn lemma_imported_distinct(r: Seq<Export>)
    requires
        forall|i: int, j: int| 0 <= i < j < r.len() ==> #[trigger] r[i].id != #[trigger] r[j].id,
        forall|i: int| 0 <= i < r.len() ==> !entry_is_empty(entry_model(#[trigger] r[i].entry)),
    ensures
        forall|k: RemoteSeriesId|
            #[trigger] imported(Map::empty(), r).contains_key(k) <==> exists|i: int|
                0 <= i < r.len() && r[i].id == k,
        forall|i: int|
            0 <= i < r.len() ==> imported(Map::empty(), r)[#[trigger] r[i].id] == entry_model(
                r[i].entry,
            ),
    decreases r.len(),
{
    if r.len() > 0 {
        let p = r.drop_last();
        assert forall|i: int, j: int| 0 <= i < j < p.len() implies #[trigger] p[i].id
            != #[trigger] p[j].id by {
            assert(p[i] == r[i] && p[j] == r[j]);
        }
        assert forall|i: int| 0 <= i < p.len() implies !entry_is_empty(
            entry_model(#[trigger] p[i].entry),
        ) by {
            assert(p[i] == r[i]);
        }
        lemma_imported_distinct(p);
        let n = r.len() - 1;
        assert(r.last() == r[n]);
        assert forall|k: RemoteSeriesId|
            #[trigger] imported(Map::empty(), r).contains_key(k) <==> exists|i: int|
                0 <= i < r.len() && r[i].id == k by {
            if imported(Map::empty(), p).contains_key(k) {
                let i = choose|i: int| 0 <= i < p.len() && p[i].id == k;
                assert(r[i] == p[i]);
            }
            if exists|i: int| 0 <= i < r.len() && r[i].id == k {
                let i = choose|i: int| 0 <= i < r.len() && r[i].id == k;
                if i < n {
                    assert(p[i] == r[i]);
                }
            }
        }
        assert forall|i: int| 0 <= i < r.len() implies imported(Map::empty(), r)[#[trigger] r[i].id]
            == entry_model(r[i].entry) by {
            if i < n {
                assert(p[i] == r[i]);
                assert(r[i].id != r[n].id);
            }
        }
    }
}

/// Importing an export of a sync state gives back its entries that hold something.
pub proof fn lemma_export_import_roundtrip(m: Map<RemoteSeriesId, EntryModel>, r: Seq<Export>)
    requires
        sync_export_of(m, r),
    ensures
        imported(Map::empty(), r) == non_empty_entries(m),
{
    assert forall|i: int, j: int| 0 <= i < j < r.len() implies #[trigger] r[i].id
        != #[trigger] r[j].id by {
        lemma_remote_less_order(r[i].id, r[j].id, r[i].id);
    }
    lemma_imported_distinct(r);
    let a = imported(Map::empty(), r);
    let b = non_empty_entries(m);
    assert forall|k: RemoteSeriesId| #[trigger] a.contains_key(k) <==> b.contains_key(k) by {
        if a.contains_key(k) {
            let i = choose|i: int| 0 <= i < r.len() && r[i].id == k;
            assert(m.contains_key(r[i].id));
        }
        if b.contains_key(k) {
            assert(m.contains_key(k) && !entry_is_empty(m[k]));
        }
    }
    assert forall|k: RemoteSeriesId| #[trigger] a.contains_key(k) implies a[k] == b[k] by {
        let i = choose|i: int| 0 <= i < r.len() && r[i].id == k;
        assert(a[r[i].id] == entry_model(r[i].entry));
    }
    assert(a =~= b);
}

} // verus!
