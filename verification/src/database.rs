use std::collections::HashMap;

use vstd::prelude::*;

use crate::catalog::{Episode, Pending, Season, Series};
use crate::changes::{id_bits, Change, Changes};
use crate::config::{is_default_config, Config};
use crate::ids::SeriesId;
use crate::pending::PendingDatabase;
use crate::queue::Queue;
use crate::remote::RemoteSeriesId;
use crate::remote_map::RemoteMap;
use crate::remotes::{records_applied, records_model, remotes_export_of, RemoteIds, RemotesDatabase, RemotesModel};
use crate::series_db::SeriesDatabase;
use crate::sync::{entry_or_empty, imported, sync_export_of, EntryModel, Export};
use crate::sync::Database as SyncDatabase;
use crate::time::Timestamp;
use crate::watched::{inserted_all, watched_export_of, Watched, WatchedDatabase, WatchedExport, WatchedModel};
use crate::pending::{extended, pending_export_of};

verus! {

broadcast use {vstd::std_specs::hash::group_hash_axioms, vstd::seq_lib::group_seq_properties};

/// Sync state after storing `etag` as the last etag of `id`, and whether
/// that changed it.
pub open spec fn etag_update(m: Map<RemoteSeriesId, EntryModel>, id: RemoteSeriesId, etag: Seq<u8>) -> (
    Map<RemoteSeriesId, EntryModel>,
    bool,
) {
    let cur = entry_or_empty(m, id);
    if cur.etag != Some(etag) {
        (m.insert(id, EntryModel { etag: Some(etag), ..cur }), true)
    } else {
        (m.insert(id, cur), false)
    }
}

/// Sync state after storing `t` as the last modification of `id`, and
/// whether that changed it.
pub open spec fn modified_update(m: Map<RemoteSeriesId, EntryModel>, id: RemoteSeriesId, t: Timestamp) -> (
    Map<RemoteSeriesId, EntryModel>,
    bool,
) {
    let cur = entry_or_empty(m, id);
    (m.insert(id, EntryModel { last_modified: Some(t), ..cur }), cur.last_modified != Some(t))
}

/// Sync state after recording `t` as the last sync of `id`, and whether
/// that changed it.
pub open spec fn sync_update(m: Map<RemoteSeriesId, EntryModel>, id: RemoteSeriesId, t: Timestamp) -> (
    Map<RemoteSeriesId, EntryModel>,
    bool,
) {
    let cur = entry_or_empty(m, id);
    (m.insert(id, EntryModel { last_sync: Some(t), ..cur }), cur.last_sync != Some(t))
}

/// Sync state after recording each last sync of `l` in order, and whether
/// any of that changed it.
pub open spec fn syncs_update(m: Map<RemoteSeriesId, EntryModel>, l: Seq<(RemoteSeriesId, Timestamp)>) -> (
    Map<RemoteSeriesId, EntryModel>,
    bool,
)
    decreases l.len(),
{
    if l.len() == 0 {
        (m, false)
    } else {
        let (m1, c1) = syncs_update(m, l.drop_last());
        let (m2, c2) = sync_update(m1, l.last().0, l.last().1);
        (m2, c1 || c2)
    }
}

/// Sync state after moving what a series read from an older file recorded
/// about its synchronization into the sync database, and whether that
/// changed it: its etag and last modification (when it has a remote
/// identifier), then its last syncs.
pub open spec fn series_migration(m: Map<RemoteSeriesId, EntryModel>, s: Series) -> (
    Map<RemoteSeriesId, EntryModel>,
    bool,
) {
    let (m1, c1) = match (s.remote_id, s.compat_last_etag) {
        (Some(r), Some(e)) => etag_update(m, r, e@),
        _ => (m, false),
    };
    let (m2, c2) = match (s.remote_id, s.compat_last_modified) {
        (Some(r), Some(t)) => modified_update(m1, r, t),
        _ => (m1, false),
    };
    let (m3, c3) = syncs_update(m2, s.compat_last_sync.entries());
    (m3, c1 || c2 || c3)
}

/// `b` is `a` with the synchronization fields of older files taken out.
pub open spec fn migrated(a: Series, b: Series) -> bool {
    &&& b.id == a.id
    &&& b.title == a.title
    &&& b.first_air_date == a.first_air_date
    &&& b.overview == a.overview
    &&& b.compat_poster == a.compat_poster
    &&& b.compat_banner == a.compat_banner
    &&& b.compat_fanart == a.compat_fanart
    &&& b.graphics == a.graphics
    &&& b.receives_updates == a.receives_updates
    &&& b.remote_id == a.remote_id
    &&& b.compat_last_modified == (if a.remote_id is Some {
        None
    } else {
        a.compat_last_modified
    })
    &&& (if a.remote_id is Some {
        b.compat_last_etag is None
    } else {
        b.compat_last_etag == a.compat_last_etag
    })
    &&& b.compat_last_sync.wf()
    &&& b.compat_last_sync@ == Map::<RemoteSeriesId, Timestamp>::empty()
}

/// The sync state after migrating each series of `l` in order, and whether
/// any of that changed it.
pub open spec fn series_list_migration(m: Map<RemoteSeriesId, EntryModel>, l: Seq<Series>) -> (
    Map<RemoteSeriesId, EntryModel>,
    bool,
)
    decreases l.len(),
{
    if l.len() == 0 {
        (m, false)
    } else {
        let (m1, c1) = series_list_migration(m, l.drop_last());
        let (m2, c2) = series_migration(m1, l.last());
        (m2, c1 || c2)
    }
}

/// Whether a series of `l` has the id `id`.
pub open spec fn has_series(l: Seq<Series>, id: SeriesId) -> bool {
    exists|i: int| 0 <= i < l.len() && l[i].id == id
}

/// Whether no series after position `i` of `l` has the id of `l[i]`.
pub open spec fn last_with_id(l: Seq<Series>, i: int) -> bool {
    forall|j: int| i < j < l.len() ==> l[j].id != l[i].id
}

/// A map after inserting each pair of `l` in order, keyed by the bits of
/// the id.
pub open spec fn pairs_inserted<T>(m: Map<u128, T>, l: Seq<(SeriesId, T)>) -> Map<u128, T>
    decreases l.len(),
{
    if l.len() == 0 {
        m
    } else {
        pairs_inserted(m, l.drop_last()).insert(l.last().0.0, l.last().1)
    }
}

/// Storing lists by series keeps each list whole and in the order given: a series gets the list
/// of its last pair, whatever it held before.
pub proof fn lemma_last_list_wins<T>(m: Map<u128, T>, l: Seq<(SeriesId, T)>, k: int)
    requires
        0 <= k < l.len(),
        forall|j: int| k < j < l.len() ==> (#[trigger] l[j]).0 != l[k].0,
    ensures
        pairs_inserted(m, l).contains_key(l[k].0.0),
        pairs_inserted(m, l)[l[k].0.0] == l[k].1,
    decreases l.len(),
{
    if k < l.len() - 1 {
        let j = l.len() - 1;
        assert(l[j].0 != l[k].0);
        assert(l.drop_last()[k] == l[k]);
        assert forall|i: int| k < i < l.drop_last().len() implies (#[trigger] l.drop_last()[i]).0 != l.drop_last()[k].0 by {
            assert(l.drop_last()[i] == l[i]);
        }
        lemma_last_list_wins(m, l.drop_last(), k);
    }
}

/// Storing lists by series leaves a series that no pair names as it was.
pub proof fn lemma_unnamed_series_kept<T>(m: Map<u128, T>, l: Seq<(SeriesId, T)>, id: u128)
    requires
        forall|j: int| 0 <= j < l.len() ==> (#[trigger] l[j]).0.0 != id,
    ensures
        pairs_inserted(m, l).contains_key(id) == m.contains_key(id),
        m.contains_key(id) ==> pairs_inserted(m, l)[id] == m[id],
    decreases l.len(),
{
    if l.len() > 0 {
        assert forall|j: int| 0 <= j < l.drop_last().len() implies (#[trigger] l.drop_last()[j]).0.0 != id by {
            assert(l.drop_last()[j] == l[j]);
        }
        lemma_unnamed_series_kept(m, l.drop_last(), id);
    }
}

/// Everything read from the files of a database, each part absent when
/// its file is.
pub struct LoadData {
    /// The configuration.
    pub config: Option<Config>,
    /// The remote identifiers.
    pub remotes: Option<Vec<RemoteIds>>,
    /// The synchronization state.
    pub sync: Option<Vec<Export>>,
    /// The series, with the position of the file they were read from among
    /// the files where they may be.
    pub series: Option<(usize, Vec<Series>)>,
    /// The watch history.
    pub watched: Option<Vec<Watched>>,
    /// The things to watch next.
    pub pending: Option<Vec<Pending>>,
    /// The episodes of each series.
    pub episodes: Option<Vec<(SeriesId, Vec<Episode>)>>,
    /// The seasons of each series.
    pub seasons: Option<Vec<(SeriesId, Vec<Season>)>>,
}

/// The contents of a list that may be absent.
pub open spec fn opt_seq<T>(o: Option<Vec<T>>) -> Seq<T> {
    match o {
        Some(v) => v@,
        None => Seq::empty(),
    }
}

/// An empty remote database.
pub open spec fn empty_remotes() -> RemotesModel {
    RemotesModel {
        series: Map::empty(),
        movies: Map::empty(),
        episodes: Map::empty(),
        by_series: Map::empty(),
        by_movie: Map::empty(),
    }
}

/// An empty watch history.
pub open spec fn empty_watched() -> WatchedModel {
    WatchedModel { data: Map::empty(), by_episode: Map::empty(), by_series: Map::empty() }
}

/// The series read, if any.
pub open spec fn loaded_series(data: LoadData) -> Seq<Series> {
    match data.series {
        Some((_, l)) => l@,
        None => Seq::empty(),
    }
}

/// Whether the series were read from the first of their files.
pub open spec fn series_from_first(data: LoadData) -> bool {
    match data.series {
        Some((index, _)) => index == 0,
        None => false,
    }
}

/// The sync state and change flag after loading.
pub open spec fn loaded_sync(data: LoadData) -> (Map<RemoteSeriesId, EntryModel>, bool) {
    series_list_migration(imported(Map::empty(), opt_seq(data.sync)), loaded_series(data))
}

/// What is to be written to save the changes of a database. The series,
/// and the episodes and seasons of the added series, are read from the
/// database itself when writing.
pub struct SavePlan {
    /// Whether anything is to be written at all.
    pub write: bool,
    /// The configuration, when it changed.
    pub config: Option<Config>,
    /// The synchronization state, when it changed.
    pub sync: Option<Vec<Export>>,
    /// The watch history, when it changed.
    pub watched: Option<Vec<WatchedExport>>,
    /// The things to watch next, when they changed.
    pub pending: Option<Vec<Pending>>,
    /// Whether the series list changed.
    pub series: bool,
    /// The remote identifiers, when they changed.
    pub remotes: Option<Vec<RemoteIds>>,
    /// Series whose episodes and seasons are to be removed.
    pub remove_series: Vec<SeriesId>,
    /// Series whose episodes and seasons are to be written: those added
    /// that have both.
    pub add_series: Vec<SeriesId>,
}

/// The added series that have both episodes and seasons to write.
pub open spec fn saved_added(
    add: Set<u128>,
    episodes: Map<u128, Vec<Episode>>,
    seasons: Map<u128, Vec<Season>>,
) -> Set<u128> {
    add.filter(|k: u128| episodes.contains_key(k) && seasons.contains_key(k))
}

/// A set with `c` added when `cond` holds.
pub open spec fn with_if(s: Set<Change>, cond: bool, c: Change) -> Set<Change> {
    if cond {
        s.insert(c)
    } else {
        s
    }
}

/// Move the synchronization state that a series from an older file holds
/// into `sync`; returns whether that changed it.
fn migrate_sync(sync: &mut SyncDatabase, s: &mut Series) -> (r: bool)
    requires
        old(sync).wf(),
        old(s).compat_last_sync.wf(),
    ensures
        final(sync).wf(),
        (final(sync).view(), r) == series_migration(old(sync).view(), *old(s)),
        migrated(*old(s), *final(s)),
{
    let ghost m0 = sync.view();
    let ghost s0 = *s;
    let mut c1 = false;
    let mut c2 = false;
    if let Some(remote_id) = s.remote_id {
        let etag = s.compat_last_etag.take();
        if let Some(etag) = etag {
            c1 = sync.update_last_etag(remote_id, Some(etag));
        }
    }
    let ghost m1 = sync.view();
    assert((m1, c1) == (match (s0.remote_id, s0.compat_last_etag) {
        (Some(r), Some(e)) => etag_update(m0, r, e@),
        _ => (m0, false),
    }));
    if let Some(remote_id) = s.remote_id {
        let last_modified = s.compat_last_modified.take();
        if let Some(t) = last_modified {
            c2 = sync.update_last_modified(remote_id, Some(t));
        }
    }
    let ghost m2 = sync.view();
    assert((m2, c2) == (match (s0.remote_id, s0.compat_last_modified) {
        (Some(r), Some(t)) => modified_update(m1, r, t),
        _ => (m1, false),
    }));
    let mut syncs: RemoteMap<Timestamp> = RemoteMap::new();
    std::mem::swap(&mut syncs, &mut s.compat_last_sync);
    let ghost l = syncs.entries();
    let mut c3 = false;
    let mut i: usize = 0;
    assert(l.take(0) =~= Seq::<(RemoteSeriesId, Timestamp)>::empty());
    while i < syncs.len()
        invariant
            sync.wf(),
            l == syncs.entries(),
            i <= l.len(),
            (sync.view(), c3) == syncs_update(m2, l.take(i as int)),
        decreases l.len() - i,
    {
        let (r, t) = syncs.entry(i);
        let changed = sync.import_last_sync(*r, *t);
        proof {
            assert(l.take(i + 1).drop_last() =~= l.take(i as int));
        }
        c3 = c3 || changed;
        i = i + 1;
    }
    assert(l.take(l.len() as int) =~= l);
    assert(s.compat_last_sync@ =~= Map::<RemoteSeriesId, Timestamp>::empty());
    c1 || c2 || c3
}

/// The whole database of the application.
pub struct Database {
    /// Application configuration.
    pub config: Config,
    /// Remotes database.
    pub remotes: RemotesDatabase,
    /// Series database.
    pub series: SeriesDatabase,
    /// Episodes of each series.
    pub episodes: HashMap<u128, Vec<Episode>>,
    /// Seasons of each series.
    pub seasons: HashMap<u128, Vec<Season>>,
    /// Watch history.
    pub watched: WatchedDatabase,
    /// Ordered list of things to watch.
    pub pending: PendingDatabase,
    /// Synchronization state.
    pub sync: SyncDatabase,
    /// Keeping track of changes to be saved.
    pub changes: Changes,
    /// Download queue.
    pub tasks: Queue,
}

impl Database {
    /// The invariants of the parts.
    pub open spec fn wf(&self) -> bool {
        &&& self.remotes.wf()
        &&& self.series.wf()
        &&& self.pending.wf()
        &&& self.sync.wf()
        &&& self.tasks.wf()
    }

    /// An empty database with the default configuration.
    pub fn new() -> (db: Database)
        ensures
            db.wf(),
            is_default_config(db.config),
            db.series.view() == Map::<SeriesId, Series>::empty(),
            db.sync.view() == Map::<RemoteSeriesId, EntryModel>::empty(),
            db.pending.view() == Map::<u128, Pending>::empty(),
            db.episodes@ == Map::<u128, Vec<Episode>>::empty(),
            db.seasons@ == Map::<u128, Vec<Season>>::empty(),
            db.remotes.view() == empty_remotes(),
            db.watched.view() == empty_watched(),
            db.changes.view().set == Set::<Change>::empty(),
            db.changes.view().remove == Set::<u128>::empty(),
            db.changes.view().add == Set::<u128>::empty(),
    {
        let db = Database {
            config: Config::new(),
            remotes: RemotesDatabase::new(),
            series: SeriesDatabase::new(),
            episodes: HashMap::new(),
            seasons: HashMap::new(),
            watched: WatchedDatabase::new(),
            pending: PendingDatabase::new(),
            sync: SyncDatabase::new(),
            changes: Changes::new(),
            tasks: Queue::new(),
        };
        assert(db.remotes.view() == empty_remotes());
        assert(db.watched.view() == empty_watched());
        db
    }

    /// Move what a series read from an older file recorded about its
    /// synchronization into the sync database, marking the sync state
    /// changed when that changed it, and store the series.
    pub fn import_series_one(&mut self, s: Series)
        requires
            old(self).wf(),
            s.compat_last_sync.wf(),
        ensures
            final(self).wf(),
            final(self).sync.view() == series_migration(old(self).sync.view(), s).0,
            final(self).changes.view().set == with_if(
                old(self).changes.view().set,
                series_migration(old(self).sync.view(), s).1,
                Change::Sync,
            ),
            final(self).changes.view().remove == old(self).changes.view().remove,
            final(self).changes.view().add == old(self).changes.view().add,
            final(self).series.view().dom() == old(self).series.view().dom().insert(s.id),
            forall|id: SeriesId|
                id != s.id && #[trigger] final(self).series.view().contains_key(id) ==> final(self).series.view()[id]
                    == old(self).series.view()[id],
            migrated(s, final(self).series.view()[s.id]),
            final(self).remotes == old(self).remotes,
            final(self).pending == old(self).pending,
            final(self).config == old(self).config,
            final(self).episodes == old(self).episodes,
            final(self).seasons == old(self).seasons,
            final(self).watched == old(self).watched,
            final(self).tasks == old(self).tasks,
    {
        let mut s = s;
        let ghost s0 = s;
        let changed = migrate_sync(&mut self.sync, &mut s);
        if changed {
            self.changes.change(Change::Sync);
        }
        let ghost stored = s;
        self.series.insert(s);
        proof {
            assert(self.changes.view().set =~= with_if(
                old(self).changes.view().set,
                series_migration(old(self).sync.view(), s0).1,
                Change::Sync,
            ));
            assert(self.series.view().dom() =~= old(self).series.view().dom().insert(s0.id));
        }
    }

    /// Store each series of a list read from a file, in order, moving the
    /// synchronization state that older files kept with them into the sync
    /// database. The series list is marked changed when it was read from
    /// the first of its files (`first_path`).
    pub fn import_series(&mut self, series: Vec<Series>, first_path: bool)
        requires
            old(self).wf(),
            forall|i: int| 0 <= i < series@.len() ==> (#[trigger] series@[i]).compat_last_sync.wf(),
        ensures
            final(self).wf(),
            final(self).sync.view() == series_list_migration(old(self).sync.view(), series@).0,
            final(self).changes.view().set == with_if(
                with_if(
                    old(self).changes.view().set,
                    series_list_migration(old(self).sync.view(), series@).1,
                    Change::Sync,
                ),
                first_path,
                Change::Series,
            ),
            final(self).changes.view().remove == old(self).changes.view().remove,
            final(self).changes.view().add == old(self).changes.view().add,
            forall|id: SeriesId|
                #[trigger] final(self).series.view().contains_key(id) <==> old(self).series.view().contains_key(id)
                    || has_series(series@, id),
            forall|i: int|
                0 <= i < series@.len() && last_with_id(series@, i) ==> migrated(
                    series@[i],
                    final(self).series.view()[#[trigger] series@[i].id],
                ),
            forall|id: SeriesId|
                old(self).series.view().contains_key(id) && !has_series(series@, id)
                    ==> #[trigger] final(self).series.view()[id] == old(self).series.view()[id],
            final(self).remotes == old(self).remotes,
            final(self).pending == old(self).pending,
            final(self).config == old(self).config,
            final(self).episodes == old(self).episodes,
            final(self).seasons == old(self).seasons,
            final(self).watched == old(self).watched,
            final(self).tasks == old(self).tasks,
    {
        let ghost orig = series@;
        let ghost m0 = self.sync.view();
        let ghost set0 = self.changes.view().set;
        let ghost v0 = self.series.view();
        let mut series = series;
        let n: usize = series.len();
        assert(orig.len() == n);
        let mut i: usize = 0;
        assert(orig.take(0) =~= Seq::<Series>::empty());
        while series.len() > 0
            invariant
                self.wf(),
                series@ == orig.skip(i as int),
                i <= orig.len(),
                orig.len() <= usize::MAX,
                forall|j: int| 0 <= j < orig.len() ==> (#[trigger] orig[j]).compat_last_sync.wf(),
                self.sync.view() == series_list_migration(m0, orig.take(i as int)).0,
                self.changes.view().set == with_if(set0, series_list_migration(m0, orig.take(i as int)).1, Change::Sync),
                self.changes.view().remove == old(self).changes.view().remove,
                self.changes.view().add == old(self).changes.view().add,
                forall|id: SeriesId|
                    #[trigger] self.series.view().contains_key(id) <==> v0.contains_key(id) || has_series(
                        orig.take(i as int),
                        id,
                    ),
                forall|j: int|
                    0 <= j < i && last_with_id(orig.take(i as int), j) ==> migrated(
                        orig[j],
                        self.series.view()[#[trigger] orig[j].id],
                    ),
                forall|id: SeriesId|
                    v0.contains_key(id) && !has_series(orig.take(i as int), id) ==> #[trigger] self.series.view()[id]
                        == v0[id],
                self.remotes == old(self).remotes,
                self.pending == old(self).pending,
                self.config == old(self).config,
                self.episodes == old(self).episodes,
                self.seasons == old(self).seasons,
                self.watched == old(self).watched,
                self.tasks == old(self).tasks,
            decreases series@.len(),
        {
            let s = series.remove(0);
            let ghost prev = self.series.view();
            let ghost pset = self.changes.view().set;
            proof {
                assert(s == orig[i as int]);
                assert(orig.take(i + 1).drop_last() =~= orig.take(i as int));
                assert(orig.take(i + 1).last() == s);
            }
            self.import_series_one(s);
            proof {
                let t = orig.take(i + 1);
                let pt = orig.take(i as int);
                assert(self.changes.view().set =~= with_if(set0, series_list_migration(m0, t).1, Change::Sync));
                assert forall|id: SeriesId| #[trigger] self.series.view().contains_key(id) <==> v0.contains_key(id)
                    || has_series(t, id) by {
                    if has_series(t, id) && id != s.id {
                        let j = choose|j: int| 0 <= j < t.len() && t[j].id == id;
                        assert(j < i);
                        assert(pt[j] == t[j]);
                    }
                    if has_series(pt, id) {
                        let j = choose|j: int| 0 <= j < pt.len() && pt[j].id == id;
                        assert(t[j] == pt[j]);
                    }
                    if id == s.id {
                        assert(t[i as int].id == id);
                    }
                }
                assert forall|j: int| 0 <= j < i + 1 && last_with_id(t, j) implies migrated(
                    orig[j],
                    self.series.view()[#[trigger] orig[j].id],
                ) by {
                    if j < i {
                        assert(t[i as int] == s);
                        assert(s.id != orig[j].id);
                        assert forall|k: int| j < k < pt.len() implies pt[k].id != pt[j].id by {
                            assert(pt[k] == t[k] && pt[j] == t[j]);
                        }
                        assert(last_with_id(pt, j));
                        assert(migrated(orig[j], prev[orig[j].id]));
                        assert(pt[j] == orig[j]);
                        assert(has_series(pt, orig[j].id));
                        assert(prev.contains_key(orig[j].id));
                        assert(self.series.view().contains_key(orig[j].id));
                        assert(self.series.view()[orig[j].id] == prev[orig[j].id]);
                    }
                }
                assert forall|id: SeriesId| v0.contains_key(id) && !has_series(t, id) implies #[trigger] self.series.view()[id]
                    == v0[id] by {
                    assert(t[i as int].id == s.id);
                    if has_series(pt, id) {
                        let j = choose|j: int| 0 <= j < pt.len() && pt[j].id == id;
                        assert(t[j] == pt[j]);
                    }
                    assert(id != s.id);
                    assert(prev.contains_key(id));
                    assert(self.series.view().contains_key(id));
                    assert(self.series.view()[id] == prev[id]);
                }
            }
            i = i + 1;
            proof {
                assert(series@ =~= orig.skip(i as int));
            }
        }
        assert(orig.take(i as int) =~= orig);
        if first_path {
            self.changes.change(Change::Series);
        }
    }

    /// Store the episodes of each series, in order.
    pub fn import_episodes(&mut self, list: Vec<(SeriesId, Vec<Episode>)>)
        ensures
            final(self).episodes@ == pairs_inserted(old(self).episodes@, list@),
            final(self).seasons == old(self).seasons,
            final(self).series == old(self).series,
            final(self).remotes == old(self).remotes,
            final(self).sync == old(self).sync,
            final(self).pending == old(self).pending,
            final(self).tasks == old(self).tasks,
            final(self).changes == old(self).changes,
            final(self).config == old(self).config,
            final(self).watched == old(self).watched,
    {
        let ghost orig = list@;
        let mut list = list;
        let n: usize = list.len();
        assert(orig.len() == n);
        let mut i: usize = 0;
        assert(orig.take(0) =~= Seq::<(SeriesId, Vec<Episode>)>::empty());
        while list.len() > 0
            invariant
                list@ == orig.skip(i as int),
                i <= orig.len(),
                orig.len() <= usize::MAX,
                self.episodes@ == pairs_inserted(old(self).episodes@, orig.take(i as int)),
                self.seasons == old(self).seasons,
                self.series == old(self).series,
                self.remotes == old(self).remotes,
                self.sync == old(self).sync,
                self.pending == old(self).pending,
                self.tasks == old(self).tasks,
                self.changes == old(self).changes,
                self.config == old(self).config,
                self.watched == old(self).watched,
            decreases list@.len(),
        {
            let (id, episodes) = list.remove(0);
            proof {
                assert((id, episodes) == orig[i as int]);
                assert(orig.take(i + 1).drop_last() =~= orig.take(i as int));
            }
            self.episodes.insert(id.0, episodes);
            i = i + 1;
            proof {
                assert(list@ =~= orig.skip(i as int));
            }
        }
        assert(orig.take(i as int) =~= orig);
    }

    /// Store the seasons of each series, in order.
    pub fn import_seasons(&mut self, list: Vec<(SeriesId, Vec<Season>)>)
        ensures
            final(self).seasons@ == pairs_inserted(old(self).seasons@, list@),
            final(self).episodes == old(self).episodes,
            final(self).series == old(self).series,
            final(self).remotes == old(self).remotes,
            final(self).sync == old(self).sync,
            final(self).pending == old(self).pending,
            final(self).tasks == old(self).tasks,
            final(self).changes == old(self).changes,
            final(self).config == old(self).config,
            final(self).watched == old(self).watched,
    {
        let ghost orig = list@;
        let mut list = list;
        let n: usize = list.len();
        assert(orig.len() == n);
        let mut i: usize = 0;
        assert(orig.take(0) =~= Seq::<(SeriesId, Vec<Season>)>::empty());
        while list.len() > 0
            invariant
                list@ == orig.skip(i as int),
                i <= orig.len(),
                orig.len() <= usize::MAX,
                self.seasons@ == pairs_inserted(old(self).seasons@, orig.take(i as int)),
                self.episodes == old(self).episodes,
                self.series == old(self).series,
                self.remotes == old(self).remotes,
                self.sync == old(self).sync,
                self.pending == old(self).pending,
                self.tasks == old(self).tasks,
                self.changes == old(self).changes,
                self.config == old(self).config,
                self.watched == old(self).watched,
            decreases list@.len(),
        {
            let (id, seasons) = list.remove(0);
            proof {
                assert((id, seasons) == orig[i as int]);
                assert(orig.take(i + 1).drop_last() =~= orig.take(i as int));
            }
            self.seasons.insert(id.0, seasons);
            i = i + 1;
            proof {
                assert(list@ =~= orig.skip(i as int));
            }
        }
        assert(orig.take(i as int) =~= orig);
    }

    /// Build the database from what its files held.
    pub fn load(data: LoadData) -> (db: Database)
        requires
            forall|i: int|
                0 <= i < loaded_series(data).len() ==> (#[trigger] loaded_series(data)[i]).compat_last_sync.wf(),
        ensures
            db.wf(),
            match data.config {
                Some(c) => db.config == c,
                None => is_default_config(db.config),
            },
            db.remotes.view() == records_applied(empty_remotes(), records_model(opt_seq(data.remotes))),
            db.sync.view() == loaded_sync(data).0,
            db.changes.view().set == with_if(
                with_if(Set::<Change>::empty(), loaded_sync(data).1, Change::Sync),
                series_from_first(data),
                Change::Series,
            ),
            db.changes.view().remove == Set::<u128>::empty(),
            db.changes.view().add == Set::<u128>::empty(),
            forall|id: SeriesId| #[trigger] db.series.view().contains_key(id) <==> has_series(loaded_series(data), id),
            forall|i: int|
                0 <= i < loaded_series(data).len() && last_with_id(loaded_series(data), i) ==> migrated(
                    loaded_series(data)[i],
                    db.series.view()[#[trigger] loaded_series(data)[i].id],
                ),
            db.watched.view() == inserted_all(empty_watched(), opt_seq(data.watched)),
            db.pending.view() == extended(Map::empty(), opt_seq(data.pending)),
            db.episodes@ == pairs_inserted(Map::empty(), opt_seq(data.episodes)),
            db.seasons@ == pairs_inserted(Map::empty(), opt_seq(data.seasons)),
    {
        let ghost d = data;
        let mut db = Database::new();
        let LoadData { config, remotes, sync, series, watched, pending, episodes, seasons } = data;
        if let Some(config) = config {
            db.config = config;
        }
        match remotes {
            Some(remotes) => db.remotes.import(remotes),
            None => {},
        }
        match sync {
            Some(sync) => db.sync.import(sync),
            None => {},
        }
        assert(db.sync.view() == imported(Map::empty(), opt_seq(d.sync)));
        assert(db.changes.view().set =~= Set::<Change>::empty());
        match series {
            Some((index, series)) => db.import_series(series, index == 0),
            None => {},
        }
        proof {
            if d.series is None {
                assert(db.changes.view().set =~= with_if(
                    with_if(Set::<Change>::empty(), loaded_sync(d).1, Change::Sync),
                    series_from_first(d),
                    Change::Series,
                ));
            }
        }
        match watched {
            Some(watched) => db.watched.import(watched),
            None => {
                assert(opt_seq(d.watched).len() == 0);
                assert(inserted_all(empty_watched(), opt_seq(d.watched)) == empty_watched());
            },
        }
        match pending {
            Some(pending) => db.pending.extend(pending),
            None => {},
        }
        match episodes {
            Some(episodes) => db.import_episodes(episodes),
            None => {
                assert(opt_seq(d.episodes).len() == 0);
                assert(db.episodes@ =~= pairs_inserted(Map::empty(), opt_seq(d.episodes)));
            },
        }
        match seasons {
            Some(seasons) => db.import_seasons(seasons),
            None => {
                assert(opt_seq(d.seasons).len() == 0);
                assert(db.seasons@ =~= pairs_inserted(Map::empty(), opt_seq(d.seasons)));
            },
        }
        db
    }

    /// Take the pending changes and gather what saving them writes. When
    /// `do_not_save` holds, the changes are still taken but nothing is to
    /// be written.
    pub fn save_changes(&mut self, do_not_save: bool) -> (plan: SavePlan)
        requires
            old(self).wf(),
        ensures
            final(self).wf(),
            final(self).changes.view().set == Set::<Change>::empty(),
            final(self).changes.view().remove == Set::<u128>::empty(),
            final(self).changes.view().add == Set::<u128>::empty(),
            final(self).config == old(self).config,
            final(self).remotes == old(self).remotes,
            final(self).series == old(self).series,
            final(self).episodes == old(self).episodes,
            final(self).seasons == old(self).seasons,
            final(self).watched == old(self).watched,
            final(self).pending == old(self).pending,
            final(self).sync == old(self).sync,
            final(self).tasks == old(self).tasks,
            plan.write == !do_not_save,
            plan.config == (if old(self).changes.view().set.contains(Change::Config) {
                Some(old(self).config)
            } else {
                None
            }),
            match plan.sync {
                Some(v) => old(self).changes.view().set.contains(Change::Sync) && sync_export_of(
                    old(self).sync.view(),
                    v@,
                ),
                None => !old(self).changes.view().set.contains(Change::Sync),
            },
            match plan.watched {
                Some(v) => old(self).changes.view().set.contains(Change::Watched) && watched_export_of(
                    old(self).watched.view().data,
                    old(self).episodes@,
                    v@,
                ),
                None => !old(self).changes.view().set.contains(Change::Watched),
            },
            match plan.pending {
                Some(v) => old(self).changes.view().set.contains(Change::Pending) && pending_export_of(
                    old(self).pending.view(),
                    v@,
                ),
                None => !old(self).changes.view().set.contains(Change::Pending),
            },
            plan.series == old(self).changes.view().set.contains(Change::Series),
            match plan.remotes {
                Some(v) => old(self).changes.view().set.contains(Change::Remotes) && remotes_export_of(
                    old(self).remotes.view(),
                    records_model(v@),
                ),
                None => !old(self).changes.view().set.contains(Change::Remotes),
            },
            id_bits(plan.remove_series@).to_set() == old(self).changes.view().remove,
            id_bits(plan.remove_series@).no_duplicates(),
            id_bits(plan.add_series@).to_set() == saved_added(
                old(self).changes.view().add,
                old(self).episodes@,
                old(self).seasons@,
            ),
            id_bits(plan.add_series@).no_duplicates(),
    {
        let changes = self.changes.take();
        let config = if changes.contains(Change::Config) {
            Some(self.config.clone())
        } else {
            None
        };
        let sync = if changes.contains(Change::Sync) {
            Some(self.sync.export())
        } else {
            None
        };
        let watched = if changes.contains(Change::Watched) {
            Some(self.watched.export(&self.episodes))
        } else {
            None
        };
        let pending = if changes.contains(Change::Pending) {
            Some(self.pending.export())
        } else {
            None
        };
        let series = changes.contains(Change::Series);
        let remotes = if changes.contains(Change::Remotes) {
            Some(self.remotes.export())
        } else {
            None
        };
        let remove_series = changes.removed();
        let added = changes.added();
        let ghost want = saved_added(changes.view().add, self.episodes@, self.seasons@);
        let mut add_series: Vec<SeriesId> = Vec::new();
        let mut i: usize = 0;
        while i < added.len()
            invariant
                i <= added@.len(),
                id_bits(added@).to_set() == changes.view().add,
                id_bits(added@).no_duplicates(),
                forall|a: int| 0 <= a < add_series@.len() ==> id_bits(added@.take(i as int)).contains(#[trigger] id_bits(add_series@)[a]),
                forall|a: int| 0 <= a < add_series@.len() ==> want.contains(#[trigger] id_bits(add_series@)[a]),
                forall|j: int| 0 <= j < i && want.contains(#[trigger] id_bits(added@)[j]) ==> id_bits(add_series@).contains(id_bits(added@)[j]),
                id_bits(add_series@).no_duplicates(),
                want == saved_added(changes.view().add, self.episodes@, self.seasons@),
            decreases added@.len() - i,
        {
            let id = added[i];
            proof {
                assert(id_bits(added@)[i as int] == id.0);
                assert(id_bits(added@).contains(id.0));
                assert(changes.view().add.contains(id.0));
            }
            if self.episodes.contains_key(&id.0) && self.seasons.contains_key(&id.0) {
                proof {
                    let before = id_bits(add_series@);
                    assert(id_bits(add_series@.push(id)) =~= before.push(id.0));
                    assert(!before.contains(id.0)) by {
                        if before.contains(id.0) {
                            let a = choose|a: int| 0 <= a < before.len() && before[a] == id.0;
                            assert(id_bits(added@.take(i as int)).contains(before[a]));
                            let j = choose|j: int| 0 <= j < i && id_bits(added@.take(i as int))[j] == id.0;
                            assert(id_bits(added@)[j] == id.0);
                        }
                    }
                }
                add_series.push(id);
            }
            proof {
                let n = id_bits(add_series@);
                assert forall|a: int| 0 <= a < add_series@.len() implies id_bits(added@.take(i + 1)).contains(#[trigger] n[a]) by {
                    if id_bits(added@.take(i as int)).contains(n[a]) {
                        let j = choose|j: int| 0 <= j < i && id_bits(added@.take(i as int))[j] == n[a];
                        assert(id_bits(added@.take(i + 1))[j] == n[a]);
                    } else {
                        assert(id_bits(added@.take(i + 1))[i as int] == n[a]);
                    }
                }
            }
            i = i + 1;
        }
        proof {
            let n = id_bits(add_series@);
            assert(added@.take(i as int) =~= added@);
            assert(n.to_set() =~= want) by {
                assert forall|k: u128| n.to_set().contains(k) implies want.contains(k) by {
                    let a = choose|a: int| 0 <= a < n.len() && n[a] == k;
                }
                assert forall|k: u128| want.contains(k) implies n.to_set().contains(k) by {
                    assert(id_bits(added@).to_set().contains(k));
                    let j = choose|j: int| 0 <= j < id_bits(added@).len() && id_bits(added@)[j] == k;
                }
            }
        }
        SavePlan {
            write: !do_not_save,
            config,
            sync,
            watched,
            pending,
            series,
            remotes,
            remove_series,
            add_series,
        }
    }
}

} // verus!
