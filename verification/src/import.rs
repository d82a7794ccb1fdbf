use vstd::prelude::*;
use vstd::utf8::encode_utf8;

use crate::catalog::Episode;
use crate::changes::Change;
use crate::database::Database;
use crate::ids::{EpisodeId, SeriesId, WatchedId};
use crate::raw::{zero_padded, Raw};
use crate::remote::RemoteSeriesId;
use crate::season::SeasonNumber;
use crate::time::Timestamp;
use crate::watched::{
    drop_series_watches, episode_of, inserted, inserted_all, lemma_insert_keeps_wf,
    lookup_until_missing, watched_wf, Watched, WatchedDatabase, WatchedKind, WatchedModel,
};

verus! {

/// An episode in an exported trakt.tv watch history.
#[derive(Clone, Copy, Debug)]
pub struct TraktEpisode {
    /// The number of the episode in its season.
    pub number: u32,
    /// When it was last watched.
    pub last_watched_at: Timestamp,
}

/// A season in an exported trakt.tv watch history.
#[derive(Clone, Debug)]
pub struct TraktSeason {
    pub number: u32,
    pub episodes: Vec<TraktEpisode>,
}

/// The identifiers of a show in an exported trakt.tv watch history.
#[derive(Clone, Debug)]
pub struct TraktIds {
    pub imdb: String,
    pub tmdb: u32,
    pub tvdb: u32,
}

/// Why a show of an exported history cannot be imported.
#[derive(Clone, Copy, Debug, PartialEq, Eq, Structural)]
pub enum ImportError {
    /// The imdb identifier is longer than 16 bytes.
    ImdbId,
}

/// Whether `v` are the remote identifiers of the show: thetvdb.com, then themoviedb.org, then
/// imdb.com, whose identifier is its UTF-8 text padded with zeros to 16 bytes.
pub open spec fn trakt_ids_are(v: Seq<RemoteSeriesId>, ids: TraktIds) -> bool {
    &&& v.len() == 3
    &&& v[0] == (RemoteSeriesId::Tvdb { id: ids.tvdb })
    &&& v[1] == (RemoteSeriesId::Tmdb { id: ids.tmdb })
    &&& v[2] matches RemoteSeriesId::Imdb { id }
    &&& id@ == zero_padded(encode_utf8(ids.imdb@), 16)
}

/// The remote identifiers of a show: thetvdb.com, then themoviedb.org, then imdb.com; the
/// imdb.com identifier is its UTF-8 text padded with zeros to 16 bytes.
pub fn trakt_remote_ids(ids: &TraktIds) -> (r: Result<Vec<RemoteSeriesId>, ImportError>)
    ensures
        encode_utf8(ids.imdb@).len() <= 16 <==> r is Ok,
        r matches Ok(v) ==> trakt_ids_are(v@, *ids),
        r matches Err(e) ==> e == ImportError::ImdbId,
{
    let imdb = match Raw::<16>::new(ids.imdb.as_str().as_bytes()) {
        Some(raw) => raw,
        None => return Err(ImportError::ImdbId),
    };
    let mut v: Vec<RemoteSeriesId> = Vec::new();
    v.push(RemoteSeriesId::Tvdb { id: ids.tvdb });
    v.push(RemoteSeriesId::Tmdb { id: ids.tmdb });
    v.push(RemoteSeriesId::Imdb { id: imdb });
    Ok(v)
}

/// The watches of an exported history, in order: season number, episode number, time.
pub open spec fn season_items(season: TraktSeason) -> Seq<(u32, u32, Timestamp)> {
    Seq::new(
        season.episodes@.len(),
        |i: int| (season.number, season.episodes@[i].number, season.episodes@[i].last_watched_at),
    )
}

/// All watches of an exported history, season after season.
pub open spec fn history_items(seasons: Seq<TraktSeason>) -> Seq<(u32, u32, Timestamp)>
    decreases seasons.len(),
{
    if seasons.len() == 0 {
        Seq::empty()
    } else {
        history_items(seasons.drop_last()) + season_items(seasons.last())
    }
}

/// The first episode with the given season and number.
pub open spec fn find_episode(episodes: Seq<Episode>, season: u32, number: u32) -> Option<Episode>
    decreases episodes.len(),
{
    if episodes.len() == 0 {
        None
    } else if episodes[0].season == SeasonNumber::Number(season) && episodes[0].number == number {
        Some(episodes[0])
    } else {
        find_episode(episodes.drop_first(), season, number)
    }
}

/// Whether the history holds a watch of the episode.
pub open spec fn has_watches(m: WatchedModel, episode: u128) -> bool {
    m.by_episode.contains_key(episode) && lookup_until_missing(m.data, m.by_episode[episode]).len()
        > 0
}

/// Whether an episode is already among the planned watches.
pub open spec fn planned_has(plan: Seq<(EpisodeId, Timestamp)>, id: EpisodeId) -> bool {
    exists|i: int| 0 <= i < plan.len() && #[trigger] plan[i].0 == id
}

/// The watches to record from the given items, in order: each item whose episode is found and
/// has no watch yet, neither in the history nor earlier in the plan.
pub open spec fn planned_watches(
    items: Seq<(u32, u32, Timestamp)>,
    episodes: Seq<Episode>,
    m: WatchedModel,
) -> Seq<(EpisodeId, Timestamp)>
    decreases items.len(),
{
    if items.len() == 0 {
        Seq::empty()
    } else {
        let plan = planned_watches(items.drop_last(), episodes, m);
        let (season, number, at) = items.last();
        match find_episode(episodes, season, number) {
            None => plan,
            Some(e) => if has_watches(m, e.id.0) || planned_has(plan, e.id) {
                plan
            } else {
                plan.push((e.id, at))
            },
        }
    }
}

/// The watch records for a plan of a series, with the given identifiers.
pub open spec fn plan_records(
    series: SeriesId,
    plan: Seq<(EpisodeId, Timestamp)>,
    ids: Seq<WatchedId>,
) -> Seq<Watched> {
    Seq::new(
        plan.len(),
        |i: int|
            Watched {
                id: ids[i],
                timestamp: plan[i].1,
                kind: WatchedKind::Series { series, episode: plan[i].0 },
            },
    )
}

proof fn lemma_find_episode_skip(episodes: Seq<Episode>, season: u32, number: u32, i: int)
    requires
        0 <= i < episodes.len(),
        !(episodes[i].season == SeasonNumber::Number(season) && episodes[i].number == number),
    ensures
        find_episode(episodes.skip(i), season, number) == find_episode(
            episodes.skip(i + 1),
            season,
            number,
        ),
{
    assert(episodes.skip(i).drop_first() =~= episodes.skip(i + 1));
}

/// Finds the first episode with the given season and number.
fn episode_by_number(episodes: &Vec<Episode>, season: u32, number: u32) -> (r: Option<EpisodeId>)
    ensures
        r == (match find_episode(episodes@, season, number) {
            Some(e) => Some(e.id),
            None => None,
        }),
{
    let mut i: usize = 0;
    assert(episodes@.skip(0) =~= episodes@);
    while i < episodes.len()
        invariant
            i <= episodes.len(),
            find_episode(episodes@.skip(i as int), season, number) == find_episode(
                episodes@,
                season,
                number,
            ),
        decreases episodes.len() - i,
    {
        let e = &episodes[i];
        let same_season = match e.season {
            SeasonNumber::Number(n) => n == season,
            SeasonNumber::Specials => false,
        };
        if same_season && e.number == number {
            assert(episodes@.skip(i as int)[0] == episodes@[i as int]);
            return Some(e.id);
        }
        proof {
            lemma_find_episode_skip(episodes@, season, number, i as int);
        }
        i = i + 1;
    }
    assert(episodes@.skip(i as int).len() == 0);
    None
}

/// Whether the plan holds the episode.
fn plan_contains(plan: &Vec<(EpisodeId, Timestamp)>, id: EpisodeId) -> (r: bool)
    ensures
        r == planned_has(plan@, id),
{
    let mut i: usize = 0;
    while i < plan.len()
        invariant
            i <= plan.len(),
            forall|j: int| 0 <= j < i ==> plan@[j].0 != id,
        decreases plan.len() - i,
    {
        if plan[i].0 == id {
            return true;
        }
        i = i + 1;
    }
    false
}

/// The watches to record for an exported history of a series with the given episodes: each
/// watched episode that is found by season and number and has no watch yet, once.
pub fn plan_watches(
    episodes: &Vec<Episode>,
    watched: &WatchedDatabase,
    seasons: &Vec<TraktSeason>,
) -> (plan: Vec<(EpisodeId, Timestamp)>)
    ensures
        plan@ == planned_watches(history_items(seasons@), episodes@, watched.view()),
{
    let ghost m = watched.view();
    let mut plan: Vec<(EpisodeId, Timestamp)> = Vec::new();
    let mut i: usize = 0;
    assert(seasons@.take(0) =~= Seq::<TraktSeason>::empty());
    while i < seasons.len()
        invariant
            i <= seasons.len(),
            m == watched.view(),
            plan@ == planned_watches(history_items(seasons@.take(i as int)), episodes@, m),
        decreases seasons.len() - i,
    {
        let season = &seasons[i];
        let ghost done = history_items(seasons@.take(i as int));
        proof {
            assert(seasons@.take(i + 1).drop_last() =~= seasons@.take(i as int));
        }
        let mut j: usize = 0;
        while j < season.episodes.len()
            invariant
                i < seasons.len(),
                *season == seasons@[i as int],
                j <= season.episodes.len(),
                m == watched.view(),
                done == history_items(seasons@.take(i as int)),
                plan@ == planned_watches(
                    done + season_items(*season).take(j as int),
                    episodes@,
                    m,
                ),
            decreases season.episodes.len() - j,
        {
            let item = season.episodes[j];
            let ghost items = done + season_items(*season).take(j as int);
            proof {
                assert((done + season_items(*season).take(j + 1)).drop_last() =~= items);
                assert((done + season_items(*season).take(j + 1)).last() == (
                    season.number,
                    item.number,
                    item.last_watched_at,
                ));
            }
            match episode_by_number(episodes, season.number, item.number) {
                None => {},
                Some(id) => {
                    let seen = watched.by_episode(&id).len() > 0;
                    if !seen && !plan_contains(&plan, id) {
                        plan.push((id, item.last_watched_at));
                    }
                },
            }
            j = j + 1;
        }
        assert(season_items(*season).take(j as int) =~= season_items(*season));
        i = i + 1;
    }
    assert(seasons@.take(i as int) =~= seasons@);
    plan
}

/// The watch history of a series after an exported history was imported: with `remove`, its
/// earlier watches are dropped first; then each planned watch is recorded.
pub open spec fn history_before_import(m: WatchedModel, series: SeriesId, remove: bool) -> WatchedModel {
    if remove && m.by_series.contains_key(series.0) {
        drop_series_watches(
            WatchedModel { by_series: m.by_series.remove(series.0), ..m },
            m.by_series[series.0],
        )
    } else {
        m
    }
}

/// The episodes of a series, in order.
pub open spec fn series_episodes(episodes: Map<u128, Vec<Episode>>, series: SeriesId) -> Seq<Episode> {
    if episodes.contains_key(series.0) {
        episodes[series.0]@
    } else {
        Seq::empty()
    }
}

/// The watches that importing an exported history of a series records, in order.
pub open spec fn import_plan(
    m: WatchedModel,
    episodes: Map<u128, Vec<Episode>>,
    series: SeriesId,
    seasons: Seq<TraktSeason>,
    remove: bool,
) -> Seq<(EpisodeId, Timestamp)> {
    planned_watches(
        history_items(seasons),
        series_episodes(episodes, series),
        history_before_import(m, series, remove),
    )
}

/// Imports the exported watch history of a series: with `remove`, its earlier watches are dropped
/// first; then each episode of the history that is found by season and number and has no watch
/// yet is recorded as watched at the time given, under a fresh random identifier. Returns whether
/// any watch was recorded.
pub fn import_watch_history(
    db: &mut Database,
    series_id: &SeriesId,
    seasons: &Vec<TraktSeason>,
    remove: bool,
) -> (any: bool)
    ensures
        any == (import_plan(
            old(db).watched.view(),
            old(db).episodes@,
            *series_id,
            seasons@,
            remove,
        ).len() > 0),
        exists|ids: Seq<WatchedId>|
            ids.len() == import_plan(
                old(db).watched.view(),
                old(db).episodes@,
                *series_id,
                seasons@,
                remove,
            ).len() && final(db).watched.view() == inserted_all(
                history_before_import(old(db).watched.view(), *series_id, remove),
                #[trigger] plan_records(
                    *series_id,
                    import_plan(old(db).watched.view(), old(db).episodes@, *series_id, seasons@, remove),
                    ids,
                ),
            ),
        final(db).config == old(db).config,
        final(db).remotes == old(db).remotes,
        final(db).series == old(db).series,
        final(db).episodes == old(db).episodes,
        final(db).seasons == old(db).seasons,
        final(db).pending == old(db).pending,
        final(db).sync == old(db).sync,
        final(db).tasks == old(db).tasks,
        (remove || any) ==> final(db).changes.view().set == old(db).changes.view().set.insert(
            Change::Watched,
        ),
        !(remove || any) ==> final(db).changes.view().set == old(db).changes.view().set,
        final(db).changes.view().add == old(db).changes.view().add,
        final(db).changes.view().remove == old(db).changes.view().remove,
{
    if remove {
        db.watched.remove_by_series(series_id);
        db.changes.change(Change::Watched);
    }
    assert(db.watched.view() == history_before_import(old(db).watched.view(), *series_id, remove));
    let empty: Vec<Episode> = Vec::new();
    let episodes = match db.episodes.get(&series_id.0) {
        Some(list) => list,
        None => &empty,
    };
    assert(episodes@ == (if old(db).episodes@.contains_key(series_id.0) {
        old(db).episodes@[series_id.0]@
    } else {
        Seq::<Episode>::empty()
    }));
    let plan = plan_watches(episodes, &db.watched, seasons);
    let ghost m0 = db.watched.view();
    let mut records: Vec<Watched> = Vec::new();
    let ghost mut ids: Seq<WatchedId> = Seq::empty();
    let mut i: usize = 0;
    while i < plan.len()
        invariant
            i <= plan.len(),
            ids.len() == i,
            records@ == plan_records(*series_id, plan@.take(i as int), ids),
        decreases plan.len() - i,
    {
        let id = WatchedId::random();
        let (episode, at) = plan[i];
        records.push(
            Watched { id, timestamp: at, kind: WatchedKind::Series { series: *series_id, episode } },
        );
        proof {
            ids = ids.push(id);
            assert(records@ =~= plan_records(*series_id, plan@.take(i + 1), ids));
        }
        i = i + 1;
    }
    assert(plan@.take(i as int) =~= plan@);
    let any = records.len() > 0;
    db.watched.import(records);
    if any {
        db.changes.change(Change::Watched);
    }
    proof {
        let full = import_plan(old(db).watched.view(), old(db).episodes@, *series_id, seasons@, remove);
        assert(plan@ == full);
        assert(ids.len() == full.len());
        assert(db.watched.view() == inserted_all(
            history_before_import(old(db).watched.view(), *series_id, remove),
            plan_records(*series_id, full, ids),
        ));
    }
    any
}

/// An import plans no watch for an episode that already has one, and plans each episode at most
/// once.
pub proof fn lemma_plan_fresh(
    items: Seq<(u32, u32, Timestamp)>,
    episodes: Seq<Episode>,
    m: WatchedModel,
)
    ensures
        forall|i: int|
            0 <= i < planned_watches(items, episodes, m).len() ==> !has_watches(
                m,
                #[trigger] planned_watches(items, episodes, m)[i].0.0,
            ),
        forall|i: int, j: int|
            0 <= i < j < planned_watches(items, episodes, m).len() ==> #[trigger] planned_watches(
                items,
                episodes,
                m,
            )[i].0 != #[trigger] planned_watches(items, episodes, m)[j].0,
    decreases items.len(),
{
    if items.len() > 0 {
        lemma_plan_fresh(items.drop_last(), episodes, m);
        let plan = planned_watches(items.drop_last(), episodes, m);
        let full = planned_watches(items, episodes, m);
        let (season, number, at) = items.last();
        match find_episode(episodes, season, number) {
            None => {},
            Some(e) => {
                if !(has_watches(m, e.id.0) || planned_has(plan, e.id)) {
                    assert(full == plan.push((e.id, at)));
                    assert forall|i: int, j: int| 0 <= i < j < full.len() implies full[i].0
                        != full[j].0 by {
                        if j == plan.len() {
                            assert(full[i] == plan[i]);
                            if plan[i].0 == e.id {
                                assert(planned_has(plan, e.id));
                            }
                        } else {
                            assert(full[i] == plan[i]);
                            assert(full[j] == plan[j]);
                        }
                    }
                    assert forall|i: int| 0 <= i < full.len() implies !has_watches(
                        m,
                        full[i].0.0,
                    ) by {
                        if i < plan.len() {
                            assert(full[i] == plan[i]);
                        }
                    }
                }
            },
        }
    }
}

proof fn lemma_has_watches_wf(m: WatchedModel, e: u128)
    requires
        watched_wf(m),
    ensures
        has_watches(m, e) <==> m.by_episode.contains_key(e),
{
    if m.by_episode.contains_key(e) {
        let l = m.by_episode[e];
        assert(l.len() > 0);
        assert(m.data.contains_key(l[0]));
        assert(lookup_until_missing(m.data, l).len() > 0);
    }
}

proof fn lemma_inserted_all_fresh(m: WatchedModel, recs: Seq<Watched>)
    requires
        watched_wf(m),
        forall|j: int| 0 <= j < recs.len() ==> !m.data.contains_key(#[trigger] recs[j].id),
        forall|i: int, j: int| 0 <= i < j < recs.len() ==> #[trigger] recs[i].id != #[trigger] recs[j].id,
    ensures
        watched_wf(inserted_all(m, recs)),
        forall|id: WatchedId|
            #[trigger] inserted_all(m, recs).data.contains_key(id) ==> m.data.contains_key(id)
                || exists|j: int| 0 <= j < recs.len() && recs[j].id == id,
        forall|e: u128| #[trigger] m.by_episode.contains_key(e) ==> inserted_all(m, recs).by_episode.contains_key(e),
        forall|j: int|
            0 <= j < recs.len() ==> inserted_all(m, recs).by_episode.contains_key(episode_of(#[trigger] recs[j])),
    decreases recs.len(),
{
    if recs.len() > 0 {
        let p = recs.drop_last();
        let n = recs.len() - 1;
        let w = recs[n];
        assert(recs.last() == w);
        assert forall|j: int| 0 <= j < p.len() implies !m.data.contains_key(#[trigger] p[j].id) by {
            assert(p[j] == recs[j]);
        }
        assert forall|i: int, j: int| 0 <= i < j < p.len() implies #[trigger] p[i].id != #[trigger] p[j].id by {
            assert(p[i] == recs[i] && p[j] == recs[j]);
        }
        lemma_inserted_all_fresh(m, p);
        let mp = inserted_all(m, p);
        assert(!mp.data.contains_key(w.id)) by {
            if mp.data.contains_key(w.id) {
                if !m.data.contains_key(w.id) {
                    let j = choose|j: int| 0 <= j < p.len() && p[j].id == w.id;
                    assert(p[j] == recs[j]);
                }
            }
        }
        lemma_insert_keeps_wf(mp, w);
        assert(inserted_all(m, recs) == inserted(mp, w));
        assert forall|id: WatchedId| #[trigger] inserted_all(m, recs).data.contains_key(id) implies m.data.contains_key(id)
            || exists|j: int| 0 <= j < recs.len() && recs[j].id == id by {
            if id != w.id && !m.data.contains_key(id) {
                assert(mp.data.contains_key(id));
                let j = choose|j: int| 0 <= j < p.len() && p[j].id == id;
                assert(p[j] == recs[j]);
            }
        }
        assert forall|j: int| 0 <= j < recs.len() implies inserted_all(m, recs).by_episode.contains_key(
            episode_of(#[trigger] recs[j]),
        ) by {
            if j < n {
                assert(p[j] == recs[j]);
                assert(mp.by_episode.contains_key(episode_of(p[j])));
            }
        }
    }
}

proof fn lemma_planned_covers(items: Seq<(u32, u32, Timestamp)>, episodes: Seq<Episode>, m: WatchedModel, i: int)
    requires
        0 <= i < items.len(),
        find_episode(episodes, items[i].0, items[i].1) is Some,
        !has_watches(m, find_episode(episodes, items[i].0, items[i].1).unwrap().id.0),
    ensures
        planned_has(
            planned_watches(items, episodes, m),
            find_episode(episodes, items[i].0, items[i].1).unwrap().id,
        ),
    decreases items.len(),
{
    let p = items.drop_last();
    let plan = planned_watches(p, episodes, m);
    let full = planned_watches(items, episodes, m);
    let id = find_episode(episodes, items[i].0, items[i].1).unwrap().id;
    assert forall|k: int| 0 <= k < plan.len() implies #[trigger] full[k] == plan[k] by {
        let (season, number, at) = items.last();
        match find_episode(episodes, season, number) {
            None => {},
            Some(e) => {
                if !(has_watches(m, e.id.0) || planned_has(plan, e.id)) {
                    assert(full == plan.push((e.id, at)));
                }
            },
        }
    }
    if i < items.len() - 1 {
        assert(p[i] == items[i]);
        lemma_planned_covers(p, episodes, m, i);
        let k = choose|k: int| 0 <= k < plan.len() && #[trigger] plan[k].0 == id;
        assert(full[k] == plan[k]);
    } else {
        assert(items.last() == items[i]);
        if !planned_has(plan, id) {
            assert(full == plan.push((id, items[i].2)));
            assert(full[plan.len() as int].0 == id);
        } else {
            let k = choose|k: int| 0 <= k < plan.len() && #[trigger] plan[k].0 == id;
            assert(full[k] == plan[k]);
        }
    }
}

proof fn lemma_plan_empty(items: Seq<(u32, u32, Timestamp)>, episodes: Seq<Episode>, m: WatchedModel)
    requires
        forall|i: int|
            0 <= i < items.len() && (#[trigger] find_episode(episodes, items[i].0, items[i].1)) is Some
                ==> has_watches(m, find_episode(episodes, items[i].0, items[i].1).unwrap().id.0),
    ensures
        planned_watches(items, episodes, m).len() == 0,
    decreases items.len(),
{
    if items.len() > 0 {
        let p = items.drop_last();
        assert forall|i: int|
            0 <= i < p.len() && (#[trigger] find_episode(episodes, p[i].0, p[i].1)) is Some implies has_watches(
            m,
            find_episode(episodes, p[i].0, p[i].1).unwrap().id.0,
        ) by {
            assert(p[i] == items[i]);
        }
        lemma_plan_empty(p, episodes, m);
        let n = items.len() - 1;
        assert(items.last() == items[n]);
        if find_episode(episodes, items[n].0, items[n].1) is Some {
            assert(has_watches(m, find_episode(episodes, items[n].0, items[n].1).unwrap().id.0));
        }
    }
}

/// Importing the same history a second time records nothing, as long as the watches recorded the
/// first time got identifiers new to the history and to each other.
pub proof fn lemma_import_again_records_nothing(
    items: Seq<(u32, u32, Timestamp)>,
    episodes: Seq<Episode>,
    m: WatchedModel,
    series: SeriesId,
    ids: Seq<WatchedId>,
)
    requires
        watched_wf(m),
        ids.len() == planned_watches(items, episodes, m).len(),
        forall|j: int| 0 <= j < ids.len() ==> !m.data.contains_key(#[trigger] ids[j]),
        forall|i: int, j: int| 0 <= i < j < ids.len() ==> #[trigger] ids[i] != #[trigger] ids[j],
    ensures
        planned_watches(
            items,
            episodes,
            inserted_all(m, plan_records(series, planned_watches(items, episodes, m), ids)),
        ).len() == 0,
{
    let plan = planned_watches(items, episodes, m);
    let recs = plan_records(series, plan, ids);
    assert forall|j: int| 0 <= j < recs.len() implies !m.data.contains_key(#[trigger] recs[j].id) by {
        assert(recs[j].id == ids[j]);
    }
    assert forall|i: int, j: int| 0 <= i < j < recs.len() implies #[trigger] recs[i].id != #[trigger] recs[j].id by {
        assert(recs[i].id == ids[i] && recs[j].id == ids[j]);
    }
    lemma_inserted_all_fresh(m, recs);
    let m1 = inserted_all(m, recs);
    assert forall|i: int|
        0 <= i < items.len() && (#[trigger] find_episode(episodes, items[i].0, items[i].1)) is Some
            implies has_watches(m1, find_episode(episodes, items[i].0, items[i].1).unwrap().id.0) by {
        let e = find_episode(episodes, items[i].0, items[i].1).unwrap();
        lemma_has_watches_wf(m1, e.id.0);
        lemma_has_watches_wf(m, e.id.0);
        if !has_watches(m, e.id.0) {
            lemma_planned_covers(items, episodes, m, i);
            let k = choose|k: int| 0 <= k < plan.len() && #[trigger] plan[k].0 == e.id;
            assert(episode_of(recs[k]) == e.id.0);
        }
    }
    lemma_plan_empty(items, episodes, m1);
}

} // verus!

verus! {

/// Whether the planned watch `p` records episode `q` of the list for watch `j` of season `s` of an
/// exported history: the episode has that season's number and that watch's episode number, and
/// the watch is recorded at the time it was last watched.
pub open spec fn records_history_watch(
    seasons: Seq<TraktSeason>,
    episodes: Seq<Episode>,
    p: (EpisodeId, Timestamp),
    s: int,
    j: int,
    q: int,
) -> bool {
    &&& 0 <= s < seasons.len()
    &&& 0 <= j < seasons[s].episodes@.len()
    &&& 0 <= q < episodes.len()
    &&& episodes[q].id == p.0
    &&& episodes[q].season == SeasonNumber::Number(seasons[s].number)
    &&& episodes[q].number == seasons[s].episodes@[j].number
    &&& p.1 == seasons[s].episodes@[j].last_watched_at
}

/// An episode found by season and number is an episode of the list with that season and number.
pub proof fn lemma_find_episode_in(episodes: Seq<Episode>, season: u32, number: u32)
    ensures
        find_episode(episodes, season, number) matches Some(e) ==> exists|q: int|
            0 <= q < episodes.len() && #[trigger] episodes[q] == e && e.season == SeasonNumber::Number(season)
                && e.number == number,
    decreases episodes.len(),
{
    if episodes.len() > 0 {
        lemma_find_episode_in(episodes.drop_first(), season, number);
        if !(episodes[0].season == SeasonNumber::Number(season) && episodes[0].number == number) {
            if find_episode(episodes, season, number) is Some {
                let e = find_episode(episodes, season, number).unwrap();
                let q = choose|q: int|
                    0 <= q < episodes.drop_first().len() && #[trigger] episodes.drop_first()[q] == e;
                assert(episodes[q + 1] == e);
            }
        }
    }
}

/// The item of the history that planned watch `k` comes from: one whose episode is found, is the
/// planned episode, and whose time the watch takes.
proof fn lemma_planned_from_item(
    items: Seq<(u32, u32, Timestamp)>,
    episodes: Seq<Episode>,
    m: WatchedModel,
    k: int,
) -> (i: int)
    requires
        0 <= k < planned_watches(items, episodes, m).len(),
    ensures
        0 <= i < items.len(),
        find_episode(episodes, items[i].0, items[i].1) is Some,
        find_episode(episodes, items[i].0, items[i].1).unwrap().id == planned_watches(items, episodes, m)[k].0,
        planned_watches(items, episodes, m)[k].1 == items[i].2,
    decreases items.len(),
{
    let q = items.drop_last();
    let plan = planned_watches(q, episodes, m);
    let full = planned_watches(items, episodes, m);
    if k < plan.len() {
        assert(full[k] == plan[k]);
        let i = lemma_planned_from_item(q, episodes, m, k);
        assert(items[i] == q[i]);
        i
    } else {
        let n = items.len() - 1;
        assert(items[n] == items.last());
        n
    }
}

/// Whether an item of an exported history is watch `j` of season `s`.
pub open spec fn is_history_watch(seasons: Seq<TraktSeason>, x: (u32, u32, Timestamp), s: int, j: int) -> bool {
    &&& 0 <= s < seasons.len()
    &&& 0 <= j < seasons[s].episodes@.len()
    &&& x == (seasons[s].number, seasons[s].episodes@[j].number, seasons[s].episodes@[j].last_watched_at)
}

/// The season and watch of an exported history that item `i` of its items is.
proof fn lemma_history_item_from(seasons: Seq<TraktSeason>, i: int) -> (w: (int, int))
    requires
        0 <= i < history_items(seasons).len(),
    ensures
        is_history_watch(seasons, history_items(seasons)[i], w.0, w.1),
    decreases seasons.len(),
{
    let q = seasons.drop_last();
    let h = history_items(seasons);
    let before = history_items(q);
    let last = season_items(seasons.last());
    if i < before.len() {
        assert(h[i] == before[i]);
        let (s, j) = lemma_history_item_from(q, i);
        assert(seasons[s] == q[s]);
        (s, j)
    } else {
        let j = i - before.len();
        let s = seasons.len() - 1;
        assert(h[i] == last[j]);
        assert(seasons[s] == seasons.last());
        (s, j)
    }
}

/// Every watch that an import plans is of an episode of the series whose season and episode
/// number are those of a watch of the exported history, recorded at the time of that watch:
/// planned watch `k` is watch `j` of season `s` of the history, of episode `q` of the list.
pub proof fn lemma_plan_follows_history(
    seasons: Seq<TraktSeason>,
    episodes: Seq<Episode>,
    m: WatchedModel,
    k: int,
) -> (w: (int, int, int))
    requires
        0 <= k < planned_watches(history_items(seasons), episodes, m).len(),
    ensures
        records_history_watch(seasons, episodes, planned_watches(history_items(seasons), episodes, m)[k], w.0, w.1, w.2),
{
    let items = history_items(seasons);
    let plan = planned_watches(items, episodes, m);
    let i = lemma_planned_from_item(items, episodes, m, k);
    let (s, j) = lemma_history_item_from(seasons, i);
    lemma_find_episode_in(episodes, items[i].0, items[i].1);
    let e = find_episode(episodes, items[i].0, items[i].1).unwrap();
    let q = choose|q: int|
        0 <= q < episodes.len() && #[trigger] episodes[q] == e && e.season == SeasonNumber::Number(items[i].0)
            && e.number == items[i].1;
    assert(records_history_watch(seasons, episodes, plan[k], s, j, q));
    (s, j, q)
}

/// The place in the items of an exported history of watch `j` of season `s`.
proof fn lemma_history_item_at(seasons: Seq<TraktSeason>, s: int, j: int) -> (i: int)
    requires
        0 <= s < seasons.len(),
        0 <= j < seasons[s].episodes@.len(),
    ensures
        0 <= i < history_items(seasons).len(),
        history_items(seasons)[i] == (seasons[s].number, seasons[s].episodes@[j].number, seasons[s].episodes@[j].last_watched_at),
    decreases seasons.len(),
{
    let q = seasons.drop_last();
    let before = history_items(q);
    let last = season_items(seasons.last());
    if s == seasons.len() - 1 {
        assert(seasons[s] == seasons.last());
        let i = before.len() + j;
        assert(history_items(seasons)[i] == last[j]);
        i
    } else {
        assert(seasons[s] == q[s]);
        let i = lemma_history_item_at(q, s, j);
        assert(history_items(seasons)[i] == before[i]);
        i
    }
}

/// Every watch of an exported history whose episode the series has, by season and episode
/// number, and that has no watch yet, is planned.
pub proof fn lemma_history_watches_planned(
    seasons: Seq<TraktSeason>,
    episodes: Seq<Episode>,
    m: WatchedModel,
    s: int,
    j: int,
)
    requires
        0 <= s < seasons.len(),
        0 <= j < seasons[s].episodes@.len(),
        find_episode(episodes, seasons[s].number, seasons[s].episodes@[j].number) is Some,
        !has_watches(m, find_episode(episodes, seasons[s].number, seasons[s].episodes@[j].number).unwrap().id.0),
    ensures
        planned_has(
            planned_watches(history_items(seasons), episodes, m),
            find_episode(episodes, seasons[s].number, seasons[s].episodes@[j].number).unwrap().id,
        ),
{
    let i = lemma_history_item_at(seasons, s, j);
    lemma_planned_covers(history_items(seasons), episodes, m, i);
}

} // verus!
