use ontv::catalog::{Episode, EpisodeGraphics, Pending};
use ontv::changes::{Change, Changes};
use ontv::credentials::{cached_token, Credentials, EXPIRATION_SECONDS};
use ontv::database::Database;
use ontv::display::{duration_display, episode_title, format_month, paginate, week, Weekday};
use ontv::error_info::{ErrorId, ErrorInfo};
use ontv::etag::Etag;
use ontv::format::{record_lines, trim_text, Format};
use ontv::history::{series_page, History, HistoryMutations, Page};
use ontv::ids::{EpisodeId, SeriesId, TaskId};
use ontv::import::{
    import_watch_history, plan_watches, trakt_remote_ids, ImportError, TraktEpisode, TraktIds,
    TraktSeason,
};
use ontv::pending::PendingDatabase;
use ontv::queue::{Queue, TaskKind, TaskStatus, DELAY_MILLIS};
use ontv::remote::RemoteSeriesId;
use ontv::season::SeasonNumber;
use ontv::sync::Database as SyncDatabase;
use ontv::time::{Date, Timestamp};
use ontv::watched::{Watched, WatchedDatabase, WatchedKind};
use ontv::ids::WatchedId;

fn episode(id: u128, season: SeasonNumber, number: u32, name: Option<&str>) -> Episode {
    Episode {
        id: EpisodeId(id),
        name: name.map(|n| n.to_string()),
        overview: String::new(),
        absolute_number: None,
        season,
        number,
        aired: None,
        compat_filename: None,
        graphics: EpisodeGraphics { filename: None },
        remote_id: None,
    }
}

#[test]
fn durations() {
    assert_eq!(duration_display(0), "right now");
    assert_eq!(duration_display(30), "< one minute ago");
    assert_eq!(duration_display(60), "one minute ago");
    assert_eq!(duration_display(120), "2 minutes ago");
    assert_eq!(duration_display(-59), "< one minute");
    assert_eq!(duration_display(-60), "in one minute");
    assert_eq!(duration_display(-600), "in 10 minutes");
}

#[test]
fn months_weeks_and_pages() {
    assert_eq!(format_month(1), "Jan");
    assert_eq!(format_month(11), "Nov");
    assert_eq!(format_month(13), "Dec");
    assert_eq!(week(Weekday::Sun)[0], Weekday::Sun);
    assert_eq!(week(Weekday::Sun)[1], Weekday::Mon);
    assert!(paginate(0, 5).is_none());
    let p = paginate(0, 12).unwrap();
    assert_eq!((p.prev, p.next), (None, Some(1)));
    assert_eq!(p.text, "0-5 (12)");
    let p = paginate(2, 12).unwrap();
    assert_eq!((p.prev, p.next), (Some(1), None));
    assert_eq!(p.text, "10-12 (12)");
}

#[test]
fn episode_titles() {
    let mut e = episode(1, SeasonNumber::Number(2), 3, Some("Pilot"));
    assert_eq!(episode_title(&e), "2x3: Pilot");
    e.absolute_number = Some(15);
    assert_eq!(episode_title(&e), "2x3 (15): Pilot");
    let s = episode(2, SeasonNumber::Specials, 1, None);
    assert_eq!(episode_title(&s), "Special 1");
    assert_eq!(ontv::dashboard::scheduled_episode_name(&s), "Sx1");
    assert_eq!(ontv::dashboard::scheduled_episode_name(&e), "2x3 Pilot");
}

#[test]
fn episode_air_times() {
    let mut e = episode(1, SeasonNumber::Number(1), 1, None);
    assert!(!e.has_aired(&Date { days: 737425 }));
    // 2020-01-01.
    e.aired = Some(Date { days: 737425 });
    assert!(e.has_aired(&Date { days: 737425 }));
    assert!(!e.has_aired(&Date { days: 737424 }));
    assert_eq!(e.aired_timestamp(), Some(Timestamp { millis: 1_577_880_000_000 }));
}

#[test]
fn formats_and_arrays() {
    assert_eq!(Format::from_path("series.json"), Some(Format::Json));
    assert_eq!(Format::from_path("dir/remotes.yaml"), Some(Format::Yaml));
    assert_eq!(Format::from_path("config.toml"), None);
    assert_eq!(Format::from_path("noext"), None);
    let mut out = String::new();
    let mut array = Format::Json.start_array();
    array.serialize_item("{\"a\":1}", &mut out);
    array.serialize_item("{\"a\":2}", &mut out);
    assert_eq!(out, "{\"a\":1}\n{\"a\":2}\n");
    assert!(array.finish().is_ok());
    let mut out = String::new();
    let mut array = Format::Yaml.start_array();
    array.serialize_item("a: 1\n", &mut out);
    array.serialize_item("a: 2\n", &mut out);
    assert_eq!(out, "a: 1\n---\na: 2\n");
}

#[test]
fn record_line_selection() {
    let lines = vec![
        "  {\"a\":1} ".to_string(),
        "".to_string(),
        "   ".to_string(),
        "# comment".to_string(),
        "\t{\"a\":2}".to_string(),
    ];
    assert_eq!(record_lines(&lines), vec!["{\"a\":1}".to_string(), "{\"a\":2}".to_string()]);
    assert_eq!(trim_text("\u{3000} x y \n"), "x y");
}

#[test]
fn credentials_expire_after_an_hour() {
    let c = Credentials::new("token".to_string()).unwrap();
    assert_eq!(c.token, "token");
    let hour = EXPIRATION_SECONDS as u128 * 1000;
    assert_eq!(hour, 3_600_000);
    assert!(c.is_expired_at(0));
    assert!(c.is_expired_at(hour - 1));
    assert!(!c.is_expired_at(hour));
    // Just obtained: the test holds now.
    assert!(c.is_expired());
    let cached = Some(c);
    assert_eq!(cached_token(&cached, hour), Some("token".to_string()));
    assert_eq!(cached_token(&cached, 5), None);
    assert_eq!(cached_token(&None, hour), None);
}

#[test]
fn error_info_text() {
    let e = ErrorInfo::internal(
        None,
        "failed".to_string(),
        vec!["io".to_string(), "disk".to_string()],
        Timestamp { millis: 0 },
    );
    assert_eq!(e.to_string(), "failed\ncaused by: io\ncaused by: disk");
    let e = ErrorInfo::new(ErrorId::Search(5), "x".to_string(), Vec::new(), Timestamp { millis: 1 });
    assert_eq!(e.id, Some(ErrorId::Search(5)));
    assert_eq!(e.to_string(), "x");
}

#[test]
fn history_navigation() {
    let mut history: History<u32> = History::new(0);
    assert_eq!(history.page(), Some(&Page::Dashboard));
    let mut m = HistoryMutations::new();
    assert!(!m.has_any());
    m.push_history(Page::SeriesList);
    assert!(m.has_any());
    let r = history.apply_mutation(&mut m, 5).cloned();
    assert_eq!(r, Some((Page::SeriesList, 5)));
    assert!(!m.has_any());
    m.navigate(-1);
    assert_eq!(history.apply_mutation(&mut m, 0).cloned(), Some((Page::Dashboard, 0)));
    m.navigate(1);
    assert_eq!(history.apply_mutation(&mut m, 0).cloned(), Some((Page::SeriesList, 5)));
    m.navigate(-5);
    m.push_history(series_page(SeriesId(3)));
    history.apply_mutation(&mut m, 0);
    m.navigate(1);
    assert_eq!(history.apply_mutation(&mut m, 9).map(|p| p.0.clone()), Some(series_page(SeriesId(3))));
    assert_eq!(history.apply_mutation(&mut m, 0), None);
}

#[test]
fn queue_runs_due_tasks_in_order() {
    let mut q = Queue::new();
    let now = Timestamp { millis: 0 };
    let remote_id = RemoteSeriesId::Tvdb { id: 1 };
    q.push(&now, TaskKind::CheckForUpdates { series_id: SeriesId(1), remote_id, last_modified: None });
    // The same series is claimed already: nothing is pushed.
    q.push(&now, TaskKind::DownloadSeriesByRemoteId { remote_id });
    assert_eq!(q.pending().len(), 1);
    assert!(q.take_modified());
    assert!(!q.take_modified());
    assert!(q.next_task(&now, None).is_none());
    let (sleep, id) = q.next_sleep(&now).unwrap();
    assert_eq!(sleep, (DELAY_MILLIS / 1000) as u64);
    let due = Timestamp { millis: DELAY_MILLIS };
    let task = q.next_task(&due, None).unwrap();
    assert_eq!(task.id, id);
    assert_eq!(q.running().len(), 1);
    assert_eq!(q.complete(&due, task), Some(TaskStatus::Running));
    assert_eq!(q.completed().len(), 1);
    assert!(q.push_without_delay(TaskKind::DownloadSeriesByRemoteId { remote_id }));
    let task = q.next_task(&now, None).unwrap();
    assert_eq!(q.complete(&now, task), Some(TaskStatus::Running));
    assert_eq!(q.complete(&now, task), None);
    let _ = TaskId(0);
}

#[test]
fn pending_in_time_order() {
    let mut db = PendingDatabase::new();
    let p = |s: u128, e: u128, t: i64| Pending {
        series: SeriesId(s),
        episode: EpisodeId(e),
        timestamp: Timestamp { millis: t },
    };
    db.insert(p(1, 10, 300));
    db.insert(p(2, 20, 100));
    db.insert(p(3, 30, 200));
    db.insert(p(1, 11, 50));
    let order: Vec<u128> = db.iter().iter().map(|p| p.series.0).collect();
    assert_eq!(order, vec![1, 2, 3]);
    assert_eq!(db.get(&SeriesId(1)).unwrap().episode, EpisodeId(11));
    assert_eq!(db.remove_series(&SeriesId(2)).unwrap().episode, EpisodeId(20));
    assert!(db.get(&SeriesId(2)).is_none());
    assert_eq!(db.export().len(), 2);
}

#[test]
fn changes_track_series() {
    let mut changes = Changes::new();
    assert!(!changes.has_changes());
    changes.change(Change::Watched);
    assert!(changes.contains(Change::Watched));
    assert!(!changes.contains(Change::Config));
    changes.add_series(&SeriesId(1));
    changes.remove_series(&SeriesId(2));
    assert_eq!(changes.added(), vec![SeriesId(1)]);
    assert_eq!(changes.removed(), vec![SeriesId(2)]);
    let taken = changes.take();
    assert!(taken.has_changes());
    assert!(!changes.has_changes());
}

#[test]
fn sync_state_per_remote() {
    let mut db = SyncDatabase::new();
    let id = RemoteSeriesId::Tmdb { id: 5 };
    let now = Timestamp { millis: 10 };
    assert!(db.series_update_sync(id, now, Some(Timestamp { millis: 3 })));
    assert!(!db.series_update_sync(id, now, Some(Timestamp { millis: 3 })));
    assert_eq!(db.last_sync(&id), Some(now));
    assert_eq!(db.last_modified(&id), Some(Timestamp { millis: 3 }));
    assert!(db.update_last_etag(id, Some(Etag::new(b"e1"))));
    assert!(!db.update_last_etag(id, Some(Etag::new(b"e1"))));
    assert!(db.last_etag(&id).unwrap().same(&Etag::new(b"e1")));
    let export = db.export();
    assert_eq!(export.len(), 1);
    let mut other = SyncDatabase::new();
    other.import(export);
    assert_eq!(other.last_sync(&id), Some(now));
    db.clear();
    assert_eq!(db.last_sync(&id), None);
}

#[test]
fn watched_history_indexes() {
    let mut db = WatchedDatabase::new();
    let w = |id: u128, s: u128, e: u128| Watched {
        id: WatchedId(id),
        timestamp: Timestamp { millis: id as i64 },
        kind: WatchedKind::Series { series: SeriesId(s), episode: EpisodeId(e) },
    };
    db.insert(w(1, 1, 10));
    db.insert(w(2, 1, 11));
    db.insert(w(3, 2, 20));
    assert_eq!(db.by_series(&SeriesId(1)).len(), 2);
    assert_eq!(db.by_episode(&EpisodeId(11))[0].id, WatchedId(2));
    assert_eq!(db.remove_by_episode(&EpisodeId(10)), 1);
    assert_eq!(db.by_series(&SeriesId(1)).len(), 1);
    db.remove_by_series(&SeriesId(1));
    assert!(db.by_episode(&EpisodeId(11)).is_empty());
    assert_eq!(db.remove_watch(&WatchedId(3)).map(|w| w.id), Some(WatchedId(3)));
    assert!(db.by_series(&SeriesId(2)).is_empty());
}

fn trakt_season(number: u32, episodes: &[(u32, i64)]) -> TraktSeason {
    TraktSeason {
        number,
        episodes: episodes
            .iter()
            .map(|&(n, t)| TraktEpisode { number: n, last_watched_at: Timestamp { millis: t } })
            .collect(),
    }
}

#[test]
fn trakt_identifiers() {
    let ids = TraktIds { imdb: "tt0944947".to_string(), tmdb: 1399, tvdb: 121361 };
    let remote = trakt_remote_ids(&ids).unwrap();
    assert_eq!(remote[0], RemoteSeriesId::Tvdb { id: 121361 });
    assert_eq!(remote[1], RemoteSeriesId::Tmdb { id: 1399 });
    assert_eq!(remote[2].to_string(), "imdb:tt0944947");
    let long = TraktIds { imdb: "tt012345678901234".to_string(), tmdb: 1, tvdb: 1 };
    assert_eq!(trakt_remote_ids(&long).err(), Some(ImportError::ImdbId));
}

#[test]
fn trakt_plan_skips_watched_and_repeats() {
    let episodes = vec![
        episode(10, SeasonNumber::Number(1), 1, None),
        episode(11, SeasonNumber::Number(1), 2, None),
        episode(12, SeasonNumber::Specials, 1, None),
    ];
    let mut watched = WatchedDatabase::new();
    watched.insert(Watched {
        id: WatchedId(1),
        timestamp: Timestamp { millis: 0 },
        kind: WatchedKind::Series { series: SeriesId(1), episode: EpisodeId(10) },
    });
    let seasons = vec![trakt_season(1, &[(1, 5), (2, 6), (2, 7), (9, 8)])];
    let plan = plan_watches(&episodes, &watched, &seasons);
    assert_eq!(plan.len(), 1);
    assert_eq!(plan[0].0, EpisodeId(11));
    assert_eq!(plan[0].1, Timestamp { millis: 6 });
}

#[test]
fn trakt_import_into_database() {
    let mut db = Database::new();
    let series_id = SeriesId(1);
    db.episodes.insert(
        1,
        vec![
            episode(10, SeasonNumber::Number(1), 1, None),
            episode(11, SeasonNumber::Number(1), 2, None),
        ],
    );
    let seasons = vec![trakt_season(1, &[(1, 5), (2, 6)])];
    assert!(import_watch_history(&mut db, &series_id, &seasons, false));
    assert_eq!(db.watched.by_series(&series_id).len(), 2);
    assert!(db.changes.contains(Change::Watched));
    // Importing again records nothing more.
    assert!(!import_watch_history(&mut db, &series_id, &seasons, false));
    assert_eq!(db.watched.by_series(&series_id).len(), 2);
    // Replacing the history records it anew.
    assert!(import_watch_history(&mut db, &series_id, &seasons, true));
    assert_eq!(db.watched.by_series(&series_id).len(), 2);
}
