use ontv::application::{task_action, title, SaveAction, SaveState, TaskAction};
use ontv::assets::{Assets, ImageHint, ImageKey, IMAGE_BATCH};
use ontv::calendar::{Calendar, CalendarMessage};
use ontv::catalog::{Movie, Series, SeriesGraphics};
use ontv::config::{Config, SearchKind};
use ontv::dashboard::{adjust_dashboard, day_label, DashboardAction};
use ontv::display::Weekday;
use ontv::history::{movie_page, season_page, series_page, Page, SearchState};
use ontv::ids::{MovieId, SeriesId};
use ontv::queue::TaskKind;
use ontv::remote::{RemoteMovieId, RemoteSeriesId};
use ontv::remote_map::RemoteMap;
use ontv::search::{page_window, start_search};
use ontv::season::{ImageHash, SeasonNumber};
use ontv::series_db::SeriesDatabase;
use ontv::time::Date;
use ontv::catalog::Pending;
use ontv::changes::Change;
use ontv::config::ThemeType;
use ontv::dashboard::newest_aired_pending;
use ontv::database::Database;
use ontv::ids::EpisodeId;
use ontv::settings::{update_settings, SettingsMessage};
use ontv::time::Timestamp;
use ontv::application::{download_etag, leaves_page};
use ontv::component::Component;
use ontv::etag::Etag;
use ontv::ids::WatchedId;
use ontv::image::ImageV2;
use ontv::pages::{season_episode_ids, season_posters};
use ontv::remove_watch::{self, RemoveWatch};
use ontv::series_actions::{self, SeriesAction, SeriesActions};
use ontv::sync::Database as SyncDatabase;

fn series(id: u128, title: &str) -> Series {
    Series {
        id: SeriesId(id),
        title: title.to_string(),
        first_air_date: None,
        overview: String::new(),
        compat_poster: None,
        compat_banner: None,
        compat_fanart: None,
        graphics: SeriesGraphics::new(),
        receives_updates: true,
        compat_last_modified: None,
        compat_last_etag: None,
        compat_last_sync: RemoteMap::new(),
        remote_id: None,
    }
}

#[test]
fn window_title_per_page() {
    let mut db = SeriesDatabase::new();
    db.insert(series(1, "Severance"));
    let movies = vec![Movie { id: MovieId(9), title: "Heat".to_string(), remote_id: None }];
    assert_eq!(title(None, &db, &movies, 0), "OnTV");
    assert_eq!(title(Some(&Page::Dashboard), &db, &movies, 0), "OnTV - Dashboard");
    assert_eq!(title(Some(&Page::SeriesList), &db, &movies, 0), "OnTV - Series overview");
    assert_eq!(title(Some(&series_page(SeriesId(1))), &db, &movies, 0), "OnTV - Severance");
    assert_eq!(title(Some(&series_page(SeriesId(2))), &db, &movies, 0), "OnTV");
    assert_eq!(title(Some(&movie_page(MovieId(9))), &db, &movies, 0), "OnTV - Heat");
    assert_eq!(
        title(Some(&season_page(SeriesId(1), SeasonNumber::Number(2))), &db, &movies, 0),
        "OnTV - Severance - Season 2"
    );
    assert_eq!(
        title(Some(&season_page(SeriesId(1), SeasonNumber::Specials)), &db, &movies, 0),
        "OnTV - Severance - Specials"
    );
    assert_eq!(title(Some(&Page::Errors), &db, &movies, 3), "OnTV - Errors (3)");
}

#[test]
fn close_with_scheduled_save_saves_first() {
    let mut state = SaveState::new();
    assert!(state.after_update(true));
    assert!(state.save_scheduled);
    assert_eq!(state.close_requested(), SaveAction::CancelScheduled);
    assert_eq!(state.save_timer(false), SaveAction::StartSave);
    assert!(state.saving);
    assert!(!state.after_update(true));
    assert_eq!(state.saved(), SaveAction::CloseWindow);
    assert!(!state.saving);
}

#[test]
fn close_without_pending_save_closes() {
    let mut state = SaveState::new();
    assert!(!state.after_update(false));
    assert_eq!(state.close_requested(), SaveAction::CloseWindow);
    assert!(state.exit_after_save);
}

#[test]
fn cancelled_timer_without_close_does_nothing() {
    let mut state = SaveState::new();
    state.after_update(true);
    assert_eq!(state.save_timer(false), SaveAction::Nothing);
    assert!(state.save_scheduled);
    assert_eq!(state.save_timer(true), SaveAction::StartSave);
    assert_eq!(state.saved(), SaveAction::Nothing);
}

#[test]
fn task_actions() {
    let remote_id = RemoteSeriesId::Tmdb { id: 1 };
    let check = TaskKind::CheckForUpdates { series_id: SeriesId(1), remote_id, last_modified: None };
    assert_eq!(task_action(&check, false), TaskAction::CheckForUpdates);
    let by_remote = TaskKind::DownloadSeriesByRemoteId { remote_id };
    assert_eq!(task_action(&by_remote, true), TaskAction::Complete);
    assert_eq!(task_action(&by_remote, false), TaskAction::DownloadSeries);
    let movie = TaskKind::DownloadMovieByRemoteId { remote_id: RemoteMovieId::Tmdb { id: 3 } };
    assert_eq!(task_action(&movie, false), TaskAction::Complete);
}

fn key(id: u128) -> ImageKey {
    ImageKey { id: ImageHash(id), hint: None }
}

#[test]
fn assets_commit_and_load() {
    let mut assets = Assets::new();
    assets.mark(&[ImageHash(1), ImageHash(2)]);
    assert!(assets.commit().is_empty());
    assert_eq!(assets.next_image(), Some(key(1)));
    assets.insert_images(&[key(1)]);
    assert!(assets.contains(&key(1)));
    assert_eq!(assets.next_image(), Some(key(2)));
    assert_eq!(assets.next_image(), None);
}

#[test]
fn assets_clear_drops_unmarked() {
    let mut assets = Assets::new();
    assets.insert_images(&[key(1), key(2)]);
    assets.clear();
    assert!(assets.is_cleared());
    assets.mark(&[ImageHash(2), ImageHash(3)]);
    let dropped = assets.commit();
    assert_eq!(dropped, vec![key(1)]);
    assert!(!assets.contains(&key(1)));
    assert!(assets.contains(&key(2)));
    assert!(!assets.is_cleared());
    assert_eq!(assets.next_batch(IMAGE_BATCH), vec![key(3)]);
}

#[test]
fn assets_batch_skips_loaded() {
    let mut assets = Assets::new();
    let hint = ImageHint::Fill(100, 200);
    assets.mark_with_hint(&[ImageHash(1), ImageHash(2), ImageHash(3)], hint);
    assets.commit();
    let k2 = ImageKey { id: ImageHash(2), hint: Some(hint) };
    assets.insert_images(&[k2]);
    let batch = assets.next_batch(5);
    assert_eq!(batch.len(), 2);
    assert_eq!(batch[1].id, ImageHash(3));
    assert_eq!(hint.to_string(), "fill-100x200");
    assert_eq!(ImageHint::Fit(3, 4).to_string(), "fit-3x4");
}

#[test]
fn calendar_spans_weeks_of_month() {
    // 2024-02-14, a Wednesday, counted from 0001-01-01 as day 1.
    let mut c = Calendar::new(Date { days: 738930 }, Weekday::Sun);
    assert_eq!(c.month, Date { days: 738917 });
    assert_eq!(c.first, Date { days: 738913 });
    assert_eq!(c.last, Date { days: 738947 });
    assert_eq!(c.days().len(), 35);
    c.update(CalendarMessage::PrevMonth);
    assert_eq!(c.month, Date { days: 738886 });
    assert_eq!(c.first, Date { days: 738885 });
    assert_eq!(c.last, Date { days: 738919 });
    assert_eq!(c.date, Date { days: 738930 });
    c.update(CalendarMessage::NextMonth);
    c.update(CalendarMessage::NextMonth);
    assert_eq!(c.month, Date { days: 738946 });
    assert_eq!(c.first, Date { days: 738941 });
    assert_eq!(c.last, Date { days: 738982 });
    c.update(CalendarMessage::PickDay(Date { days: 738930 }));
    assert_eq!(c.month, Date { days: 738917 });
}

#[test]
fn dashboard_resizing() {
    let mut config = Config::new();
    adjust_dashboard(&mut config, DashboardAction::ShowMorePending);
    assert_eq!(config.dashboard_limit, 2);
    adjust_dashboard(&mut config, DashboardAction::ShowLessPending);
    adjust_dashboard(&mut config, DashboardAction::ShowLessPending);
    assert_eq!(config.dashboard_limit, 1);
    adjust_dashboard(&mut config, DashboardAction::IncrementPage);
    assert_eq!(config.dashboard_page, 7);
    adjust_dashboard(&mut config, DashboardAction::DecrementPage);
    assert_eq!(config.dashboard_page, 6);
    config.dashboard_limit = 4;
    config.dashboard_page = 1;
    adjust_dashboard(&mut config, DashboardAction::DecrementPage);
    assert_eq!(config.dashboard_page, 1);
    adjust_dashboard(&mut config, DashboardAction::ResetPending);
    assert_eq!((config.dashboard_limit, config.dashboard_page), (1, 6));
    assert_eq!(day_label(0), Some("Today"));
    assert_eq!(day_label(1), Some("Tomorrow"));
    assert_eq!(day_label(2), None);
}

#[test]
fn starting_a_search() {
    let mut state = SearchState {
        text: String::new(),
        series_page: 3,
        movies_page: 1,
        search_id: 7,
        kind: SearchKind::Tvdb,
    };
    assert!(start_search(&mut state).is_none());
    assert_eq!(state.series_page, 3);
    state.text = "lost".to_string();
    let request = start_search(&mut state).unwrap();
    assert_eq!(request.query, "lost");
    assert_eq!(request.kind, SearchKind::Tvdb);
    assert_eq!(state.search_id, request.search_id);
    assert_eq!((state.series_page, state.movies_page), (0, 0));
    assert_eq!(page_window(12, 0), (0, 5));
    assert_eq!(page_window(12, 2), (10, 12));
    assert_eq!(page_window(12, 3), (12, 12));
}

fn aired_episode(id: u128, day: Option<i32>) -> ontv::catalog::Episode {
    ontv::catalog::Episode {
        id: ontv::ids::EpisodeId(id),
        name: None,
        overview: String::new(),
        absolute_number: None,
        season: SeasonNumber::Number(1),
        number: 1,
        aired: day.map(|days| Date { days }),
        compat_filename: None,
        graphics: ontv::catalog::EpisodeGraphics { filename: None },
        remote_id: None,
    }
}

#[test]
fn dashboard_shows_newest_aired() {
    let mut episodes = std::collections::HashMap::new();
    episodes.insert(1u128, vec![aired_episode(10, Some(100))]);
    episodes.insert(2u128, vec![aired_episode(20, Some(300))]);
    episodes.insert(3u128, vec![aired_episode(29, None), aired_episode(30, Some(150))]);
    let p = |s: u128, e: u128, t: i64| Pending {
        series: SeriesId(s),
        episode: EpisodeId(e),
        timestamp: Timestamp { millis: t },
    };
    let items = vec![p(1, 10, 1), p(2, 20, 2), p(3, 30, 3), p(4, 40, 4)];
    let today = Date { days: 200 };
    let shown = newest_aired_pending(&items, &episodes, &today, 5);
    let series: Vec<u128> = shown.iter().map(|p| p.series.0).collect();
    assert_eq!(series, vec![3, 1]);
    assert_eq!(newest_aired_pending(&items, &episodes, &today, 1).len(), 1);
    assert!(newest_aired_pending(&items, &episodes, &today, 0).is_empty());
}

#[test]
fn settings_change_config_and_sync() {
    let mut db = Database::new();
    update_settings(&mut db, SettingsMessage::ThemeChanged(ThemeType::Light));
    assert_eq!(db.config.theme, ThemeType::Light);
    assert!(db.changes.contains(Change::Config));
    update_settings(&mut db, SettingsMessage::TmdbApiKeyChange("key".to_string()));
    assert_eq!(db.config.tmdb_api_key, "key");
    let id = RemoteSeriesId::Tmdb { id: 1 };
    db.sync.series_update_sync(id, Timestamp { millis: 1 }, None);
    update_settings(&mut db, SettingsMessage::ClearSync);
    assert_eq!(db.sync.last_sync(&id), None);
    assert!(db.changes.contains(Change::Sync));
}

#[test]
fn remove_watch_asks_first() {
    let props = remove_watch::Props { series_id: SeriesId(1), episode_id: EpisodeId(2), watch_id: WatchedId(3) };
    let mut button = RemoveWatch::new(props);
    assert!(!button.is_confirm());
    assert_eq!(button.update(remove_watch::Message::Start), None);
    assert!(button.is_confirm());
    assert_eq!(button.update(remove_watch::Message::Cancel), None);
    assert!(!button.is_confirm());
    assert_eq!(button.update(remove_watch::Message::Confirm), Some(props));
}

#[test]
fn series_actions_ask_for() {
    let mut actions = SeriesActions::new(SeriesId(4));
    actions.confirm = true;
    actions.changed(SeriesId(4));
    assert!(actions.confirm);
    actions.changed(SeriesId(5));
    assert!(!actions.confirm);
    assert!(matches!(actions.update(series_actions::Message::Track), SeriesAction::Track(SeriesId(5))));
    let remote_id = RemoteSeriesId::Tmdb { id: 9 };
    match actions.update(series_actions::Message::RefreshSeries(remote_id)) {
        SeriesAction::Queue(TaskKind::DownloadSeries { series_id, force, last_modified, .. }) => {
            assert_eq!(series_id, SeriesId(5));
            assert!(force);
            assert!(last_modified.is_none());
        }
        other => panic!("unexpected {other:?}"),
    }
}

#[test]
fn removing_the_shown_series_leaves_its_page() {
    assert!(leaves_page(Some(&series_page(SeriesId(1))), &SeriesId(1)));
    assert!(leaves_page(Some(&season_page(SeriesId(1), SeasonNumber::Specials)), &SeriesId(1)));
    assert!(!leaves_page(Some(&series_page(SeriesId(2))), &SeriesId(1)));
    assert!(!leaves_page(Some(&Page::Dashboard), &SeriesId(1)));
    assert!(!leaves_page(None, &SeriesId(1)));
}

#[test]
fn forced_download_sends_no_etag() {
    let mut sync = SyncDatabase::new();
    let id = RemoteSeriesId::Tvdb { id: 1 };
    assert!(download_etag(false, &sync, &id).is_none());
    sync.update_last_etag(id, Some(Etag::new(b"abc")));
    assert!(download_etag(false, &sync, &id).unwrap().same(&Etag::new(b"abc")));
    assert!(download_etag(true, &sync, &id).is_none());
}

#[test]
fn season_page_contents() {
    let mut a = aired_episode(1, None);
    a.season = SeasonNumber::Number(2);
    let b = aired_episode(2, None);
    let mut c = aired_episode(3, None);
    c.season = SeasonNumber::Number(2);
    assert_eq!(season_episode_ids(&vec![a, b, c], SeasonNumber::Number(2)), vec![EpisodeId(1), EpisodeId(3)]);
    let mut s = series(1, "X");
    let seasons = vec![
        ontv::catalog::Season {
            number: SeasonNumber::Number(1),
            air_date: None,
            name: None,
            overview: String::new(),
            compat_poster: None,
            graphics: ontv::catalog::SeasonGraphics { poster: ImageV2::tmdb("s1.jpg") },
        },
        ontv::catalog::Season {
            number: SeasonNumber::Number(2),
            air_date: None,
            name: None,
            overview: String::new(),
            compat_poster: None,
            graphics: ontv::catalog::SeasonGraphics { poster: None },
        },
    ];
    assert_eq!(season_posters(&s, &seasons).len(), 1);
    s.graphics.poster = ImageV2::tmdb("series.jpg");
    let posters = season_posters(&s, &seasons);
    assert_eq!(posters, vec![ImageV2::tmdb("s1.jpg").unwrap(), ImageV2::tmdb("series.jpg").unwrap()]);
}
