use ontv::catalog::{Episode, EpisodeGraphics};
use ontv::history::QueueState;
use ontv::ids::{EpisodeId, MovieId, SeriesId, WatchedId};
use ontv::queue::{Queue, TaskKind, TaskStatus};
use ontv::remote::{RemoteMovieId, RemoteSeriesId};
use ontv::season::SeasonNumber;
use ontv::time::{Date, Timestamp};
use ontv::views::{
    date_label, episode_count_text, queue_label, season_menu, MenuEntry, item_controls, movie_search_actions, next_button_text,
    remote_control, season_air_span, section_texts, section_view, series_search_actions, task_text,
    watch_summary, ItemKind, NextButton, QueueSection, RemoteControl, SearchAction, SectionView,
    Temporal, WatchSummary, QUEUE_LIMIT,
};
use ontv::watched::{Watched, WatchedKind};

fn episode_aired(id: u128, day: Option<i32>) -> Episode {
    Episode {
        id: EpisodeId(id),
        name: None,
        overview: String::new(),
        absolute_number: None,
        season: SeasonNumber::Number(1),
        number: id as u32,
        aired: day.map(|days| Date { days }),
        compat_filename: None,
        graphics: EpisodeGraphics { filename: None },
        remote_id: None,
    }
}

#[test]
fn search_offers_by_task_and_local_copy() {
    let remote = RemoteSeriesId::Tvdb { id: 81189 };
    let other = RemoteSeriesId::Tmdb { id: 1396 };
    let series = SeriesId(7);

    let r = series_search_actions(Some(TaskStatus::Pending), Some((series, None)), remote);
    assert_eq!(r.len(), 1);
    assert!(matches!(r[0], SearchAction::Queued));

    let r = series_search_actions(Some(TaskStatus::Running), None, remote);
    assert_eq!(r.len(), 1);
    assert!(matches!(r[0], SearchAction::Downloading));

    let r = series_search_actions(None, Some((series, Some(remote))), remote);
    assert_eq!(r.len(), 1);
    assert!(matches!(r[0], SearchAction::Remove(SeriesId(7))));

    let r = series_search_actions(None, Some((series, Some(other))), remote);
    assert_eq!(r.len(), 2);
    assert!(matches!(r[0], SearchAction::Switch(SeriesId(7), RemoteSeriesId::Tvdb { id: 81189 })));
    assert!(matches!(r[1], SearchAction::Remove(SeriesId(7))));

    let r = series_search_actions(None, Some((series, None)), remote);
    assert_eq!(r.len(), 2);
    assert!(matches!(r[0], SearchAction::Switch(..)));

    let r = series_search_actions(None, None, remote);
    assert_eq!(r.len(), 1);
    assert!(matches!(r[0], SearchAction::Add(RemoteSeriesId::Tvdb { id: 81189 })));

    let movie = RemoteMovieId::Tmdb { id: 603 };
    let r = movie_search_actions(None, None, movie);
    assert!(matches!(r[0], SearchAction::Add(RemoteMovieId::Tmdb { id: 603 })));
    let r = movie_search_actions(None, Some((MovieId(3), Some(movie))), movie);
    assert_eq!(r.len(), 1);
    assert!(matches!(r[0], SearchAction::Remove(MovieId(3))));
}

#[test]
fn item_buttons_follow_confirmations() {
    let c = item_controls(false, None, 0, false);
    assert_eq!(c.watch, Some("First watch"));
    assert_eq!(c.remove_last, None);
    assert_eq!(c.next, Some(NextButton::Make));

    let c = item_controls(false, Some(false), 1, true);
    assert_eq!(c.watch, Some("Watch again"));
    assert_eq!(c.remove_last, Some("Remove watch"));
    assert_eq!(c.next, Some(NextButton::Clear));

    let c = item_controls(false, Some(false), 3, false);
    assert_eq!(c.remove_last, Some("Remove last watch"));

    // While the watch button asks for confirmation, only it shows.
    let c = item_controls(true, Some(false), 2, true);
    assert_eq!(c.watch, Some("Watch again"));
    assert_eq!(c.remove_last, None);
    assert_eq!(c.next, None);

    // While removing the last watch asks for confirmation, only that shows.
    let c = item_controls(false, Some(true), 2, false);
    assert_eq!(c.watch, None);
    assert_eq!(c.remove_last, Some("Remove last watch"));
    assert_eq!(c.next, None);
}

#[test]
fn item_texts_and_labels() {
    assert_eq!(next_button_text(ItemKind::Episode, NextButton::Make), "Make next episode");
    assert_eq!(next_button_text(ItemKind::Episode, NextButton::Clear), "Clear next episode");
    assert_eq!(next_button_text(ItemKind::Movie, NextButton::Make), "Make next movie");
    assert_eq!(next_button_text(ItemKind::Movie, NextButton::Clear), "Clear next movie");

    let today = Date { days: 100 };
    assert_eq!(date_label(ItemKind::Episode, Date { days: 101 }, today), "Airs");
    assert_eq!(date_label(ItemKind::Episode, Date { days: 100 }, today), "Aired");
    assert_eq!(date_label(ItemKind::Movie, Date { days: 150 }, today), "Releases");
    assert_eq!(date_label(ItemKind::Movie, Date { days: 10 }, today), "Released");
}

#[test]
fn watch_summary_counts_and_last_time() {
    let w = |id: u128, millis: i64| Watched {
        id: WatchedId(id),
        timestamp: Timestamp { millis },
        kind: WatchedKind::Series { series: SeriesId(1), episode: EpisodeId(2) },
    };
    assert_eq!(watch_summary(&vec![]), WatchSummary::Never);
    assert_eq!(watch_summary(&vec![w(1, 50)]), WatchSummary::Once(Timestamp { millis: 50 }));
    assert_eq!(
        watch_summary(&vec![w(1, 50), w(2, 70), w(3, 90)]),
        WatchSummary::Times(3, Timestamp { millis: 90 })
    );
}

#[test]
fn queue_sections_limit_rows() {
    assert_eq!(QUEUE_LIMIT, 8);
    assert_eq!(
        section_view(QueueState::Default, QueueSection::Pending, 5),
        Some(SectionView { shown: 5, more: 0 })
    );
    assert_eq!(
        section_view(QueueState::Default, QueueSection::Completed, 11),
        Some(SectionView { shown: 8, more: 3 })
    );
    assert_eq!(
        section_view(QueueState::Completed, QueueSection::Completed, 11),
        Some(SectionView { shown: 11, more: 0 })
    );
    assert_eq!(section_view(QueueState::Running, QueueSection::Pending, 11), None);
    assert_eq!(section_texts(QueueSection::Running), ("Running", "No running tasks"));
    assert_eq!(section_texts(QueueSection::Pending), ("Pending", "No pending tasks"));
    assert_eq!(section_texts(QueueSection::Completed), ("Completed", "No completed tasks"));
}

#[test]
fn task_rows_say_what_they_do() {
    let update = TaskKind::CheckForUpdates {
        series_id: SeriesId(1),
        remote_id: RemoteSeriesId::Tvdb { id: 1 },
        last_modified: None,
    };
    assert_eq!(task_text(&update, Temporal::Past), "Updated");
    assert_eq!(task_text(&update, Temporal::Now), "Updating");
    assert_eq!(task_text(&update, Temporal::Future), "Update");
    let series = TaskKind::DownloadSeriesByRemoteId { remote_id: RemoteSeriesId::Tmdb { id: 2 } };
    assert_eq!(task_text(&series, Temporal::Past), "Downloaded series");
    assert_eq!(task_text(&series, Temporal::Now), "Updating series");
    let movie = TaskKind::DownloadMovieByRemoteId { remote_id: RemoteMovieId::Tmdb { id: 3 } };
    assert_eq!(task_text(&movie, Temporal::Future), "Update movie");
}

#[test]
fn remote_switch_waits_for_queued_tasks() {
    let mut queue = Queue::new();
    let series = SeriesId(5);
    let current = RemoteSeriesId::Tvdb { id: 10 };
    let other = RemoteSeriesId::Tmdb { id: 20 };
    assert_eq!(remote_control(&queue, series, Some(current), current, true), RemoteControl::Current);
    assert_eq!(remote_control(&queue, series, Some(current), other, false), RemoteControl::Nothing);
    assert_eq!(
        remote_control(&queue, series, Some(current), other, true),
        RemoteControl::Switch { enabled: true }
    );
    assert!(queue.push_without_delay(TaskKind::DownloadSeriesByRemoteId { remote_id: other }));
    assert_eq!(
        remote_control(&queue, series, Some(current), other, true),
        RemoteControl::Switch { enabled: false }
    );
    assert_eq!(
        remote_control(&queue, SeriesId(6), None, RemoteSeriesId::Tvdb { id: 30 }, true),
        RemoteControl::Switch { enabled: true }
    );
}

#[test]
fn season_span_from_first_and_last_episode() {
    assert_eq!(season_air_span(&vec![]), None);
    let eps = vec![episode_aired(1, Some(10)), episode_aired(2, None), episode_aired(3, Some(40))];
    assert_eq!(season_air_span(&eps), Some((Date { days: 10 }, Some(Date { days: 40 }))));
    let eps = vec![episode_aired(1, Some(10)), episode_aired(2, None)];
    assert_eq!(season_air_span(&eps), Some((Date { days: 10 }, None)));
    let eps = vec![episode_aired(1, None), episode_aired(2, Some(40))];
    assert_eq!(season_air_span(&eps), None);
}

#[test]
fn episode_counts_in_words() {
    assert_eq!(episode_count_text(0), "No episodes");
    assert_eq!(episode_count_text(1), "One episode");
    assert_eq!(episode_count_text(3), "3 episodes");
    assert_eq!(episode_count_text(120), "120 episodes");
}

#[test]
fn queue_label_counts_tasks() {
    assert_eq!(queue_label(0, 0), "Queue");
    assert_eq!(queue_label(2, 1), "Queue (3)");
    assert_eq!(queue_label(0, 12), "Queue (12)");
}

#[test]
fn season_menu_shortens_long_lists() {
    let n = |k: u32| SeasonNumber::Number(k);
    let few = vec![SeasonNumber::Specials, n(1), n(2)];
    assert_eq!(
        season_menu(&few, n(1)),
        vec![MenuEntry::Season(0), MenuEntry::Season(1), MenuEntry::Season(2)]
    );
    let many: Vec<SeasonNumber> = (1..=8).map(n).collect();
    assert_eq!(
        season_menu(&many, n(4)),
        vec![
            MenuEntry::Season(0),
            MenuEntry::Separator,
            MenuEntry::Season(3),
            MenuEntry::Separator,
            MenuEntry::Season(7),
        ]
    );
    assert_eq!(
        season_menu(&many, n(1)),
        vec![MenuEntry::Season(0), MenuEntry::Separator, MenuEntry::Season(7)]
    );
    assert_eq!(
        season_menu(&many, n(8)),
        vec![MenuEntry::Season(0), MenuEntry::Separator, MenuEntry::Season(7)]
    );
    let five: Vec<SeasonNumber> = (1..=5).map(n).collect();
    assert_eq!(season_menu(&five, n(3)).len(), 5);
}
