use vstd::prelude::*;

use crate::catalog::{Movie, Series};
use crate::history::Page;
use crate::queue::TaskKind;
use crate::etag::Etag;
use crate::remote::RemoteSeriesId;
use crate::sync::{entry_or_empty, Database as SyncDatabase};
use crate::ids::{MovieId, SeriesId};
use crate::season::SeasonNumber;
use crate::series_db::SeriesDatabase;
use crate::text::{decimal_text, push_decimal, push_str, string_of};

verus! {

/// How long, in seconds, changes wait before they are saved.
pub const SAVE_DELAY_SECONDS: u64 = 5;

/// The title of a season, as its page shows it.
pub open spec fn season_text(season: SeasonNumber) -> Seq<char> {
    match season {
        SeasonNumber::Specials => "Specials"@,
        SeasonNumber::Number(n) => "Season "@ + decimal_text(n as nat),
    }
}

/// The first movie with the given identifier.
pub open spec fn find_movie(movies: Seq<Movie>, id: MovieId) -> Option<Movie>
    decreases movies.len(),
{
    if movies.len() == 0 {
        None
    } else if movies[0].id == id {
        Some(movies[0])
    } else {
        find_movie(movies.drop_first(), id)
    }
}

/// The window title for the current page: the application's name, then what the page shows.
pub open spec fn title_text(
    page: Option<Page>,
    series: Map<SeriesId, Series>,
    movies: Seq<Movie>,
    errors: nat,
) -> Seq<char> {
    let base = "OnTV"@;
    match page {
        None => base,
        Some(p) => match p {
            Page::Dashboard => base + " - Dashboard"@,
            Page::WatchNext(_) => base + " - Watch next"@,
            Page::Search(_) => base + " - Search"@,
            Page::SeriesList => base + " - Series overview"@,
            Page::MoviesList => base,
            Page::Series(state) => if series.contains_key(state.id) {
                base + " - "@ + series[state.id].title@
            } else {
                base
            },
            Page::Movie(state) => match find_movie(movies, state.id) {
                Some(movie) => base + " - "@ + movie.title@,
                None => base,
            },
            Page::Settings => base + " - Settings"@,
            Page::Season(state) => if series.contains_key(state.series_id) {
                base + " - "@ + series[state.series_id].title@ + " - "@ + season_text(state.season)
            } else {
                base
            },
            Page::Queue(_) => base + " - Queue"@,
            Page::Errors => base + " - Errors ("@ + decimal_text(errors) + ")"@,
        },
    }
}

proof fn lemma_find_movie_skip(movies: Seq<Movie>, id: MovieId, i: int)
    requires
        0 <= i < movies.len(),
        movies[i].id != id,
    ensures
        find_movie(movies.skip(i), id) == find_movie(movies.skip(i + 1), id),
{
    assert(movies.skip(i).drop_first() =~= movies.skip(i + 1));
}

/// Finds the first movie with the given identifier.
pub fn movie_by_id<'a>(movies: &'a Vec<Movie>, id: &MovieId) -> (r: Option<&'a Movie>)
    ensures
        match r {
            Some(m) => find_movie(movies@, *id) == Some(*m),
            None => find_movie(movies@, *id) is None,
        },
{
    let mut i: usize = 0;
    assert(movies@.skip(0) =~= movies@);
    while i < movies.len()
        invariant
            i <= movies.len(),
            find_movie(movies@.skip(i as int), *id) == find_movie(movies@, *id),
        decreases movies.len() - i,
    {
        if movies[i].id == *id {
            assert(movies@.skip(i as int)[0] == movies@[i as int]);
            return Some(&movies[i]);
        }
        proof {
            lemma_find_movie_skip(movies@, *id, i as int);
        }
        i = i + 1;
    }
    assert(movies@.skip(i as int).len() == 0);
    None
}

/// The window title: `OnTV`, then the page, and for a series, a movie or a season, its title.
pub fn title(page: Option<&Page>, series: &SeriesDatabase, movies: &Vec<Movie>, errors: usize) -> (s: String)
    requires
        series.wf(),
    ensures
        s@ == title_text(
            match page {
                Some(p) => Some(*p),
                None => None,
            },
            series.view(),
            movies@,
            errors as nat,
        ),
{
    let mut s = string_of("OnTV");
    match page {
        None => {},
        Some(p) => match p {
            Page::Dashboard => push_str(&mut s, " - Dashboard"),
            Page::WatchNext(_) => push_str(&mut s, " - Watch next"),
            Page::Search(_) => push_str(&mut s, " - Search"),
            Page::SeriesList => push_str(&mut s, " - Series overview"),
            Page::MoviesList => {},
            Page::Series(state) => {
                if let Some(found) = series.get(&state.id) {
                    push_str(&mut s, " - ");
                    push_str(&mut s, found.title.as_str());
                }
            },
            Page::Movie(state) => {
                if let Some(movie) = movie_by_id(movies, &state.id) {
                    push_str(&mut s, " - ");
                    push_str(&mut s, movie.title.as_str());
                }
            },
            Page::Settings => push_str(&mut s, " - Settings"),
            Page::Season(state) => {
                if let Some(found) = series.get(&state.series_id) {
                    push_str(&mut s, " - ");
                    push_str(&mut s, found.title.as_str());
                    push_str(&mut s, " - ");
                    let season = state.season.to_string();
                    push_str(&mut s, season.as_str());
                }
            },
            Page::Queue(_) => push_str(&mut s, " - Queue"),
            Page::Errors => {
                push_str(&mut s, " - Errors (");
                push_decimal(&mut s, errors as u64);
                push_str(&mut s, ")");
            },
        },
    }
    s
}

/// Where the application stands with saving its changes and closing its window.
#[derive(Clone, Copy, Debug, PartialEq, Eq, Structural)]
pub struct SaveState {
    /// The window asked to close: close once the changes are saved.
    pub exit_after_save: bool,
    /// A save is scheduled to start when the save delay runs out.
    pub save_scheduled: bool,
    /// A save is under way.
    pub saving: bool,
}

/// What the application does next about saving and closing.
#[derive(Clone, Copy, Debug, PartialEq, Eq, Structural)]
pub enum SaveAction {
    /// Nothing to do.
    Nothing,
    /// Close the window.
    CloseWindow,
    /// Cancel the scheduled save, which makes it start at once.
    CancelScheduled,
    /// Start saving the changes.
    StartSave,
}

/// The state and action after the window asked to close.
pub open spec fn close_step(s: SaveState) -> (SaveState, SaveAction) {
    if s.save_scheduled {
        (SaveState { exit_after_save: true, save_scheduled: false, ..s }, SaveAction::CancelScheduled)
    } else {
        (SaveState { exit_after_save: true, ..s }, SaveAction::CloseWindow)
    }
}

/// The state and action after the save delay ran out (`timed_out`) or was cancelled.
pub open spec fn timer_step(s: SaveState, timed_out: bool) -> (SaveState, SaveAction) {
    if !timed_out && !s.exit_after_save {
        (s, SaveAction::Nothing)
    } else {
        (SaveState { save_scheduled: false, saving: true, ..s }, SaveAction::StartSave)
    }
}

/// The state and action after a save finished.
pub open spec fn saved_step(s: SaveState) -> (SaveState, SaveAction) {
    (
        SaveState { saving: false, ..s },
        if s.exit_after_save { SaveAction::CloseWindow } else { SaveAction::Nothing },
    )
}

/// The state after any other event was handled, and whether a save is (re)scheduled.
pub open spec fn update_step(s: SaveState, has_changes: bool) -> (SaveState, bool) {
    if has_changes && !s.exit_after_save {
        (SaveState { save_scheduled: true, ..s }, true)
    } else {
        (s, false)
    }
}

impl SaveState {
    /// Nothing scheduled, nothing under way.
    pub fn new() -> (r: SaveState)
        ensures
            r == (SaveState { exit_after_save: false, save_scheduled: false, saving: false }),
    {
        SaveState { exit_after_save: false, save_scheduled: false, saving: false }
    }

    /// The window asked to close.
    pub fn close_requested(&mut self) -> (a: SaveAction)
        ensures
            (*final(self), a) == close_step(*old(self)),
    {
        self.exit_after_save = true;
        if self.save_scheduled {
            self.save_scheduled = false;
            SaveAction::CancelScheduled
        } else {
            SaveAction::CloseWindow
        }
    }

    /// The save delay ran out (`timed_out`), or the scheduled save was cancelled.
    pub fn save_timer(&mut self, timed_out: bool) -> (a: SaveAction)
        ensures
            (*final(self), a) == timer_step(*old(self), timed_out),
    {
        if !timed_out && !self.exit_after_save {
            return SaveAction::Nothing;
        }
        self.save_scheduled = false;
        self.saving = true;
        SaveAction::StartSave
    }

    /// A save finished, whether or not it succeeded.
    pub fn saved(&mut self) -> (a: SaveAction)
        ensures
            (*final(self), a) == saved_step(*old(self)),
    {
        self.saving = false;
        if self.exit_after_save {
            SaveAction::CloseWindow
        } else {
            SaveAction::Nothing
        }
    }

    /// After any other event: whether to (re)schedule a save after the save delay.
    pub fn after_update(&mut self, has_changes: bool) -> (schedule: bool)
        ensures
            (*final(self), schedule) == update_step(*old(self), has_changes),
    {
        if has_changes && !self.exit_after_save {
            self.save_scheduled = true;
            true
        } else {
            false
        }
    }
}

/// A close request while a save is scheduled saves first: the scheduled save is cancelled,
/// which starts it, and the window closes once it is saved.
pub proof fn lemma_close_saves_first(s: SaveState)
    requires
        s.save_scheduled,
    ensures
        close_step(s).1 == SaveAction::CancelScheduled,
        timer_step(close_step(s).0, false).1 == SaveAction::StartSave,
        saved_step(timer_step(close_step(s).0, false).0).1 == SaveAction::CloseWindow,
{
}

/// Once the window asked to close, it stays so, and no further save is scheduled.
pub proof fn lemma_no_schedule_after_close(s: SaveState, timed_out: bool, has_changes: bool)
    ensures
        close_step(s).0.exit_after_save,
        timer_step(close_step(s).0, timed_out).0.exit_after_save,
        saved_step(close_step(s).0).0.exit_after_save,
        !update_step(close_step(s).0, has_changes).1,
        update_step(close_step(s).0, has_changes).0 == close_step(s).0,
{
}

/// Without a close request, a save only starts when its delay runs out.
pub proof fn lemma_cancel_without_close_does_nothing(s: SaveState)
    requires
        !s.exit_after_save,
    ensures
        timer_step(s, false) == (s, SaveAction::Nothing),
{
}

/// What to do with a task that the queue hands out.
#[derive(Clone, Copy, Debug, PartialEq, Eq, Structural)]
pub enum TaskAction {
    /// Check the remote for updates to the series.
    CheckForUpdates,
    /// Download the series.
    DownloadSeries,
    /// Nothing to download: mark the task completed.
    Complete,
}

/// Decides what a task needs: `known_locally` says whether the series that a download by
/// remote identifier names is already in the library, which then only needs to be tracked.
pub fn task_action(kind: &TaskKind, known_locally: bool) -> (a: TaskAction)
    ensures
        a == match *kind {
            TaskKind::CheckForUpdates { .. } => TaskAction::CheckForUpdates,
            TaskKind::DownloadSeries { .. } => TaskAction::DownloadSeries,
            TaskKind::DownloadSeriesByRemoteId { .. } => if known_locally {
                TaskAction::Complete
            } else {
                TaskAction::DownloadSeries
            },
            TaskKind::DownloadMovieByRemoteId { .. } => TaskAction::Complete,
        },
{
    match kind {
        TaskKind::CheckForUpdates { .. } => TaskAction::CheckForUpdates,
        TaskKind::DownloadSeries { .. } => TaskAction::DownloadSeries,
        TaskKind::DownloadSeriesByRemoteId { .. } => if known_locally {
            TaskAction::Complete
        } else {
            TaskAction::DownloadSeries
        },
        TaskKind::DownloadMovieByRemoteId { .. } => TaskAction::Complete,
    }
}

/// Whether removing a series must leave the current page: the page of the series, or of one of
/// its seasons.
pub fn leaves_page(page: Option<&Page>, series_id: &SeriesId) -> (r: bool)
    ensures
        r == match page {
            Some(Page::Series(state)) => state.id == *series_id,
            Some(Page::Season(state)) => state.series_id == *series_id,
            _ => false,
        },
{
    match page {
        Some(Page::Series(state)) => state.id == *series_id,
        Some(Page::Season(state)) => state.series_id == *series_id,
        _ => false,
    }
}

/// The entity tag a download of a series sends, so that an unchanged series is not sent again:
/// none when the download is forced, else the last one seen from the remote.
pub fn download_etag(force: bool, sync: &SyncDatabase, remote_id: &RemoteSeriesId) -> (r: Option<Etag>)
    requires
        sync.wf(),
    ensures
        force ==> r is None,
        !force ==> match entry_or_empty(sync.view(), *remote_id).etag {
            Some(b) => r matches Some(e) && e@ == b,
            None => r is None,
        },
{
    if force {
        None
    } else {
        sync.last_etag(remote_id)
    }
}

} // verus!
