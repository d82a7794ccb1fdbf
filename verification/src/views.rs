use vstd::prelude::*;

use crate::catalog::Episode;
use crate::history::QueueState;
use crate::ids::{MovieId, SeriesId};
use crate::queue::{Queue, QueueModel, TaskKind, TaskRef, TaskStatus};
use crate::season::SeasonNumber;
use crate::remote::{RemoteMovieId, RemoteSeriesId};
use crate::text::{decimal_text, push_decimal, push_str, string_of};
use crate::time::{Date, Timestamp};
use crate::watched::Watched;

verus! {

/// What a search result offers: the state of its download, or what can be done with it.
#[derive(Clone, Copy, Debug)]
pub enum SearchAction<L, R> {
    /// Its download waits in the queue.
    Queued,
    /// It is being downloaded.
    Downloading,
    /// Follow the local copy from this remote instead.
    Switch(L, R),
    /// Remove the local copy.
    Remove(L),
    /// Add it to the library.
    Add(R),
}

/// The actions a search result offers, given the status of its download task and the local copy
/// it has, if any, with the remote that copy follows.
pub open spec fn search_actions_of<L, R>(
    status: Option<TaskStatus>,
    local: Option<(L, Option<R>)>,
    remote: R,
) -> Seq<SearchAction<L, R>> {
    match status {
        Some(TaskStatus::Pending) => seq![SearchAction::Queued],
        Some(TaskStatus::Running) => seq![SearchAction::Downloading],
        None => match local {
            Some((id, current)) => if current == Some(remote) {
                seq![SearchAction::Remove(id)]
            } else {
                seq![SearchAction::Switch(id, remote), SearchAction::Remove(id)]
            },
            None => seq![SearchAction::Add(remote)],
        },
    }
}

/// The actions a series found by a search offers.
pub fn series_search_actions(
    status: Option<TaskStatus>,
    local: Option<(SeriesId, Option<RemoteSeriesId>)>,
    remote: RemoteSeriesId,
) -> (r: Vec<SearchAction<SeriesId, RemoteSeriesId>>)
    ensures
        r@ == search_actions_of(status, local, remote),
{
    let mut r: Vec<SearchAction<SeriesId, RemoteSeriesId>> = Vec::new();
    match status {
        Some(TaskStatus::Pending) => r.push(SearchAction::Queued),
        Some(TaskStatus::Running) => r.push(SearchAction::Downloading),
        None => match local {
            Some((id, current)) => {
                let same = match current {
                    Some(c) => c == remote,
                    None => false,
                };
                if !same {
                    r.push(SearchAction::Switch(id, remote));
                }
                r.push(SearchAction::Remove(id));
            },
            None => r.push(SearchAction::Add(remote)),
        },
    }
    assert(r@ =~= search_actions_of(status, local, remote));
    r
}

/// The actions a movie found by a search offers.
pub fn movie_search_actions(
    status: Option<TaskStatus>,
    local: Option<(MovieId, Option<RemoteMovieId>)>,
    remote: RemoteMovieId,
) -> (r: Vec<SearchAction<MovieId, RemoteMovieId>>)
    ensures
        r@ == search_actions_of(status, local, remote),
{
    let mut r: Vec<SearchAction<MovieId, RemoteMovieId>> = Vec::new();
    match status {
        Some(TaskStatus::Pending) => r.push(SearchAction::Queued),
        Some(TaskStatus::Running) => r.push(SearchAction::Downloading),
        None => match local {
            Some((id, current)) => {
                let same = match current {
                    Some(c) => c == remote,
                    None => false,
                };
                if !same {
                    r.push(SearchAction::Switch(id, remote));
                }
                r.push(SearchAction::Remove(id));
            },
            None => r.push(SearchAction::Add(remote)),
        },
    }
    assert(r@ =~= search_actions_of(status, local, remote));
    r
}

/// Whether an item in a list is an episode or a movie.
#[derive(Clone, Copy, PartialEq, Eq, Structural, Debug)]
pub enum ItemKind {
    Episode,
    Movie,
}

/// The button that sets or clears the next thing to watch.
#[derive(Clone, Copy, PartialEq, Eq, Structural, Debug)]
pub enum NextButton {
    /// Make it the next to watch.
    Make,
    /// It is the next to watch: clear that.
    Clear,
}

/// The buttons an episode or movie item shows, with their texts.
#[derive(Clone, Copy, Debug)]
pub struct ItemControls {
    /// The watch button's text, when it shows.
    pub watch: Option<&'static str>,
    /// The text of the button that removes the last watch, when it shows.
    pub remove_last: Option<&'static str>,
    /// The button for the next thing to watch, when it shows.
    pub next: Option<NextButton>,
}

/// The watch button's text: a first watch, or another.
pub open spec fn watch_text(count: nat) -> Seq<char> {
    if count == 0 {
        "First watch"@
    } else {
        "Watch again"@
    }
}

/// The text of the button that removes the last watch.
pub open spec fn remove_last_text(count: nat) -> Seq<char> {
    if count == 1 {
        "Remove watch"@
    } else {
        "Remove last watch"@
    }
}

/// The buttons of an item, given whether its watch button asks for confirmation, whether it has a
/// button to remove the last watch and whether that asks for confirmation, how many watches it
/// has, and whether it is the next to watch. While one button asks for confirmation, only that one
/// shows.
pub fn item_controls(
    watch_confirm: bool,
    remove_last_confirm: Option<bool>,
    watch_count: usize,
    pending: bool,
) -> (r: ItemControls)
    ensures
        ({
            let any = watch_confirm || remove_last_confirm == Some(true);
            &&& (!any || watch_confirm) ==> (r.watch matches Some(t) && t@ == watch_text(
                watch_count as nat,
            ))
            &&& !(!any || watch_confirm) ==> r.watch is None
            &&& (remove_last_confirm matches Some(c) && (!any || c)) ==> (r.remove_last matches Some(
                t,
            ) && t@ == remove_last_text(watch_count as nat))
            &&& !(remove_last_confirm matches Some(c) && (!any || c)) ==> r.remove_last is None
            &&& r.next == (if any {
                None
            } else if pending {
                Some(NextButton::Clear)
            } else {
                Some(NextButton::Make)
            })
        }),
{
    let remove_confirm = match remove_last_confirm {
        Some(c) => c,
        None => false,
    };
    let any = watch_confirm || remove_confirm;
    let watch = if !any || watch_confirm {
        if watch_count == 0 {
            Some("First watch")
        } else {
            Some("Watch again")
        }
    } else {
        None
    };
    let remove_last = match remove_last_confirm {
        Some(c) => if !any || c {
            if watch_count == 1 {
                Some("Remove watch")
            } else {
                Some("Remove last watch")
            }
        } else {
            None
        },
        None => None,
    };
    let next = if any {
        None
    } else if pending {
        Some(NextButton::Clear)
    } else {
        Some(NextButton::Make)
    };
    ItemControls { watch, remove_last, next }
}

/// The text of the button for the next thing to watch.
pub open spec fn next_text(kind: ItemKind, button: NextButton) -> Seq<char> {
    match (kind, button) {
        (ItemKind::Episode, NextButton::Make) => "Make next episode"@,
        (ItemKind::Episode, NextButton::Clear) => "Clear next episode"@,
        (ItemKind::Movie, NextButton::Make) => "Make next movie"@,
        (ItemKind::Movie, NextButton::Clear) => "Clear next movie"@,
    }
}

/// The text of the button for the next thing to watch.
pub fn next_button_text(kind: ItemKind, button: NextButton) -> (s: &'static str)
    ensures
        s@ == next_text(kind, button),
{
    match (kind, button) {
        (ItemKind::Episode, NextButton::Make) => "Make next episode",
        (ItemKind::Episode, NextButton::Clear) => "Clear next episode",
        (ItemKind::Movie, NextButton::Make) => "Make next movie",
        (ItemKind::Movie, NextButton::Clear) => "Clear next movie",
    }
}

/// The label before an air or release date: still to come after `today`, or past.
pub open spec fn date_label_text(kind: ItemKind, date: Date, today: Date) -> Seq<char> {
    match kind {
        ItemKind::Episode => if date.days > today.days {
            "Airs"@
        } else {
            "Aired"@
        },
        ItemKind::Movie => if date.days > today.days {
            "Releases"@
        } else {
            "Released"@
        },
    }
}

/// The label before an air or release date.
pub fn date_label(kind: ItemKind, date: Date, today: Date) -> (s: &'static str)
    ensures
        s@ == date_label_text(kind, date, today),
{
    match kind {
        ItemKind::Episode => if date.days > today.days {
            "Airs"
        } else {
            "Aired"
        },
        ItemKind::Movie => if date.days > today.days {
            "Releases"
        } else {
            "Released"
        },
    }
}

/// What an item says of its watches.
#[derive(Clone, Copy, PartialEq, Eq, Structural, Debug)]
pub enum WatchSummary {
    /// Never watched.
    Never,
    /// Watched once, at that time.
    Once(Timestamp),
    /// Watched that many times, last at that time.
    Times(usize, Timestamp),
}

/// What an item says of its watches, given in the order they were recorded.
pub fn watch_summary(watched: &Vec<Watched>) -> (r: WatchSummary)
    ensures
        r == (if watched@.len() == 0 {
            WatchSummary::Never
        } else if watched@.len() == 1 {
            WatchSummary::Once(watched@[0].timestamp)
        } else {
            WatchSummary::Times(watched@.len() as usize, watched@.last().timestamp)
        }),
{
    let n = watched.len();
    if n == 0 {
        WatchSummary::Never
    } else if n == 1 {
        WatchSummary::Once(watched[0].timestamp)
    } else {
        WatchSummary::Times(n, watched[n - 1].timestamp)
    }
}

/// How many rows a section of the queue page shows by default.
pub const QUEUE_LIMIT: usize = 8;

/// A section of the queue page.
#[derive(Clone, Copy, PartialEq, Eq, Structural, Debug)]
pub enum QueueSection {
    Running,
    Pending,
    Completed,
}

/// Whether the queue page, in the given state, is given over to one section.
pub open spec fn state_of_section(s: QueueSection) -> QueueState {
    match s {
        QueueSection::Running => QueueState::Running,
        QueueSection::Pending => QueueState::Pending,
        QueueSection::Completed => QueueState::Completed,
    }
}

/// How a section of the queue page shows: how many rows, and how many more are left out.
#[derive(Clone, Copy, PartialEq, Eq, Structural, Debug)]
pub struct SectionView {
    pub shown: usize,
    pub more: usize,
}

/// How the queue page in `state` shows a section of `len` tasks: not at all when the page is given
/// over to another section; all of them when it is given over to this one; else the first
/// `QUEUE_LIMIT`, with the count of the rest.
pub fn section_view(state: QueueState, section: QueueSection, len: usize) -> (r: Option<SectionView>)
    ensures
        state != QueueState::Default && state != state_of_section(section) ==> r is None,
        state == state_of_section(section) ==> r == Some(SectionView { shown: len, more: 0 }),
        state == QueueState::Default ==> r == Some(
            if len <= QUEUE_LIMIT {
                SectionView { shown: len, more: 0 }
            } else {
                SectionView { shown: QUEUE_LIMIT, more: (len - QUEUE_LIMIT) as usize }
            },
        ),
{
    let own = match (state, section) {
        (QueueState::Running, QueueSection::Running) => true,
        (QueueState::Pending, QueueSection::Pending) => true,
        (QueueState::Completed, QueueSection::Completed) => true,
        _ => false,
    };
    if own {
        return Some(SectionView { shown: len, more: 0 });
    }
    match state {
        QueueState::Default => if len <= QUEUE_LIMIT {
            Some(SectionView { shown: len, more: 0 })
        } else {
            Some(SectionView { shown: QUEUE_LIMIT, more: len - QUEUE_LIMIT })
        },
        _ => None,
    }
}

/// The title of a section, and what it says when empty.
pub fn section_texts(section: QueueSection) -> (r: (&'static str, &'static str))
    ensures
        r.0@ == match section {
            QueueSection::Running => "Running"@,
            QueueSection::Pending => "Pending"@,
            QueueSection::Completed => "Completed"@,
        },
        r.1@ == match section {
            QueueSection::Running => "No running tasks"@,
            QueueSection::Pending => "No pending tasks"@,
            QueueSection::Completed => "No completed tasks"@,
        },
{
    match section {
        QueueSection::Running => ("Running", "No running tasks"),
        QueueSection::Pending => ("Pending", "No pending tasks"),
        QueueSection::Completed => ("Completed", "No completed tasks"),
    }
}

/// Whether a task row speaks of the past, the present or the future.
#[derive(Clone, Copy, PartialEq, Eq, Structural, Debug)]
pub enum Temporal {
    Past,
    Now,
    Future,
}

/// What a task row says the task does.
pub open spec fn task_text_of(kind: TaskKind, t: Temporal) -> Seq<char> {
    match kind {
        TaskKind::CheckForUpdates { .. } => match t {
            Temporal::Past => "Updated"@,
            Temporal::Now => "Updating"@,
            Temporal::Future => "Update"@,
        },
        TaskKind::DownloadSeries { .. } | TaskKind::DownloadSeriesByRemoteId { .. } => match t {
            Temporal::Past => "Downloaded series"@,
            Temporal::Now => "Updating series"@,
            Temporal::Future => "Update series"@,
        },
        TaskKind::DownloadMovieByRemoteId { .. } => match t {
            Temporal::Past => "Downloaded movie"@,
            Temporal::Now => "Updating movie"@,
            Temporal::Future => "Update movie"@,
        },
    }
}

/// What a task row says the task does.
pub fn task_text(kind: &TaskKind, t: Temporal) -> (s: &'static str)
    ensures
        s@ == task_text_of(*kind, t),
{
    match kind {
        TaskKind::CheckForUpdates { .. } => match t {
            Temporal::Past => "Updated",
            Temporal::Now => "Updating",
            Temporal::Future => "Update",
        },
        TaskKind::DownloadSeries { .. } | TaskKind::DownloadSeriesByRemoteId { .. } => match t {
            Temporal::Past => "Downloaded series",
            Temporal::Now => "Updating series",
            Temporal::Future => "Update series",
        },
        TaskKind::DownloadMovieByRemoteId { .. } => match t {
            Temporal::Past => "Downloaded movie",
            Temporal::Now => "Updating movie",
            Temporal::Future => "Update movie",
        },
    }
}

/// The status of the task that claims `id`, if any.
pub open spec fn task_status_in(q: QueueModel, id: TaskRef) -> Option<TaskStatus> {
    if q.task_ids.contains_key(id) && q.status.contains_key(q.task_ids[id]) {
        Some(q.status[q.task_ids[id]])
    } else {
        None
    }
}

/// What the page of a series shows beside one of its remote identifiers.
#[derive(Clone, Copy, PartialEq, Eq, Structural, Debug)]
pub enum RemoteControl {
    /// The series follows this remote.
    Current,
    /// The series can be switched to this remote; the button works only while no task about the
    /// series or the remote is queued.
    Switch { enabled: bool },
    /// Nothing.
    Nothing,
}

/// What the page of a series shows beside a remote identifier: `Current` for the one it follows;
/// for another that the application can download from, a switch that works only while no task
/// about the series or that remote is queued.
pub fn remote_control(
    queue: &Queue,
    series_id: SeriesId,
    current: Option<RemoteSeriesId>,
    remote: RemoteSeriesId,
    supported: bool,
) -> (r: RemoteControl)
    requires
        queue.wf(),
    ensures
        current == Some(remote) ==> r == RemoteControl::Current,
        current != Some(remote) && !supported ==> r == RemoteControl::Nothing,
        current != Some(remote) && supported ==> r == (RemoteControl::Switch {
            enabled: task_status_in(queue@, TaskRef::RemoteSeries { remote_id: remote }) is None
                && task_status_in(queue@, TaskRef::Series { series_id }) is None,
        }),
{
    let same = match current {
        Some(c) => c == remote,
        None => false,
    };
    if same {
        return RemoteControl::Current;
    }
    if !supported {
        return RemoteControl::Nothing;
    }
    let busy = queue.status(TaskRef::RemoteSeries { remote_id: remote }).is_some() || queue.status(
        TaskRef::Series { series_id },
    ).is_some();
    RemoteControl::Switch { enabled: !busy }
}

/// The dates a season spans, from the episodes of the season in order: the air date of the first,
/// when known, and that of the last, when known; nothing when the first has no air date.
pub fn season_air_span(episodes: &Vec<Episode>) -> (r: Option<(Date, Option<Date>)>)
    ensures
        episodes@.len() == 0 ==> r is None,
        episodes@.len() > 0 ==> r == match episodes@[0].aired {
            Some(start) => Some((start, episodes@.last().aired)),
            None => None,
        },
{
    if episodes.len() == 0 {
        return None;
    }
    match episodes[0].aired {
        Some(start) => Some((start, episodes[episodes.len() - 1].aired)),
        None => None,
    }
}

/// How many episodes a series has, in words.
pub open spec fn episode_count_text_of(n: nat) -> Seq<char> {
    if n == 0 {
        "No episodes"@
    } else if n == 1 {
        "One episode"@
    } else {
        decimal_text(n) + " episodes"@
    }
}

/// How many episodes a series has, in words.
pub fn episode_count_text(n: usize) -> (s: String)
    ensures
        s@ == episode_count_text_of(n as nat),
{
    if n == 0 {
        string_of("No episodes")
    } else if n == 1 {
        string_of("One episode")
    } else {
        let mut s = String::new();
        push_decimal(&mut s, n as u64);
        push_str(&mut s, " episodes");
        s
    }
}

/// The label of the queue in the top menu, given how many tasks are pending and running.
pub open spec fn queue_label_text(count: nat) -> Seq<char> {
    if count == 0 {
        "Queue"@
    } else {
        "Queue ("@ + decimal_text(count) + ")"@
    }
}

/// The label of the queue in the top menu: `Queue`, with the number of pending and running tasks
/// in brackets when there are any.
pub fn queue_label(pending: usize, running: usize) -> (s: String)
    requires
        pending + running <= usize::MAX,
    ensures
        s@ == queue_label_text((pending + running) as nat),
{
    let count = pending + running;
    if count == 0 {
        string_of("Queue")
    } else {
        let mut s = string_of("Queue (");
        push_decimal(&mut s, count as u64);
        push_str(&mut s, ")");
        s
    }
}

/// An entry of the season menu: a season, by its place in the list, or a separator.
#[derive(Clone, Copy, PartialEq, Eq, Structural, Debug)]
pub enum MenuEntry {
    Season(usize),
    Separator,
}

/// The first place from `i` up to, not including, `end` that holds `current`.
pub open spec fn first_place_from(s: Seq<SeasonNumber>, current: SeasonNumber, i: int, end: int) -> Option<int>
    decreases end - i,
{
    if i >= end {
        None
    } else if s[i] == current {
        Some(i)
    } else {
        first_place_from(s, current, i + 1, end)
    }
}

/// The season menu of a series, given its seasons in order and the season shown: every season
/// when there are at most five; else the first, a separator, the shown season and another
/// separator when it stands between the first and the last, and the last.
pub open spec fn season_menu_of(s: Seq<SeasonNumber>, current: SeasonNumber) -> Seq<MenuEntry> {
    let n = s.len() as int;
    if n <= 5 {
        Seq::new(n as nat, |i: int| MenuEntry::Season(i as usize))
    } else {
        match first_place_from(s, current, 1, n - 1) {
            Some(j) => seq![
                MenuEntry::Season(0),
                MenuEntry::Separator,
                MenuEntry::Season(j as usize),
                MenuEntry::Separator,
                MenuEntry::Season((n - 1) as usize),
            ],
            None => seq![MenuEntry::Season(0), MenuEntry::Separator, MenuEntry::Season((n - 1) as usize)],
        }
    }
}

/// The season menu of a series, given its seasons in order and the season shown.
pub fn season_menu(seasons: &Vec<SeasonNumber>, current: SeasonNumber) -> (r: Vec<MenuEntry>)
    ensures
        r@ == season_menu_of(seasons@, current),
{
    let n = seasons.len();
    let mut r: Vec<MenuEntry> = Vec::new();
    if n <= 5 {
        let mut i: usize = 0;
        while i < n
            invariant
                i <= n == seasons@.len(),
                r@ == Seq::new(i as nat, |k: int| MenuEntry::Season(k as usize)),
            decreases n - i,
        {
            r.push(MenuEntry::Season(i));
            i = i + 1;
            assert(r@ =~= Seq::new(i as nat, |k: int| MenuEntry::Season(k as usize)));
        }
        return r;
    }
    let mut j: usize = 1;
    let mut found: Option<usize> = None;
    while j < n - 1
        invariant
            1 <= j <= n - 1,
            n == seasons@.len(),
            n > 5,
            found matches Some(k) ==> first_place_from(seasons@, current, 1, n - 1) == Some(k as int),
            found is None ==> first_place_from(seasons@, current, 1, n - 1) == first_place_from(
                seasons@,
                current,
                j as int,
                n - 1,
            ),
        decreases n - 1 - j,
    {
        if found.is_none() && seasons[j] == current {
            found = Some(j);
        }
        j = j + 1;
    }
    r.push(MenuEntry::Season(0));
    r.push(MenuEntry::Separator);
    match found {
        Some(k) => {
            r.push(MenuEntry::Season(k));
            r.push(MenuEntry::Separator);
        },
        None => {},
    }
    r.push(MenuEntry::Season(n - 1));
    r
}

} // verus!
