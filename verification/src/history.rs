use vstd::prelude::*;

use crate::config::SearchKind;
use crate::ids::{MovieId, SeriesId};
use crate::season::SeasonNumber;

verus! {

/// State of the watch-next page.
#[derive(Clone, Copy, Debug, PartialEq, Eq)]
pub struct WatchNextState {
    pub future: bool,
}

/// State of the search page.
#[derive(Clone, Debug, PartialEq, Eq)]
pub struct SearchState {
    pub text: String,
    pub series_page: usize,
    pub movies_page: usize,
    /// Identifier of the last search, to look up errors it caused.
    pub search_id: u128,
    pub kind: SearchKind,
}

/// State of the series page.
#[derive(Clone, Copy, Debug, PartialEq, Eq)]
pub struct SeriesState {
    pub id: SeriesId,
}

/// State of the movie page.
#[derive(Clone, Copy, Debug, PartialEq, Eq)]
pub struct MovieState {
    pub id: MovieId,
}

/// State of the season page.
#[derive(Clone, Copy, Debug, PartialEq, Eq)]
pub struct SeasonState {
    pub series_id: SeriesId,
    pub season: SeasonNumber,
}

/// Which part of the queue the queue page shows.
#[derive(Clone, Copy, Debug, PartialEq, Eq)]
pub enum QueueState {
    Default,
    Running,
    Pending,
    Completed,
}

/// The current page.
#[derive(Clone, Debug, PartialEq, Eq)]
pub enum Page {
    Dashboard,
    WatchNext(WatchNextState),
    Search(SearchState),
    SeriesList,
    MoviesList,
    Series(SeriesState),
    Movie(MovieState),
    Settings,
    Season(SeasonState),
    Queue(QueueState),
    Errors,
}

/// The page of a series.
pub fn series_page(id: SeriesId) -> (p: Page)
    ensures
        p == Page::Series(SeriesState { id }),
{
    Page::Series(SeriesState { id })
}

/// The page of a movie.
pub fn movie_page(id: MovieId) -> (p: Page)
    ensures
        p == Page::Movie(MovieState { id }),
{
    Page::Movie(MovieState { id })
}

/// The page of a season.
pub fn season_page(series_id: SeriesId, season: SeasonNumber) -> (p: Page)
    ensures
        p == Page::Season(SeasonState { series_id, season }),
{
    Page::Season(SeasonState { series_id, season })
}

/// Navigation recorded during an update, applied afterwards.
pub struct HistoryMutations {
    pub relative: Option<isize>,
    pub push: Option<Page>,
}

impl HistoryMutations {
    /// No recorded navigation.
    pub fn new() -> (m: HistoryMutations)
        ensures
            m.relative is None,
            m.push is None,
    {
        HistoryMutations { relative: None, push: None }
    }

    /// Test if there are any recorded mutations.
    pub fn has_any(&self) -> (r: bool)
        ensures
            r == (self.relative is Some || self.push is Some),
    {
        self.relative.is_some() || self.push.is_some()
    }

    /// Navigate history by `relative` steps.
    pub fn navigate(&mut self, relative: isize)
        ensures
            final(self).relative == Some(relative),
            final(self).push == old(self).push,
    {
        self.relative = Some(relative);
    }

    /// Push a history entry.
    pub fn push_history(&mut self, page: Page)
        ensures
            final(self).relative == old(self).relative,
            final(self).push == Some(page),
    {
        self.push = Some(page);
    }
}

/// The index after moving `relative` steps from `index` in a history of
/// `len` entries: saturating at both ends, and `0` for no step.
pub open spec fn navigated_index(index: int, len: int, relative: int) -> int {
    let moved = if relative > 0 {
        index + relative
    } else if relative < 0 {
        if index + relative < 0 {
            0
        } else {
            index + relative
        }
    } else {
        0
    };
    if moved < len - 1 {
        moved
    } else {
        len - 1
    }
}

/// Browsing history: the pages visited, each with its scroll offset.
pub struct History<O> {
    history: Vec<(Page, O)>,
    history_index: usize,
}

impl<O: Copy> History<O> {
    /// The entries, oldest first.
    pub closed spec fn entries(&self) -> Seq<(Page, O)> {
        self.history@
    }

    /// Position of the current entry.
    pub closed spec fn index(&self) -> int {
        self.history_index as int
    }

    /// The history always has a current entry.
    pub closed spec fn wf(&self) -> bool {
        self.history_index < self.history@.len()
    }

    /// A history holding the dashboard alone, scrolled to `offset`.
    pub fn new(offset: O) -> (h: History<O>)
        ensures
            h.wf(),
            h.entries() == seq![(Page::Dashboard, offset)],
            h.index() == 0,
    {
        let mut history = Vec::new();
        history.push((Page::Dashboard, offset));
        History { history, history_index: 0 }
    }

    /// Get the current page.
    pub fn page(&self) -> (r: Option<&Page>)
        requires
            self.wf(),
        ensures
            r == Some(&self.entries()[self.index()].0),
    {
        Some(&self.history[self.history_index].0)
    }

    /// Update the scroll location of the current entry.
    pub fn history_scroll(&mut self, scroll: O)
        requires
            old(self).wf(),
        ensures
            final(self).wf(),
            final(self).index() == old(self).index(),
            final(self).entries() == old(self).entries().update(
                old(self).index(),
                (old(self).entries()[old(self).index()].0, scroll),
            ),
    {
        let i = self.history_index;
        let (page, _) = self.history.remove(i);
        self.history.insert(i, (page, scroll));
        assert(self.history@ =~= old(self).history@.update(i as int, (old(self).history@[i as int].0, scroll)));
    }

    /// Apply the recorded navigation: first move `relative` steps, then push
    /// the new page (scrolled to `offset`) after the current entry, dropping
    /// any entries past it. Returns the new current entry, or `None` when
    /// nothing was recorded. The mutation is emptied.
    pub fn apply_mutation(&mut self, mutation: &mut HistoryMutations, offset: O) -> (r: Option<
        &(Page, O),
    >)
        requires
            old(self).wf(),
            old(mutation).relative != Some(isize::MIN),
        ensures
            final(self).wf(),
            final(mutation).relative is None,
            final(mutation).push is None,
            !(old(mutation).relative is Some || old(mutation).push is Some) ==> r is None
                && final(self).entries() == old(self).entries() && final(self).index() == old(
                self,
            ).index(),
            (old(mutation).relative is Some || old(mutation).push is Some) ==> {
                let moved = match old(mutation).relative {
                    Some(rel) => navigated_index(
                        old(self).index(),
                        old(self).entries().len() as int,
                        rel as int,
                    ),
                    None => old(self).index(),
                };
                &&& r == Some(&final(self).entries()[final(self).index()])
                &&& match old(mutation).push {
                    Some(page) => {
                        &&& final(self).entries() == old(self).entries().take(moved + 1).push(
                            (page, offset),
                        )
                        &&& final(self).index() == moved + 1
                    },
                    None => {
                        &&& final(self).entries() == old(self).entries()
                        &&& final(self).index() == moved
                    },
                }
            },
    {
        if !mutation.has_any() {
            return None;
        }
        let ghost h0 = self.history@;
        let ghost i0 = self.history_index as int;
        if let Some(relative) = mutation.relative.take() {
            let len = self.history.len();
            let last = len - 1;
            let moved: usize = if relative > 0 {
                self.history_index.saturating_add(relative as usize)
            } else if relative < 0 {
                self.history_index.saturating_sub((-relative) as usize)
            } else {
                0
            };
            self.history_index = if moved < last {
                moved
            } else {
                last
            };
            assert(self.history_index == navigated_index(i0, len as int, relative as int));
        }
        let ghost moved = self.history_index as int;
        if let Some(page) = mutation.push.take() {
            let n = self.history.len();
            assert(self.history_index < n);
            let keep = self.history_index + 1;
            while keep < self.history.len()
                invariant
                    keep == moved + 1,
                    keep <= self.history@.len() <= h0.len(),
                    self.history@ == h0.take(self.history@.len() as int),
                decreases self.history@.len(),
            {
                self.history.pop();
                assert(self.history@ =~= h0.take(self.history@.len() as int));
            }
            assert(self.history@ =~= h0.take(moved + 1));
            self.history.push((page, offset));
            self.history_index = keep;
        }
        Some(&self.history[self.history_index])
    }
}

/// Navigation never leaves the history: from an entry of a non-empty
/// history, any number of steps lands on an entry.
pub proof fn lemma_navigation_in_bounds(index: int, len: int, relative: int)
    requires
        0 <= index < len,
    ensures
        0 <= navigated_index(index, len, relative) < len,
{
}

/// Going back one step after visiting a page returns to the entry that was
/// current before the visit.
pub proof fn lemma_back_after_push<O>(entries: Seq<(Page, O)>, index: int, page: Page, offset: O)
    requires
        0 <= index < entries.len(),
    ensures
        ({
            let pushed = entries.take(index + 1).push((page, offset));
            &&& navigated_index(index + 1, pushed.len() as int, -1) == index
            &&& pushed[index] == entries[index]
        }),
{
}

/// Going back one step and then forward one step returns to the same entry,
/// when there is an entry to go back to.
pub proof fn lemma_back_then_forward(index: int, len: int)
    requires
        0 < index < len,
    ensures
        navigated_index(navigated_index(index, len, -1), len, 1) == index,
{
}

/// A well-formed history's current entry is one of its entries.
pub proof fn lemma_index_in_bounds<O: Copy>(h: History<O>)
    requires
        h.wf(),
    ensures
        0 <= h.index() < h.entries().len(),
{
}

} // verus!
