use vstd::prelude::*;

use crate::component::Component;
use crate::ids::SeriesId;
use crate::queue::TaskKind;
use crate::remote::RemoteSeriesId;

verus! {

/// Messages of the actions of a series.
#[derive(Clone, Copy, Debug)]
pub enum Message {
    Untrack,
    Track,
    RefreshSeries(RemoteSeriesId),
    RemoveSeries,
}

/// What an action of a series asks for.
#[derive(Clone, Copy, Debug)]
pub enum SeriesAction {
    /// Stop following updates of the series.
    Untrack(SeriesId),
    /// Follow updates of the series.
    Track(SeriesId),
    /// Queue the task, to run without delay.
    Queue(TaskKind),
    /// Remove the series.
    Remove(SeriesId),
}

/// The actions of a series: follow it, refresh it, remove it.
pub struct SeriesActions {
    pub series_id: SeriesId,
    pub confirm: bool,
}

impl Component<SeriesId> for SeriesActions {
    open spec fn params(&self) -> SeriesId {
        self.series_id
    }

    open spec fn built(series_id: SeriesId) -> SeriesActions {
        SeriesActions { series_id, confirm: false }
    }

    open spec fn told(&self, series_id: SeriesId) -> SeriesActions {
        if self.series_id == series_id {
            SeriesActions { series_id, confirm: self.confirm }
        } else {
            SeriesActions { series_id, confirm: false }
        }
    }

    fn new(series_id: SeriesId) -> (c: SeriesActions)
        ensures
            c.series_id == series_id,
            !c.confirm,
    {
        SeriesActions { series_id, confirm: false }
    }

    fn changed(&mut self, series_id: SeriesId)
        ensures
            final(self).series_id == series_id,
            final(self).confirm == (old(self).confirm && old(self).series_id == series_id),
    {
        if self.series_id != series_id {
            self.series_id = series_id;
            self.confirm = false;
        }
    }
}

impl SeriesActions {
    /// What a message asks for: a refresh downloads the series from the given remote, forced,
    /// as a task that runs without delay.
    pub fn update(&self, message: Message) -> (r: SeriesAction)
        ensures
            r == match message {
                Message::Untrack => SeriesAction::Untrack(self.series_id),
                Message::Track => SeriesAction::Track(self.series_id),
                Message::RefreshSeries(remote_id) => SeriesAction::Queue(
                    TaskKind::DownloadSeries {
                        series_id: self.series_id,
                        remote_id,
                        last_modified: None,
                        force: true,
                    },
                ),
                Message::RemoveSeries => SeriesAction::Remove(self.series_id),
            },
    {
        match message {
            Message::Untrack => SeriesAction::Untrack(self.series_id),
            Message::Track => SeriesAction::Track(self.series_id),
            Message::RefreshSeries(remote_id) => SeriesAction::Queue(
                TaskKind::DownloadSeries {
                    series_id: self.series_id,
                    remote_id,
                    last_modified: None,
                    force: true,
                },
            ),
            Message::RemoveSeries => SeriesAction::Remove(self.series_id),
        }
    }
}

} // verus!
