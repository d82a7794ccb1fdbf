use vstd::prelude::*;

use crate::component::{Component, Placement, RemainingSeason};
use crate::confirm::{self, Confirm};
use crate::ids::SeriesId;
use crate::season::SeasonNumber;
use crate::watch_remaining::{self, WatchRemaining};

verus! {

/// Messages of the actions of a season.
#[derive(Clone, Copy, PartialEq, Eq, Structural, Debug)]
pub enum Message {
    /// Watch the rest of the unwatched episodes of the season.
    WatchRemaining(watch_remaining::Message),
    /// Remove every watch of the season.
    RemoveWatches(confirm::Message),
}

/// What an action of a season asks for.
#[derive(Clone, Copy, PartialEq, Eq, Structural, Debug)]
pub enum SeasonAction {
    Nothing,
    /// Mark the rest of the season as watched, now or at the air dates.
    WatchRemaining(SeriesId, SeasonNumber, RemainingSeason),
    /// Remove what the confirmation was about.
    Remove(confirm::Kind),
}

/// The parameters of the watch-remaining button of a season.
pub open spec fn remaining_props(params: (SeriesId, SeasonNumber)) -> watch_remaining::Props {
    watch_remaining::Props { ordering: Placement::Right, series_id: params.0, season: params.1 }
}

/// The parameters of the confirmation that removes the watches of a season.
pub open spec fn remove_season_props(params: (SeriesId, SeasonNumber)) -> confirm::Props {
    confirm::Props {
        kind: confirm::Kind::RemoveSeason { series_id: params.0, season: params.1 },
        ordering: Placement::Right,
    }
}

/// The actions of a season: watch the rest of it, or remove its watches.
pub struct SeasonInfo {
    pub series_id: SeriesId,
    pub season: SeasonNumber,
    pub watch_remaining: WatchRemaining,
    pub remove_watches: Confirm,
}

impl Component<(SeriesId, SeasonNumber)> for SeasonInfo {
    open spec fn params(&self) -> (SeriesId, SeasonNumber) {
        (self.series_id, self.season)
    }

    open spec fn built(params: (SeriesId, SeasonNumber)) -> SeasonInfo {
        SeasonInfo {
            series_id: params.0,
            season: params.1,
            watch_remaining: WatchRemaining::built(remaining_props(params)),
            remove_watches: Confirm::built(remove_season_props(params)),
        }
    }

    open spec fn told(&self, params: (SeriesId, SeasonNumber)) -> SeasonInfo {
        SeasonInfo {
            series_id: params.0,
            season: params.1,
            watch_remaining: self.watch_remaining.told(remaining_props(params)),
            remove_watches: self.remove_watches.told(remove_season_props(params)),
        }
    }

    fn new(params: (SeriesId, SeasonNumber)) -> (c: SeasonInfo)
        ensures
            c.watch_remaining.props == (watch_remaining::Props {
                ordering: Placement::Right,
                series_id: params.0,
                season: params.1,
            }),
            c.remove_watches.props == (confirm::Props {
                kind: confirm::Kind::RemoveSeason { series_id: params.0, season: params.1 },
                ordering: Placement::Right,
            }),
            !c.watch_remaining.confirm,
            !c.remove_watches.confirm,
    {
        let (series_id, season) = params;
        SeasonInfo {
            series_id,
            season,
            watch_remaining: WatchRemaining::new(watch_remaining::Props::new(series_id, season)),
            remove_watches: Confirm::new(
                confirm::Props::new(confirm::Kind::RemoveSeason { series_id, season }),
            ),
        }
    }

    fn changed(&mut self, params: (SeriesId, SeasonNumber))
        ensures
            final(self).watch_remaining.props == (watch_remaining::Props {
                ordering: Placement::Right,
                series_id: params.0,
                season: params.1,
            }),
            final(self).remove_watches.props == (confirm::Props {
                kind: confirm::Kind::RemoveSeason { series_id: params.0, season: params.1 },
                ordering: Placement::Right,
            }),
    {
        let (series_id, season) = params;
        self.series_id = series_id;
        self.season = season;
        self.watch_remaining.changed(watch_remaining::Props::new(series_id, season));
        self.remove_watches.changed(
            confirm::Props::new(confirm::Kind::RemoveSeason { series_id, season }),
        );
    }
}

impl SeasonInfo {
    /// Handles a message: the buttons handle theirs, and what they ask for is returned.
    pub fn update(&mut self, message: Message) -> (r: SeasonAction)
        ensures
            final(self).series_id == old(self).series_id,
            final(self).season == old(self).season,
            r == match message {
                Message::WatchRemaining(m) => match m {
                    watch_remaining::Message::RightNow => SeasonAction::WatchRemaining(
                        old(self).watch_remaining.props.series_id,
                        old(self).watch_remaining.props.season,
                        RemainingSeason::Aired,
                    ),
                    watch_remaining::Message::AirDate => SeasonAction::WatchRemaining(
                        old(self).watch_remaining.props.series_id,
                        old(self).watch_remaining.props.season,
                        RemainingSeason::AirDate,
                    ),
                    _ => SeasonAction::Nothing,
                },
                Message::RemoveWatches(m) => if m == confirm::Message::Confirm {
                    SeasonAction::Remove(old(self).remove_watches.props.kind)
                } else {
                    SeasonAction::Nothing
                },
            },
    {
        match message {
            Message::WatchRemaining(m) => match self.watch_remaining.update(m) {
                Some((series_id, season, when)) => SeasonAction::WatchRemaining(series_id, season, when),
                None => SeasonAction::Nothing,
            },
            Message::RemoveWatches(m) => match self.remove_watches.update(m) {
                Some(kind) => SeasonAction::Remove(kind),
                None => SeasonAction::Nothing,
            },
        }
    }
}

} // verus!
