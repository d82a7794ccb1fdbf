use vstd::prelude::*;

use crate::component::{Component, Placement, RemainingSeason};
use crate::ids::SeriesId;
use crate::season::SeasonNumber;

verus! {

/// Messages of a watch-remaining button.
#[derive(Clone, Copy, PartialEq, Eq, Structural, Debug)]
pub enum Message {
    RightNow,
    AirDate,
    Cancel,
    Start,
}

/// Parameters of a watch-remaining button.
#[derive(Clone, Copy, PartialEq, Eq, Structural, Debug)]
pub struct Props {
    pub ordering: Placement,
    pub series_id: SeriesId,
    pub season: SeasonNumber,
}

impl Props {
    /// A button for the rest of `season` of `series_id`, laid out to the right.
    pub fn new(series_id: SeriesId, season: SeasonNumber) -> (p: Props)
        ensures
            p == (Props { ordering: Placement::Right, series_id, season }),
    {
        Props { ordering: Placement::Right, series_id, season }
    }
}

/// A button that marks every unwatched episode of a season as watched.
pub struct WatchRemaining {
    pub props: Props,
    pub confirm: bool,
}

impl Component<Props> for WatchRemaining {
    open spec fn params(&self) -> Props {
        self.props
    }

    open spec fn built(props: Props) -> WatchRemaining {
        WatchRemaining { props, confirm: false }
    }

    open spec fn told(&self, props: Props) -> WatchRemaining {
        if self.props == props {
            WatchRemaining { props: self.props, confirm: self.confirm }
        } else {
            WatchRemaining { props, confirm: false }
        }
    }

    fn new(props: Props) -> (c: WatchRemaining)
        ensures
            c.props == props,
            !c.confirm,
    {
        WatchRemaining { props, confirm: false }
    }

    fn changed(&mut self, props: Props)
        ensures
            final(self).props == props,
            final(self).confirm == (old(self).confirm && old(self).props == props),
    {
        if self.props != props {
            self.props = props;
            self.confirm = false;
        }
    }
}

impl WatchRemaining {
    /// Whether the choice of when is showing.
    pub fn is_confirm(&self) -> (r: bool)
        ensures
            r == self.confirm,
    {
        self.confirm
    }

    /// Handle a message; returns the season to complete, and how.
    pub fn update(&mut self, message: Message) -> (r: Option<(SeriesId, SeasonNumber, RemainingSeason)>)
        ensures
            final(self).props == old(self).props,
            final(self).confirm == (message == Message::Start),
            r == match message {
                Message::RightNow => Some(
                    (old(self).props.series_id, old(self).props.season, RemainingSeason::Aired),
                ),
                Message::AirDate => Some(
                    (old(self).props.series_id, old(self).props.season, RemainingSeason::AirDate),
                ),
                _ => None,
            },
    {
        match message {
            Message::RightNow => {
                self.confirm = false;
                Some((self.props.series_id, self.props.season, RemainingSeason::Aired))
            },
            Message::AirDate => {
                self.confirm = false;
                Some((self.props.series_id, self.props.season, RemainingSeason::AirDate))
            },
            Message::Cancel => {
                self.confirm = false;
                None
            },
            Message::Start => {
                self.confirm = true;
                None
            },
        }
    }
}

} // verus!
