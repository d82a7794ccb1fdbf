use vstd::prelude::*;

use crate::component::Component;
use crate::ids::{EpisodeId, SeriesId, WatchedId};

verus! {

/// Messages of a button that removes a watch.
#[derive(Clone, Copy, PartialEq, Eq, Structural, Debug)]
pub enum Message {
    Confirm,
    Cancel,
    Start,
}

/// The watch a button removes: of which episode of which series.
#[derive(Clone, Copy, PartialEq, Eq, Structural, Debug)]
pub struct Props {
    pub series_id: SeriesId,
    pub episode_id: EpisodeId,
    pub watch_id: WatchedId,
}

/// A button that removes a watch once confirmed.
pub struct RemoveWatch {
    pub props: Props,
    pub confirm: bool,
}

impl Component<Props> for RemoveWatch {
    open spec fn params(&self) -> Props {
        self.props
    }

    open spec fn built(props: Props) -> RemoveWatch {
        RemoveWatch { props, confirm: false }
    }

    open spec fn told(&self, props: Props) -> RemoveWatch {
        if self.props == props {
            RemoveWatch { props: self.props, confirm: self.confirm }
        } else {
            RemoveWatch { props, confirm: false }
        }
    }

    fn new(props: Props) -> (c: RemoveWatch)
        ensures
            c.props == props,
            !c.confirm,
    {
        RemoveWatch { props, confirm: false }
    }

    fn changed(&mut self, props: Props)
        ensures
            final(self).props == props,
            final(self).confirm == (old(self).confirm && old(self).props == props),
    {
        if self.props != props {
            self.props = props;
            self.confirm = false;
        }
    }
}

impl RemoveWatch {
    /// Whether the confirmation buttons are showing.
    pub fn is_confirm(&self) -> (r: bool)
        ensures
            r == self.confirm,
    {
        self.confirm
    }

    /// Handle a message; returns the watch to remove when the removal is confirmed.
    pub fn update(&mut self, message: Message) -> (r: Option<Props>)
        ensures
            final(self).props == old(self).props,
            final(self).confirm == (message == Message::Start),
            r == (if message == Message::Confirm {
                Some(old(self).props)
            } else {
                None
            }),
    {
        match message {
            Message::Confirm => {
                self.confirm = false;
                Some(self.props)
            },
            Message::Cancel => {
                self.confirm = false;
                None
            },
            Message::Start => {
                self.confirm = true;
                None
            },
        }
    }
}

} // verus!
