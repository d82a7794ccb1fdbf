use vstd::prelude::*;

use crate::component::{Component, Placement};
use crate::ids::{EpisodeId, SeriesId, WatchedId};
use crate::season::SeasonNumber;

verus! {

/// What a confirmation removes.
#[derive(Clone, Copy, PartialEq, Eq, Structural, Debug)]
pub enum Kind {
    RemoveWatch { episode_id: EpisodeId, watch_id: WatchedId },
    RemoveSeason { series_id: SeriesId, season: SeasonNumber },
}

/// Messages of a confirmation.
#[derive(Clone, Copy, PartialEq, Eq, Structural, Debug)]
pub enum Message {
    Confirm,
    Cancel,
    Start,
}

/// Parameters of a confirmation.
#[derive(Clone, Copy, PartialEq, Eq, Structural, Debug)]
pub struct Props {
    pub kind: Kind,
    pub ordering: Placement,
}

impl Props {
    /// A confirmation of `kind`, laid out to the right.
    pub fn new(kind: Kind) -> (p: Props)
        ensures
            p == (Props { kind, ordering: Placement::Right }),
    {
        Props { kind, ordering: Placement::Right }
    }

    /// The same confirmation laid out as `ordering` says.
    pub fn with_ordering(self, ordering: Placement) -> (p: Props)
        ensures
            p == (Props { ordering, ..self }),
    {
        Props { ordering, ..self }
    }
}

/// A button that asks for confirmation before it removes something.
pub struct Confirm {
    pub props: Props,
    pub confirm: bool,
}

impl Component<Props> for Confirm {
    open spec fn params(&self) -> Props {
        self.props
    }

    open spec fn built(props: Props) -> Confirm {
        Confirm { props, confirm: false }
    }

    open spec fn told(&self, props: Props) -> Confirm {
        if self.props == props {
            Confirm { props: self.props, confirm: self.confirm }
        } else {
            Confirm { props, confirm: false }
        }
    }

    fn new(props: Props) -> (c: Confirm)
        ensures
            c.props == props,
            !c.confirm,
    {
        Confirm { props, confirm: false }
    }

    fn changed(&mut self, props: Props)
        ensures
            final(self).props == props,
            final(self).confirm == (old(self).confirm && old(self).props == props),
    {
        if self.props != props {
            self.props = props;
            self.confirm = false;
        }
    }
}

impl Confirm {
    /// Whether the confirmation buttons are showing.
    pub fn is_confirm(&self) -> (r: bool)
        ensures
            r == self.confirm,
    {
        self.confirm
    }

    /// Handle a message; returns what is to be removed when confirmed.
    pub fn update(&mut self, message: Message) -> (r: Option<Kind>)
        ensures
            final(self).props == old(self).props,
            final(self).confirm == (message == Message::Start),
            r == (if message == Message::Confirm {
                Some(old(self).props.kind)
            } else {
                None
            }),
    {
        match message {
            Message::Confirm => {
                self.confirm = false;
                Some(self.props.kind)
            },
            Message::Cancel => {
                self.confirm = false;
                None
            },
            Message::Start => {
                self.confirm = true;
                None
            },
        }
    }
}

} // verus!
