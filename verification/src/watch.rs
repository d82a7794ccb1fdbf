use vstd::prelude::*;

use crate::component::{Component, Placement, RemainingSeason};
use crate::ids::{EpisodeId, MovieId};

verus! {

/// What a watch button marks as watched.
#[derive(Clone, Copy, PartialEq, Eq, Structural, Debug)]
pub enum Kind {
    Episode(EpisodeId),
    Movie(MovieId),
}

/// Messages of a watch button.
#[derive(Clone, Copy, PartialEq, Eq, Structural, Debug)]
pub enum Message {
    RightNow,
    AirDate,
    Cancel,
    Start,
}

/// Parameters of a watch button.
#[derive(Clone, Copy, PartialEq, Eq, Structural, Debug)]
pub struct Props {
    pub ordering: Placement,
    pub kind: Kind,
}

impl Props {
    /// A watch button for `kind`, laid out to the right.
    pub fn new(kind: Kind) -> (p: Props)
        ensures
            p == (Props { ordering: Placement::Right, kind }),
    {
        Props { ordering: Placement::Right, kind }
    }
}

/// A button that marks an episode or a movie as watched, asking when.
pub struct Watch {
    pub props: Props,
    pub confirm: bool,
}

impl Component<Props> for Watch {
    open spec fn params(&self) -> Props {
        self.props
    }

    open spec fn built(props: Props) -> Watch {
        Watch { props, confirm: false }
    }

    open spec fn told(&self, props: Props) -> Watch {
        if self.props == props {
            Watch { props: self.props, confirm: self.confirm }
        } else {
            Watch { props, confirm: false }
        }
    }

    fn new(props: Props) -> (c: Watch)
        ensures
            c.props == props,
            !c.confirm,
    {
        Watch { props, confirm: false }
    }

    fn changed(&mut self, props: Props)
        ensures
            final(self).props == props,
            final(self).confirm == (old(self).confirm && old(self).props == props),
    {
        if self.props != props {
            self.props = props;
            self.confirm = false;
        }
    }
}

impl Watch {
    /// Whether the choice of when is showing.
    pub fn is_confirm(&self) -> (r: bool)
        ensures
            r == self.confirm,
    {
        self.confirm
    }

    /// Handle a message; returns what to mark as watched, and how.
    pub fn update(&mut self, message: Message) -> (r: Option<(Kind, RemainingSeason)>)
        ensures
            final(self).props == old(self).props,
            final(self).confirm == (message == Message::Start),
            r == match message {
                Message::RightNow => Some((old(self).props.kind, RemainingSeason::Aired)),
                Message::AirDate => Some((old(self).props.kind, RemainingSeason::AirDate)),
                _ => None,
            },
    {
        match message {
            Message::RightNow => {
                self.confirm = false;
                Some((self.props.kind, RemainingSeason::Aired))
            },
            Message::AirDate => {
                self.confirm = false;
                Some((self.props.kind, RemainingSeason::AirDate))
            },
            Message::Cancel => {
                self.confirm = false;
                None
            },
            Message::Start => {
                self.confirm = true;
                None
            },
        }
    }
}

} // verus!
