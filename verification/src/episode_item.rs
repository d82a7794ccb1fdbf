use vstd::prelude::*;

use crate::component::{init_from_iter, init_option, Component, Placement, RemainingSeason};
use crate::confirm::{self, Confirm};
use crate::history::Page;
use crate::ids::{EpisodeId, WatchedId};
use crate::watch::{self, Watch};

verus! {

/// The confirmation that removes a watch of an episode, laid out to the right.
pub open spec fn remove_props(episode_id: EpisodeId, watch_id: WatchedId) -> confirm::Props {
    confirm::Props {
        kind: confirm::Kind::RemoveWatch { episode_id, watch_id },
        ordering: Placement::Right,
    }
}

/// The confirmation that removes a watch of an episode, laid out to the left.
pub open spec fn remove_props_left(episode_id: EpisodeId, watch_id: WatchedId) -> confirm::Props {
    confirm::Props { ordering: Placement::Left, ..remove_props(episode_id, watch_id) }
}

/// The confirmations that remove each watch, in order.
pub open spec fn remove_list(episode_id: EpisodeId, watched: Seq<WatchedId>) -> Seq<confirm::Props> {
    Seq::new(watched.len(), |i: int| remove_props_left(episode_id, watched[i]))
}

/// Parameters of an episode in a list: the episode, its watches in the order they were recorded,
/// and whether it is shown with its series.
#[derive(Clone, Debug)]
pub struct EpisodeProps {
    pub include_series: bool,
    pub episode_id: EpisodeId,
    pub watched: Vec<WatchedId>,
}

/// An episode in a list, with its watch button and the confirmations that remove its watches.
pub struct EpisodeItem {
    pub pending_series: bool,
    pub episode_id: EpisodeId,
    pub watch: Watch,
    /// Removes the last watch, when there is one.
    pub remove_last_watch: Option<Confirm>,
    /// Removes each watch.
    pub remove_watches: Vec<Confirm>,
}

/// Messages of an episode in a list.
#[derive(Clone, Debug)]
pub enum EpisodeMessage {
    RemoveLastWatch(confirm::Message),
    RemoveWatch(usize, confirm::Message),
    Watch(watch::Message),
    SelectPending(EpisodeId),
    ClearPending(EpisodeId),
    Navigate(Page),
}

/// What a message to an episode asks for.
#[derive(Clone, Debug)]
pub enum EpisodeAction {
    Nothing,
    /// Remove what the confirmation was about.
    Remove(confirm::Kind),
    /// Mark as watched, now or at the air date.
    Watch(watch::Kind, RemainingSeason),
    /// Make the episode the next to watch of its series.
    SelectPending(EpisodeId),
    /// Drop the episode as the next to watch.
    ClearPending(EpisodeId),
    /// Go to the page.
    Navigate(Page),
}

/// The confirmations that remove each watch, in order.
fn remove_watch_props(episode_id: EpisodeId, watched: &Vec<WatchedId>) -> (r: Vec<confirm::Props>)
    ensures
        r@ == remove_list(episode_id, watched@),
{
    let mut r: Vec<confirm::Props> = Vec::new();
    let mut i: usize = 0;
    while i < watched.len()
        invariant
            i <= watched.len(),
            r@ == remove_list(episode_id, watched@.take(i as int)),
        decreases watched.len() - i,
    {
        let p = confirm::Props::new(confirm::Kind::RemoveWatch { episode_id, watch_id: watched[i] })
            .with_ordering(Placement::Left);
        r.push(p);
        i = i + 1;
        assert(r@ =~= remove_list(episode_id, watched@.take(i as int)));
    }
    assert(watched@.take(i as int) =~= watched@);
    r
}

/// The confirmation that removes the last watch, when there is one.
fn last_watch_props(episode_id: EpisodeId, watched: &Vec<WatchedId>) -> (r: Option<confirm::Props>)
    ensures
        watched@.len() == 0 ==> r is None,
        watched@.len() > 0 ==> r == Some(remove_props(episode_id, watched@.last())),
{
    if watched.len() == 0 {
        None
    } else {
        Some(
            confirm::Props::new(
                confirm::Kind::RemoveWatch { episode_id, watch_id: watched[watched.len() - 1] },
            ),
        )
    }
}

impl EpisodeItem {
    /// Whether the item shows the given parameters.
    pub open spec fn shows(&self, props: EpisodeProps) -> bool {
        &&& self.pending_series == props.include_series
        &&& self.episode_id == props.episode_id
        &&& self.watch.props == (watch::Props { ordering: Placement::Right, kind: watch::Kind::Episode(props.episode_id) })
        &&& if props.watched@.len() == 0 {
            self.remove_last_watch is None
        } else {
            self.remove_last_watch matches Some(c) && c.props == remove_props(
                props.episode_id,
                props.watched@.last(),
            )
        }
        &&& self.remove_watches@.len() == props.watched@.len()
        &&& forall|i: int|
            0 <= i < props.watched@.len() ==> (#[trigger] self.remove_watches@[i]).props
                == remove_props_left(props.episode_id, props.watched@[i])
    }

    /// An item showing the given parameters, with nothing asked yet.
    pub fn new(props: EpisodeProps) -> (r: EpisodeItem)
        ensures
            r.shows(props),
            !r.watch.confirm,
    {
        let watch = Watch::new(watch::Props::new(watch::Kind::Episode(props.episode_id)));
        let mut remove_last_watch: Option<Confirm> = None;
        init_option(&mut remove_last_watch, last_watch_props(props.episode_id, &props.watched));
        let mut remove_watches: Vec<Confirm> = Vec::new();
        init_from_iter(&mut remove_watches, remove_watch_props(props.episode_id, &props.watched));
        EpisodeItem {
            pending_series: props.include_series,
            episode_id: props.episode_id,
            watch,
            remove_last_watch,
            remove_watches,
        }
    }

    /// Shows new parameters, keeping what was asked of the buttons whose parameters stay.
    pub fn changed(&mut self, props: EpisodeProps)
        ensures
            final(self).shows(props),
    {
        self.pending_series = props.include_series;
        self.episode_id = props.episode_id;
        self.watch.changed(watch::Props::new(watch::Kind::Episode(props.episode_id)));
        init_option(&mut self.remove_last_watch, last_watch_props(props.episode_id, &props.watched));
        init_from_iter(&mut self.remove_watches, remove_watch_props(props.episode_id, &props.watched));
    }

    /// Handles a message: the buttons handle theirs, and what they, or the message, ask for is
    /// returned.
    pub fn update(&mut self, message: EpisodeMessage) -> (r: EpisodeAction)
        ensures
            final(self).episode_id == old(self).episode_id,
            final(self).pending_series == old(self).pending_series,
            final(self).remove_watches@.len() == old(self).remove_watches@.len(),
            match message {
                EpisodeMessage::SelectPending(e) => r == EpisodeAction::SelectPending(e),
                EpisodeMessage::ClearPending(e) => r == EpisodeAction::ClearPending(e),
                EpisodeMessage::Navigate(p) => r == EpisodeAction::Navigate(p),
                EpisodeMessage::Watch(m) => match m {
                    watch::Message::RightNow => r == EpisodeAction::Watch(
                        old(self).watch.props.kind,
                        RemainingSeason::Aired,
                    ),
                    watch::Message::AirDate => r == EpisodeAction::Watch(
                        old(self).watch.props.kind,
                        RemainingSeason::AirDate,
                    ),
                    _ => r == EpisodeAction::Nothing,
                },
                EpisodeMessage::RemoveLastWatch(m) => match old(self).remove_last_watch {
                    Some(c) => if m == confirm::Message::Confirm {
                        r == EpisodeAction::Remove(c.props.kind)
                    } else {
                        r == EpisodeAction::Nothing
                    },
                    None => r == EpisodeAction::Nothing,
                },
                EpisodeMessage::RemoveWatch(i, m) => if i < old(self).remove_watches@.len() && m
                    == confirm::Message::Confirm {
                    r == EpisodeAction::Remove(old(self).remove_watches@[i as int].props.kind)
                } else {
                    r == EpisodeAction::Nothing
                },
            },
    {
        match message {
            EpisodeMessage::RemoveLastWatch(m) => {
                let mut taken: Option<Confirm> = None;
                std::mem::swap(&mut taken, &mut self.remove_last_watch);
                match taken {
                    Some(mut c) => {
                        let r = c.update(m);
                        self.remove_last_watch = Some(c);
                        match r {
                            Some(kind) => EpisodeAction::Remove(kind),
                            None => EpisodeAction::Nothing,
                        }
                    },
                    None => EpisodeAction::Nothing,
                }
            },
            EpisodeMessage::RemoveWatch(index, m) => {
                if index < self.remove_watches.len() {
                    let mut c = self.remove_watches.remove(index);
                    let r = c.update(m);
                    self.remove_watches.insert(index, c);
                    match r {
                        Some(kind) => EpisodeAction::Remove(kind),
                        None => EpisodeAction::Nothing,
                    }
                } else {
                    EpisodeAction::Nothing
                }
            },
            EpisodeMessage::Watch(m) => match self.watch.update(m) {
                Some((kind, when)) => EpisodeAction::Watch(kind, when),
                None => EpisodeAction::Nothing,
            },
            EpisodeMessage::SelectPending(e) => EpisodeAction::SelectPending(e),
            EpisodeMessage::ClearPending(e) => EpisodeAction::ClearPending(e),
            EpisodeMessage::Navigate(p) => EpisodeAction::Navigate(p),
        }
    }
}

} // verus!
