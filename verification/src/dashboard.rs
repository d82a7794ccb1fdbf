use vstd::prelude::*;

use std::collections::HashMap;

use crate::catalog::{Episode, Pending};
use crate::ids::EpisodeId;
use crate::time::Date;
use crate::config::Config;
use crate::season::SeasonNumber;
use crate::text::{decimal_text, push_decimal, push_str};

verus! {

broadcast use vstd::std_specs::hash::group_hash_axioms;

/// How the user resizes the list of things to watch on the dashboard.
#[derive(Clone, Copy, Debug, PartialEq, Eq, Structural)]
pub enum DashboardAction {
    /// Back to one row of six.
    ResetPending,
    /// One row fewer, keeping at least one.
    ShowLessPending,
    /// One row more.
    ShowMorePending,
    /// One item fewer per row, keeping at least one.
    DecrementPage,
    /// One item more per row.
    IncrementPage,
}

/// The number of rows and of items per row after an action.
pub open spec fn adjusted(limit: usize, page: usize, action: DashboardAction) -> (int, int) {
    match action {
        DashboardAction::ResetPending => (1, 6),
        DashboardAction::ShowLessPending => (if limit <= 2 {
            1
        } else {
            limit - 1
        }, page as int),
        DashboardAction::ShowMorePending => (limit + 1, page as int),
        DashboardAction::DecrementPage => (limit as int, if page <= 2 {
            1
        } else {
            page - 1
        }),
        DashboardAction::IncrementPage => (limit as int, page + 1),
    }
}

/// Applies an action to the dashboard's part of the configuration.
pub fn adjust_dashboard(config: &mut Config, action: DashboardAction)
    requires
        action == DashboardAction::ShowMorePending ==> old(config).dashboard_limit < usize::MAX,
        action == DashboardAction::IncrementPage ==> old(config).dashboard_page < usize::MAX,
    ensures
        (final(config).dashboard_limit as int, final(config).dashboard_page as int) == adjusted(
            old(config).dashboard_limit,
            old(config).dashboard_page,
            action,
        ),
        final(config).theme == old(config).theme,
        final(config).tvdb_legacy_apikey == old(config).tvdb_legacy_apikey,
        final(config).tmdb_api_key == old(config).tmdb_api_key,
        final(config).schedule_duration_days == old(config).schedule_duration_days,
        final(config).search_kind == old(config).search_kind,
        final(config).schedule_limit == old(config).schedule_limit,
        final(config).schedule_page == old(config).schedule_page,
{
    match action {
        DashboardAction::ResetPending => {
            config.dashboard_limit = 1;
            config.dashboard_page = 6;
        },
        DashboardAction::ShowLessPending => {
            let limit = config.dashboard_limit.saturating_sub(1);
            config.dashboard_limit = if limit < 1 {
                1
            } else {
                limit
            };
        },
        DashboardAction::ShowMorePending => {
            config.dashboard_limit = config.dashboard_limit + 1;
        },
        DashboardAction::DecrementPage => {
            let page = config.dashboard_page.saturating_sub(1);
            config.dashboard_page = if page < 1 {
                1
            } else {
                page
            };
        },
        DashboardAction::IncrementPage => {
            config.dashboard_page = config.dashboard_page + 1;
        },
    }
}

/// Showing one row more and then one row fewer gives back the rows shown, and so does one item
/// more per row and then one fewer.
pub proof fn lemma_more_then_less(limit: usize, page: usize)
    requires
        limit >= 1,
        page >= 1,
        limit < usize::MAX,
        page < usize::MAX,
    ensures
        adjusted(
            (limit + 1) as usize,
            page,
            DashboardAction::ShowLessPending,
        ) == (limit as int, page as int),
        adjusted(
            limit,
            (page + 1) as usize,
            DashboardAction::DecrementPage,
        ) == (limit as int, page as int),
{
}

/// Showing less never goes below one row, nor one item per row.
pub proof fn lemma_less_keeps_one(limit: usize, page: usize)
    ensures
        adjusted(limit, page, DashboardAction::ShowLessPending).0 >= 1,
        adjusted(limit, page, DashboardAction::DecrementPage).1 >= 1,
{
}

/// How a scheduled day is labelled, by how many days it is from now: `Today`, `Tomorrow`, or its
/// date otherwise (`None` here).
pub open spec fn day_label_text(days_from_now: i64) -> Option<Seq<char>> {
    if days_from_now == 0 {
        Some("Today"@)
    } else if days_from_now == 1 {
        Some("Tomorrow"@)
    } else {
        None
    }
}

/// The label of a scheduled day, when it is today or tomorrow.
pub fn day_label(days_from_now: i64) -> (r: Option<&'static str>)
    ensures
        match day_label_text(days_from_now) {
            Some(t) => r matches Some(s) && s@ == t,
            None => r is None,
        },
{
    match days_from_now {
        0 => Some("Today"),
        1 => Some("Tomorrow"),
        _ => None,
    }
}

/// The short name of a season: its number, or `S` for specials.
pub open spec fn season_short_text(s: SeasonNumber) -> Seq<char> {
    match s {
        SeasonNumber::Specials => "S"@,
        SeasonNumber::Number(n) => decimal_text(n as nat),
    }
}

/// The name of a scheduled episode: `SxN`, then its name after a space when it has one.
pub open spec fn scheduled_name_text(e: Episode) -> Seq<char> {
    let number = season_short_text(e.season) + "x"@ + decimal_text(e.number as nat);
    match e.name {
        Some(name) => number + " "@ + name@,
        None => number,
    }
}

/// The name of a scheduled episode.
pub fn scheduled_episode_name(episode: &Episode) -> (s: String)
    ensures
        s@ == scheduled_name_text(*episode),
{
    let mut s = episode.season.short();
    push_str(&mut s, "x");
    push_decimal(&mut s, episode.number as u64);
    if let Some(name) = &episode.name {
        push_str(&mut s, " ");
        push_str(&mut s, name.as_str());
    }
    s
}

/// The first episode with the given identifier.
pub open spec fn episode_by_id(l: Seq<Episode>, id: EpisodeId) -> Option<Episode>
    decreases l.len(),
{
    if l.len() == 0 {
        None
    } else if l[0].id == id {
        Some(l[0])
    } else {
        episode_by_id(l.drop_first(), id)
    }
}

/// Whether the episode of a pending entry is known and has aired by `today`.
pub open spec fn pending_aired(p: Pending, episodes: Map<u128, Vec<Episode>>, today: Date) -> bool {
    &&& episodes.contains_key(p.series.0)
    &&& episode_by_id(episodes[p.series.0]@, p.episode) matches Some(e)
    &&& e.aired matches Some(d)
    &&& d.days <= today.days
}

/// Up to `limit` entries whose episode has aired, taken from the newest (last) entry back.
pub open spec fn newest_aired(
    items: Seq<Pending>,
    episodes: Map<u128, Vec<Episode>>,
    today: Date,
    limit: nat,
) -> Seq<Pending>
    decreases items.len(),
{
    if limit == 0 || items.len() == 0 {
        Seq::empty()
    } else if pending_aired(items.last(), episodes, today) {
        seq![items.last()] + newest_aired(items.drop_last(), episodes, today, (limit - 1) as nat)
    } else {
        newest_aired(items.drop_last(), episodes, today, limit)
    }
}

proof fn lemma_episode_by_id_skip(l: Seq<Episode>, id: EpisodeId, i: int)
    requires
        0 <= i < l.len(),
        l[i].id != id,
    ensures
        episode_by_id(l.skip(i), id) == episode_by_id(l.skip(i + 1), id),
{
    assert(l.skip(i).drop_first() =~= l.skip(i + 1));
}

/// Whether the episode of a pending entry is known and has aired by `today`.
fn has_aired(p: &Pending, episodes: &HashMap<u128, Vec<Episode>>, today: &Date) -> (r: bool)
    ensures
        r == pending_aired(*p, episodes@, *today),
{
    let list = match episodes.get(&p.series.0) {
        Some(list) => list,
        None => return false,
    };
    let mut i: usize = 0;
    assert(list@.skip(0) =~= list@);
    while i < list.len()
        invariant
            i <= list.len(),
            episode_by_id(list@.skip(i as int), p.episode) == episode_by_id(list@, p.episode),
            episodes@.contains_key(p.series.0),
            *list == episodes@[p.series.0],
        decreases list.len() - i,
    {
        if list[i].id == p.episode {
            assert(list@.skip(i as int)[0] == list@[i as int]);
            assert(episode_by_id(list@.skip(i as int), p.episode) == Some(list@[i as int]));
            assert(list@ == episodes@[p.series.0]@);
            return list[i].has_aired(today);
        }
        proof {
            lemma_episode_by_id_skip(list@, p.episode, i as int);
        }
        i = i + 1;
    }
    assert(list@.skip(i as int).len() == 0);
    false
}

/// What the dashboard shows of the pending list, given in time order: up to `limit` entries
/// whose episode has aired, newest first.
pub fn newest_aired_pending(
    items: &Vec<Pending>,
    episodes: &HashMap<u128, Vec<Episode>>,
    today: &Date,
    limit: usize,
) -> (r: Vec<Pending>)
    ensures
        r@ == newest_aired(items@, episodes@, *today, limit as nat),
{
    let mut r: Vec<Pending> = Vec::new();
    let mut i: usize = items.len();
    assert(items@.take(i as int) =~= items@);
    while i > 0 && r.len() < limit
        invariant
            i <= items.len(),
            r@.len() <= limit,
            r@ + newest_aired(items@.take(i as int), episodes@, *today, (limit - r@.len()) as nat)
                == newest_aired(items@, episodes@, *today, limit as nat),
        decreases i,
    {
        let p = items[i - 1];
        let ghost before = r@;
        let ghost t = items@.take(i as int);
        proof {
            assert(t.drop_last() =~= items@.take(i - 1));
            assert(t.last() == p);
        }
        if has_aired(&p, episodes, today) {
            r.push(p);
            assert(r@ + newest_aired(items@.take(i - 1), episodes@, *today, (limit - r@.len()) as nat)
                =~= before + newest_aired(t, episodes@, *today, (limit - before.len()) as nat));
        }
        i = i - 1;
    }
    assert(r@ + newest_aired(items@.take(i as int), episodes@, *today, (limit - r@.len()) as nat) =~= r@);
    r
}

} // verus!
