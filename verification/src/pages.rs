use vstd::prelude::*;

use crate::catalog::{Episode, Season, Series};
use crate::ids::EpisodeId;
use crate::image::ImageV2;
use crate::season::SeasonNumber;

verus! {

/// The identifiers of the episodes of one season, in order.
pub open spec fn season_episodes(episodes: Seq<Episode>, season: SeasonNumber) -> Seq<EpisodeId>
    decreases episodes.len(),
{
    if episodes.len() == 0 {
        Seq::empty()
    } else {
        let rest = season_episodes(episodes.drop_last(), season);
        if episodes.last().season == season {
            rest.push(episodes.last().id)
        } else {
            rest
        }
    }
}

/// The episodes the page of a season lists: those of the season, in order.
pub fn season_episode_ids(episodes: &Vec<Episode>, season: SeasonNumber) -> (r: Vec<EpisodeId>)
    ensures
        r@ == season_episodes(episodes@, season),
{
    let mut r: Vec<EpisodeId> = Vec::new();
    let mut i: usize = 0;
    while i < episodes.len()
        invariant
            i <= episodes.len(),
            r@ == season_episodes(episodes@.take(i as int), season),
        decreases episodes.len() - i,
    {
        proof {
            assert(episodes@.take(i + 1).drop_last() =~= episodes@.take(i as int));
        }
        if episodes[i].season == season {
            r.push(episodes[i].id);
        }
        i = i + 1;
    }
    assert(episodes@.take(i as int) =~= episodes@);
    r
}

/// The poster shown for each season: its own, or else that of the series; seasons with neither
/// show none.
pub open spec fn season_posters_of(series: Series, seasons: Seq<Season>) -> Seq<ImageV2>
    decreases seasons.len(),
{
    if seasons.len() == 0 {
        Seq::empty()
    } else {
        let rest = season_posters_of(series, seasons.drop_last());
        match seasons.last().graphics.poster {
            Some(p) => rest.push(p),
            None => match series.graphics.poster {
                Some(p) => rest.push(p),
                None => rest,
            },
        }
    }
}

/// The posters the page of a series loads for its seasons.
pub fn season_posters(series: &Series, seasons: &Vec<Season>) -> (r: Vec<ImageV2>)
    ensures
        r@ == season_posters_of(*series, seasons@),
{
    let mut r: Vec<ImageV2> = Vec::new();
    let mut i: usize = 0;
    while i < seasons.len()
        invariant
            i <= seasons.len(),
            r@ == season_posters_of(*series, seasons@.take(i as int)),
        decreases seasons.len() - i,
    {
        proof {
            assert(seasons@.take(i + 1).drop_last() =~= seasons@.take(i as int));
        }
        match &seasons[i].graphics.poster {
            Some(p) => r.push(p.clone()),
            None => match &series.graphics.poster {
                Some(p) => r.push(p.clone()),
                None => {},
            },
        }
        i = i + 1;
    }
    assert(seasons@.take(i as int) =~= seasons@);
    r
}

} // verus!
