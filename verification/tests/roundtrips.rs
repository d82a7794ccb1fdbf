use std::collections::HashMap;

use ontv::catalog::Pending;
use ontv::component::{init_from_iter, init_option, Component};
use ontv::confirm::{Confirm, Kind, Message, Props};
use ontv::ids::{EpisodeId, MovieId, SeriesId, WatchedId};
use ontv::pending::PendingDatabase;
use ontv::remote::{RemoteEpisodeId, RemoteSeriesId};
use ontv::remotes::RemotesDatabase;
use ontv::season::SeasonNumber;
use ontv::time::Timestamp;
use ontv::watched::{Watched, WatchedDatabase, WatchedKind};

#[test]
fn pending_export_then_extend() {
    let mut db = PendingDatabase::new();
    for (s, e, t) in [(3u128, 30u128, 5i64), (1, 10, 9), (2, 20, 1)] {
        db.insert(Pending { series: SeriesId(s), episode: EpisodeId(e), timestamp: Timestamp { millis: t } });
    }
    let export = db.export();
    let ids: Vec<u128> = export.iter().map(|p| p.series.0).collect();
    assert_eq!(ids, vec![1, 2, 3]);
    let mut other = PendingDatabase::new();
    other.extend(export);
    for s in 1..=3u128 {
        assert_eq!(other.get(&SeriesId(s)).map(|p| p.episode), db.get(&SeriesId(s)).map(|p| p.episode));
    }
}

#[test]
fn remotes_export_then_import() {
    let mut db = RemotesDatabase::new();
    assert!(db.insert_series(RemoteSeriesId::Tmdb { id: 1 }, SeriesId(7)));
    assert!(db.insert_series(RemoteSeriesId::Tvdb { id: 2 }, SeriesId(7)));
    assert!(db.insert_movie(RemoteSeriesId::Tmdb { id: 3 }, MovieId(8)));
    assert!(db.insert_episode(RemoteEpisodeId::Tvdb { id: 4 }, EpisodeId(9)));
    let export = db.export();
    assert_eq!(export.len(), 3);
    let mut other = RemotesDatabase::new();
    other.import(export);
    assert_eq!(other.get_series(&RemoteSeriesId::Tvdb { id: 2 }), Some(SeriesId(7)));
    assert_eq!(other.get_series(&RemoteSeriesId::Tmdb { id: 1 }), Some(SeriesId(7)));
    assert_eq!(other.find_movie_by_remote(RemoteSeriesId::Tmdb { id: 3 }), Some(MovieId(8)));
    assert_eq!(other.find_episode_by_remote(RemoteEpisodeId::Tvdb { id: 4 }), Some(EpisodeId(9)));
    assert_eq!(other.get_by_series(&SeriesId(7)).len(), 2);
}

#[test]
fn watched_export_then_import() {
    let mut db = WatchedDatabase::new();
    for (id, t) in [(1u128, 30i64), (2, 10), (3, 20)] {
        db.insert(Watched {
            id: WatchedId(id),
            timestamp: Timestamp { millis: t },
            kind: WatchedKind::Series { series: SeriesId(1), episode: EpisodeId(id) },
        });
    }
    let export = db.export(&HashMap::new());
    let times: Vec<i64> = export.iter().map(|e| e.watched.timestamp.millis).collect();
    assert_eq!(times, vec![10, 20, 30]);
    let mut other = WatchedDatabase::new();
    other.import(export.iter().map(|e| e.watched).collect());
    for id in 1..=3u128 {
        assert_eq!(other.by_episode(&EpisodeId(id)).len(), 1);
    }
    assert_eq!(other.by_series(&SeriesId(1)).len(), 3);
}

fn remove_season(n: u32) -> Props {
    Props::new(Kind::RemoveSeason { series_id: SeriesId(1), season: SeasonNumber::Number(n) })
}

#[test]
fn components_follow_their_data() {
    let mut list: Vec<Confirm> = Vec::new();
    init_from_iter(&mut list, vec![remove_season(1), remove_season(2)]);
    assert_eq!(list.len(), 2);
    list[0].update(Message::Start);
    assert!(list[0].is_confirm());
    init_from_iter(&mut list, vec![remove_season(1)]);
    assert_eq!(list.len(), 1);
    // Same parameters: the confirmation that was showing stays.
    assert!(list[0].is_confirm());
    init_from_iter(&mut list, vec![remove_season(3), remove_season(4), remove_season(5)]);
    assert_eq!(list.len(), 3);
    assert!(!list[0].is_confirm());
    assert_eq!(list[2].props, remove_season(5));

    let mut one: Option<Confirm> = None;
    init_option(&mut one, Some(remove_season(1)));
    assert_eq!(one.as_ref().map(|c| c.props), Some(remove_season(1)));
    init_option(&mut one, None);
    assert!(one.is_none());
    let c = Confirm::new(remove_season(2));
    assert!(!c.is_confirm());
}
