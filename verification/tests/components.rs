use ontv::component::{Component, RemainingSeason};
use ontv::confirm;
use ontv::episode_item::{EpisodeAction, EpisodeItem, EpisodeMessage, EpisodeProps};
use ontv::ids::{EpisodeId, SeriesId, WatchedId};
use ontv::season::SeasonNumber;
use ontv::season_info::{self, SeasonAction, SeasonInfo};
use ontv::watch;
use ontv::watch_remaining;

fn props(watched: &[u128]) -> EpisodeProps {
    EpisodeProps {
        include_series: true,
        episode_id: EpisodeId(7),
        watched: watched.iter().map(|&w| WatchedId(w)).collect(),
    }
}

#[test]
fn episode_item_buttons_follow_watches() {
    let mut item = EpisodeItem::new(props(&[]));
    assert!(item.remove_last_watch.is_none());
    assert!(item.remove_watches.is_empty());
    item.changed(props(&[1, 2]));
    assert_eq!(item.remove_watches.len(), 2);
    let last = item.remove_last_watch.as_ref().unwrap();
    assert_eq!(last.props.kind, confirm::Kind::RemoveWatch { episode_id: EpisodeId(7), watch_id: WatchedId(2) });
    match item.update(EpisodeMessage::RemoveWatch(0, confirm::Message::Confirm)) {
        EpisodeAction::Remove(kind) => {
            assert_eq!(kind, confirm::Kind::RemoveWatch { episode_id: EpisodeId(7), watch_id: WatchedId(1) })
        }
        other => panic!("unexpected {other:?}"),
    }
    assert!(matches!(
        item.update(EpisodeMessage::RemoveWatch(5, confirm::Message::Confirm)),
        EpisodeAction::Nothing
    ));
    match item.update(EpisodeMessage::Watch(watch::Message::AirDate)) {
        EpisodeAction::Watch(kind, when) => {
            assert_eq!(kind, watch::Kind::Episode(EpisodeId(7)));
            assert_eq!(when, RemainingSeason::AirDate);
        }
        other => panic!("unexpected {other:?}"),
    }
    assert!(matches!(item.update(EpisodeMessage::SelectPending(EpisodeId(7))), EpisodeAction::SelectPending(_)));
    item.changed(props(&[]));
    assert!(item.remove_last_watch.is_none());
}

#[test]
fn season_info_actions() {
    let mut info = SeasonInfo::new((SeriesId(3), SeasonNumber::Number(1)));
    assert_eq!(
        info.update(season_info::Message::WatchRemaining(watch_remaining::Message::Start)),
        SeasonAction::Nothing
    );
    assert!(info.watch_remaining.is_confirm());
    assert_eq!(
        info.update(season_info::Message::WatchRemaining(watch_remaining::Message::RightNow)),
        SeasonAction::WatchRemaining(SeriesId(3), SeasonNumber::Number(1), RemainingSeason::Aired)
    );
    info.changed((SeriesId(3), SeasonNumber::Number(2)));
    assert_eq!(
        info.update(season_info::Message::RemoveWatches(confirm::Message::Confirm)),
        SeasonAction::Remove(confirm::Kind::RemoveSeason { series_id: SeriesId(3), season: SeasonNumber::Number(2) })
    );
}
