use ontv::calendar::Calendar;
use ontv::changes::{Change, Changes};
use ontv::display::Weekday;
use ontv::etag::Etag;
use ontv::time::Date;
use ontv::format::Format;
use ontv::hex16::Hex16;
use ontv::ids::SeriesId;
use ontv::legacy_remote::{LegacyIdError, LegacyValue};
use ontv::raw::Raw;
use ontv::remote::{RemoteEpisodeId, RemoteSeriesId};
use ontv::season::SeasonNumber;

fn entries(list: &[(&str, LegacyValue)]) -> Vec<(Vec<u8>, LegacyValue)> {
    list.iter().map(|(k, v)| (k.as_bytes().to_vec(), v.clone())).collect()
}

fn text(s: &str) -> LegacyValue {
    LegacyValue::Text(s.as_bytes().to_vec())
}

#[test]
fn format_from_path_reads_the_last_extension() {
    assert_eq!(Format::from_path("a/config.json"), Some(Format::Json));
    assert_eq!(Format::from_path("sync.yaml"), Some(Format::Yaml));
    assert_eq!(Format::from_path("dir.d/archive.tar.json"), Some(Format::Json));
    assert_eq!(Format::from_path("config.yml"), None);
    assert_eq!(Format::from_path("x.JSON"), None);
    assert_eq!(Format::from_path("noext"), None);
    assert_eq!(Format::from_path(".json"), None);
    assert_eq!(Format::from_path("dir.json/noext"), None);
}

#[test]
fn hex16_debug_form_and_reading_back() {
    assert_eq!(Hex16::from(0x61d78641a649au128).debug_text(), "0x61d78641a649a");
    assert_eq!(Hex16::from(0u128).debug_text(), "0x");
    for v in [0u128, 1, 0xf, 0x10, 0x61d78641a649a, u128::MAX, 1u128 << 127] {
        let h = Hex16::from(v);
        let text = h.to_string();
        assert_eq!(Hex16::from_hex(text.as_bytes()), Some(h));
    }
    assert_eq!(Hex16::from(0u128).to_string(), "");
}

#[test]
fn legacy_remote_map_form() {
    assert_eq!(
        RemoteSeriesId::from_legacy(&entries(&[("remote", text("tvdb")), ("id", LegacyValue::Number(81189))])),
        Ok(RemoteSeriesId::Tvdb { id: 81189 })
    );
    assert_eq!(
        RemoteSeriesId::from_legacy(&entries(&[("id", LegacyValue::Number(1396)), ("remote", text("tmdb"))])),
        Ok(RemoteSeriesId::Tmdb { id: 1396 })
    );
    assert_eq!(
        RemoteSeriesId::from_legacy(&entries(&[("remote", text("imdb")), ("id", text("tt0903747"))])),
        Ok(RemoteSeriesId::Imdb { id: Raw::new(b"tt0903747").unwrap() })
    );
    assert_eq!(
        RemoteEpisodeId::from_legacy(&entries(&[("remote", text("tvdb")), ("id", LegacyValue::Number(7))])),
        Ok(RemoteEpisodeId::Tvdb { id: 7 })
    );
    assert_eq!(
        RemoteSeriesId::from_legacy(&entries(&[("remote", text("imdb")), ("id", text("tt01234567890123456"))])),
        Err(LegacyIdError::ImdbOverflow)
    );
    assert_eq!(
        RemoteSeriesId::from_legacy(&entries(&[("remote", text("tvdb")), ("id", text("81189"))])),
        Err(LegacyIdError::InvalidId)
    );
    assert_eq!(
        RemoteSeriesId::from_legacy(&entries(&[("remote", text("tvdb")), ("id", LegacyValue::Number(1 << 32))])),
        Err(LegacyIdError::InvalidId)
    );
    assert_eq!(
        RemoteSeriesId::from_legacy(&entries(&[("remote", text("imdb")), ("id", LegacyValue::Number(5))])),
        Err(LegacyIdError::InvalidId)
    );
    assert_eq!(
        RemoteSeriesId::from_legacy(&entries(&[("remote", text("trakt")), ("id", LegacyValue::Number(5))])),
        Err(LegacyIdError::UnknownKind)
    );
    assert_eq!(
        RemoteSeriesId::from_legacy(&entries(&[("remote", text("tvdb")), ("name", text("x")), ("id", LegacyValue::Number(5))])),
        Err(LegacyIdError::UnsupportedKey)
    );
    assert_eq!(
        RemoteSeriesId::from_legacy(&entries(&[("remote", LegacyValue::Number(1)), ("id", LegacyValue::Number(5))])),
        Err(LegacyIdError::RemoteNotText)
    );
    assert_eq!(
        RemoteSeriesId::from_legacy(&entries(&[("remote", text("tvdb"))])),
        Err(LegacyIdError::MissingRemoteOrId)
    );
    assert_eq!(RemoteSeriesId::from_legacy(&entries(&[])), Err(LegacyIdError::MissingRemoteOrId));
    // A later entry for a key replaces an earlier one.
    assert_eq!(
        RemoteSeriesId::from_legacy(&entries(&[
            ("remote", text("imdb")),
            ("id", LegacyValue::Number(5)),
            ("remote", text("tmdb")),
        ])),
        Ok(RemoteSeriesId::Tmdb { id: 5 })
    );
}

#[test]
fn added_and_removed_series_stay_apart() {
    let mut ch = Changes::new();
    let a = SeriesId(1);
    let b = SeriesId(2);
    ch.add_series(&a);
    ch.add_series(&b);
    ch.remove_series(&a);
    assert!(ch.contains(Change::Series));
    assert!(ch.has_changes());
    assert_eq!(ch.added(), vec![b]);
    assert_eq!(ch.removed(), vec![a]);
    ch.add_series(&a);
    assert!(ch.removed().is_empty());
    let mut added = ch.added();
    added.sort_by_key(|s| s.0);
    assert_eq!(added, vec![a, b]);
    let taken = ch.take();
    assert!(!ch.has_changes());
    assert!(taken.has_changes());
}

fn season(n: u32) -> ontv::catalog::Season {
    ontv::catalog::Season {
        number: ontv::season::SeasonNumber::Number(n),
        air_date: None,
        name: None,
        overview: String::new(),
        compat_poster: None,
        graphics: ontv::catalog::SeasonGraphics { poster: None },
    }
}

fn numbers(db: &ontv::database::Database, id: SeriesId) -> Option<Vec<ontv::season::SeasonNumber>> {
    db.seasons.get(&id.0).map(|v| v.iter().map(|s| s.number).collect())
}

#[test]
fn stored_seasons_keep_their_order_and_are_replaced_whole() {
    let mut db = ontv::database::Database::new();
    let s = SeriesId(9);
    db.import_seasons(vec![(s, vec![season(3), season(1), season(2)])]);
    assert_eq!(numbers(&db, s), Some(vec![SeasonNumber::Number(3), SeasonNumber::Number(1), SeasonNumber::Number(2)]));
    db.import_seasons(vec![(s, vec![season(5)]), (SeriesId(10), vec![season(1)])]);
    assert_eq!(numbers(&db, s), Some(vec![SeasonNumber::Number(5)]));
    assert_eq!(numbers(&db, SeriesId(10)), Some(vec![SeasonNumber::Number(1)]));
    assert_eq!(numbers(&db, SeriesId(11)), None);
}

#[test]
fn etag_text_is_padded_standard_base64() {
    assert_eq!(Etag::new(b"abc").as_base64(), "YWJj");
    assert_eq!(Etag::new(b"").as_base64(), "");
    assert_eq!(Etag::new(b"a").as_base64(), "YQ==");
    assert_eq!(Etag::new(b"ab").as_base64(), "YWI=");
    assert_eq!(Etag::new(&[0xfb, 0xff, 0xbf]).as_base64(), "+/+/");
    assert_eq!(Etag::new(b"W/\"1234\"").as_base64().len(), 12);
}

#[test]
fn calendar_weeks_from_the_day_count() {
    // Wednesday May 15 2024, in a month that starts on a Wednesday and ends on a Friday.
    let c = Calendar::new(Date { days: 739021 }, Weekday::Mon);
    assert_eq!(c.month, Date { days: 739007 });
    assert_eq!(c.first, Date { days: 739005 });
    assert_eq!(c.last, Date { days: 739039 });
    let c = Calendar::new(Date { days: 739021 }, Weekday::Sun);
    assert_eq!(c.first, Date { days: 739004 });
    assert_eq!(c.last, Date { days: 739038 });
    // The last day chrono holds: the month after it is out of range, so the day stands alone.
    let c = Calendar::new(Date { days: 95745399 }, Weekday::Mon);
    assert_eq!((c.month, c.first, c.last), (Date { days: 95745399 }, Date { days: 95745399 }, Date { days: 95745399 }));
}
