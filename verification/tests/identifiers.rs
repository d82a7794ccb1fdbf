use ontv::etag::Etag;
use ontv::headers::{parse_etag, parse_last_modified, LastModifiedError};
use ontv::image::ImageV2;
use ontv::raw::Raw;
use ontv::remote::{RemoteEpisodeId, RemoteIdError, RemoteSeriesId};
use ontv::remote_map::RemoteMap;
use ontv::time::Timestamp;

#[test]
fn remote_series_id_round_trip() {
    for text in ["tvdb:1234", "tmdb:42", "imdb:tt0944947"] {
        let id = RemoteSeriesId::parse(text).unwrap();
        assert_eq!(id.to_string(), text);
    }
    assert_eq!(RemoteSeriesId::parse("tmdb:42").unwrap(), RemoteSeriesId::Tmdb { id: 42 });
}

#[test]
fn remote_series_id_errors() {
    assert_eq!(RemoteSeriesId::parse("tmdb42"), Err(RemoteIdError::MissingColon));
    assert_eq!(RemoteSeriesId::parse("tmdb:x"), Err(RemoteIdError::InvalidNumber));
    assert_eq!(RemoteSeriesId::parse("tvdb:4294967296"), Err(RemoteIdError::InvalidNumber));
    assert_eq!(
        RemoteSeriesId::parse("imdb:01234567890123456"),
        Err(RemoteIdError::ImdbOverflow)
    );
    assert_eq!(RemoteSeriesId::parse("trakt:1"), Err(RemoteIdError::UnknownKind));
}

#[test]
fn remote_urls() {
    assert_eq!(
        RemoteSeriesId::Tvdb { id: 7 }.url(),
        "https://thetvdb.com/search?query=7"
    );
    assert_eq!(RemoteSeriesId::Tmdb { id: 7 }.url(), "https://www.themoviedb.org/tv/7");
    let imdb = RemoteSeriesId::Imdb { id: Raw::<16>::new(b"tt1").unwrap() };
    assert_eq!(imdb.url(), "https://www.imdb.com/title/tt1/");
}

#[test]
fn remote_episode_id_parse() {
    let id = RemoteEpisodeId::parse("tvdb:99").unwrap();
    assert_eq!(id.to_string(), "tvdb:99");
    assert_eq!(id.as_series(), RemoteSeriesId::Tvdb { id: 99 });
}

#[test]
fn remote_map_insert_get_remove() {
    let mut map: RemoteMap<u32> = RemoteMap::new();
    assert_eq!(map.insert(RemoteSeriesId::Tmdb { id: 2 }, 20), None);
    assert_eq!(map.insert(RemoteSeriesId::Tvdb { id: 1 }, 10), None);
    assert_eq!(map.insert(RemoteSeriesId::Tmdb { id: 2 }, 21), Some(20));
    assert_eq!(map.len(), 2);
    assert_eq!(map.get(&RemoteSeriesId::Tmdb { id: 2 }), Some(&21));
    assert!(map.contains(&RemoteSeriesId::Tvdb { id: 1 }));
    assert_eq!(map.remove(&RemoteSeriesId::Tvdb { id: 1 }), Some(10));
    assert!(!map.contains(&RemoteSeriesId::Tvdb { id: 1 }));
    map.clear();
    assert_eq!(map.len(), 0);
}

#[test]
fn etag_base64_round_trip() {
    let etag = Etag::new(b"W/\"abc\"");
    let text = etag.as_base64();
    assert_eq!(text, "Vy8iYWJjIg==");
    let back = Etag::from_base64(&text).unwrap();
    assert!(back.same(&etag));
    assert!(Etag::from_base64("not base64!").is_none());
}

#[test]
fn image_text_round_trip() {
    let image = ImageV2::tvdb("/banners/x.jpg").unwrap();
    assert_eq!(image.to_string(), "tvdb:banners/x.jpg");
    assert_eq!(ImageV2::parse("tvdb:banners/x.jpg").unwrap(), image);
    assert!(ImageV2::tmdb("///").is_none());
    assert!(ImageV2::parse("nothing").is_err());
}

#[test]
fn image_hash_depends_on_service() {
    let tvdb = ImageV2::tvdb("a.jpg").unwrap();
    let tmdb = ImageV2::tmdb("a.jpg").unwrap();
    let other = ImageV2::tvdb("b.jpg").unwrap();
    assert_eq!(tvdb.hash(), ImageV2::tvdb("a.jpg").unwrap().hash());
    assert_ne!(tvdb.hash(), tmdb.hash());
    assert_ne!(tvdb.hash(), other.hash());
    assert_ne!(tvdb.hash().as_u128(), 0);
}

#[test]
fn last_modified_header() {
    assert_eq!(parse_last_modified(None), Ok(None));
    assert_eq!(
        parse_last_modified(Some("Wed, 18 Feb 2015 23:16:09 GMT")),
        Ok(Some(Timestamp { millis: 1_424_301_369_000 }))
    );
    assert_eq!(parse_last_modified(Some("yesterday")), Err(LastModifiedError));
}

#[test]
fn etag_header() {
    assert!(parse_etag(None).is_none());
    let etag = parse_etag(Some(b"\"v1\"")).unwrap();
    assert!(etag.same(&Etag::new(b"\"v1\"")));
}
