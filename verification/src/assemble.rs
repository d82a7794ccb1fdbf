use chrono::Datelike;
use vstd::prelude::*;

use crate::api::{imdb_text, ExternalIds};
use crate::catalog::{Episode, EpisodeGraphics, SearchMovie, SearchSeries, Season, SeasonGraphics, Series, SeriesGraphics};
use crate::ids::{EpisodeId, MovieId, SeriesId};
use crate::image::{trim_leading_slashes, ImageV2};
use crate::raw::{zero_padded, Raw};
use crate::remote::{episode_as_series, RemoteEpisodeId, RemoteIdError, RemoteMovieId, RemoteSeriesId};
use crate::remote_map::{remote_less, RemoteMap};
use crate::remotes::{as_episode, first_known, RemotesDatabase};
use crate::season::SeasonNumber;
use crate::time::{Date, Timestamp};

verus! {

/// The day that `chrono::NaiveDate`'s parser reads from a text, if it reads
/// one, counted from January 1 of year 1 as day 1.
pub uninterp spec fn parsed_date(text: Seq<char>) -> Option<i32>;

/// Parses a date with `chrono::NaiveDate::from_str` (year, month and day
/// separated by `-`) and counts its day with `Datelike::num_days_from_ce`.
/// The result is named, not stated: `None` when the text is no date.
#[verifier::external_body]
fn parse_date_text(text: &str) -> (r: Option<Date>)
    ensures
        match parsed_date(text@) {
            Some(days) => r == Some(Date { days }),
            None => r is None,
        },
{
    match text.parse::<chrono::NaiveDate>() {
        Ok(d) => Some(Date { days: d.num_days_from_ce() }),
        Err(_) => None,
    }
}

/// A date text that is not a date.
#[derive(Clone, Copy, PartialEq, Eq, Structural, Debug)]
pub struct DateError;

/// The date in an optional text: none for a missing or empty text, an
/// error when the text is no date.
pub open spec fn optional_date(text: Option<Seq<char>>) -> Result<Option<Date>, DateError> {
    match text {
        None => Ok(None),
        Some(t) => if t.len() == 0 {
            Ok(None)
        } else {
            match parsed_date(t) {
                Some(days) => Ok(Some(Date { days })),
                None => Err(DateError),
            }
        },
    }
}

/// The text of an optional string.
pub open spec fn opt_text(s: Option<String>) -> Option<Seq<char>> {
    match s {
        Some(s) => Some(s@),
        None => None,
    }
}

/// Read an optional date text: none for a missing or empty text.
pub fn optional_date_text(text: &Option<String>) -> (r: Result<Option<Date>, DateError>)
    ensures
        r == optional_date(opt_text(*text)),
{
    match text {
        None => Ok(None),
        Some(t) => {
            if t.as_str().unicode_len() == 0 {
                Ok(None)
            } else {
                match parse_date_text(t.as_str()) {
                    Some(d) => Ok(Some(d)),
                    None => Err(DateError),
                }
            }
        },
    }
}

/// `img` is the image that an optional path names on themoviedb.org.
pub open spec fn tmdb_image_of(path: Option<String>, img: Option<ImageV2>) -> bool {
    match path {
        Some(p) => if trim_leading_slashes(p@).len() == 0 {
            img is None
        } else {
            img matches Some(ImageV2::Tmdb { uri }) && uri@ == trim_leading_slashes(p@)
        },
        None => img is None,
    }
}

/// `img` is the image that an optional path names on thetvdb.com.
pub open spec fn tvdb_image_of(path: Option<String>, img: Option<ImageV2>) -> bool {
    match path {
        Some(p) => if trim_leading_slashes(p@).len() == 0 {
            img is None
        } else {
            img matches Some(ImageV2::Tvdb { uri }) && uri@ == trim_leading_slashes(p@)
        },
        None => img is None,
    }
}

/// The image an optional path names on themoviedb.org.
pub fn tmdb_image(path: &Option<String>) -> (r: Option<ImageV2>)
    ensures
        tmdb_image_of(*path, r),
{
    match path {
        Some(p) => ImageV2::tmdb(p.as_str()),
        None => None,
    }
}

/// The image an optional path names on thetvdb.com.
pub fn tvdb_image(path: &Option<String>) -> (r: Option<ImageV2>)
    ensures
        tvdb_image_of(*path, r),
{
    match path {
        Some(p) => ImageV2::tvdb(p.as_str()),
        None => None,
    }
}

/// The paths of `paths` that name images on themoviedb.org, as images, in
/// order.
pub open spec fn tmdb_images_of(paths: Seq<String>, imgs: Seq<ImageV2>) -> bool
    decreases paths.len(),
{
    if paths.len() == 0 {
        imgs.len() == 0
    } else if trim_leading_slashes(paths.last()@).len() == 0 {
        tmdb_images_of(paths.drop_last(), imgs)
    } else {
        &&& imgs.len() > 0
        &&& tmdb_images_of(paths.drop_last(), imgs.drop_last())
        &&& imgs.last() matches ImageV2::Tmdb { uri }
        &&& uri@ == trim_leading_slashes(paths.last()@)
    }
}

/// The images that the paths name on themoviedb.org; paths that name none
/// are skipped.
pub fn tmdb_images(paths: &Vec<String>) -> (r: Vec<ImageV2>)
    ensures
        tmdb_images_of(paths@, r@),
{
    let mut out: Vec<ImageV2> = Vec::new();
    let mut i: usize = 0;
    while i < paths.len()
        invariant
            i <= paths@.len(),
            tmdb_images_of(paths@.take(i as int), out@),
        decreases paths@.len() - i,
    {
        let ghost before = out@;
        proof {
            assert(paths@.take(i + 1).drop_last() =~= paths@.take(i as int));
        }
        match ImageV2::tmdb(paths[i].as_str()) {
            Some(img) => {
                out.push(img);
                assert(out@.drop_last() =~= before);
            },
            None => {},
        }
        i = i + 1;
    }
    assert(paths@.take(i as int) =~= paths@);
    out
}

/// The text of an optional string, or empty.
pub open spec fn text_or_empty(s: Option<String>) -> Seq<char> {
    match s {
        Some(s) => s@,
        None => Seq::empty(),
    }
}

fn string_or_empty(s: Option<String>) -> (r: String)
    ensures
        r@ == text_or_empty(s),
{
    match s {
        Some(s) => s,
        None => String::new(),
    }
}

/// An optional text kept only when it is not empty.
pub open spec fn non_empty(s: Option<String>) -> Option<Seq<char>> {
    match s {
        Some(s) => if s@.len() > 0 {
            Some(s@)
        } else {
            None
        },
        None => None,
    }
}

/// Keep a language only when it is not empty.
pub fn filter_language(language: Option<String>) -> (r: Option<String>)
    ensures
        opt_text(r) == non_empty(language),
{
    match language {
        Some(s) => {
            if s.as_str().unicode_len() > 0 {
                Some(s)
            } else {
                None
            }
        },
        None => None,
    }
}

/// The season that a service's season number names: specials for none or
/// zero.
pub open spec fn season_of_number(n: Option<u32>) -> SeasonNumber {
    match n {
        Some(n) => if n > 0 {
            SeasonNumber::Number(n)
        } else {
            SeasonNumber::Specials
        },
        None => SeasonNumber::Specials,
    }
}

/// The season that a service's season number names: specials for none or
/// zero.
pub fn season_from_number(n: Option<u32>) -> (r: SeasonNumber)
    ensures
        r == season_of_number(n),
        n matches Some(k) && k > 0 ==> r == SeasonNumber::Number(n.unwrap()),
        n is None || n == Some(0u32) ==> r == SeasonNumber::Specials,
{
    proof {
        lemma_season_numbers(n);
    }
    match n {
        Some(n) => {
            if n > 0 {
                SeasonNumber::Number(n)
            } else {
                SeasonNumber::Specials
            }
        },
        None => SeasonNumber::Specials,
    }
}

/// A positive season number names that numbered season, and only no number or zero names the
/// specials.
pub proof fn lemma_season_numbers(n: Option<u32>)
    ensures
        forall|k: u32| k > 0 ==> #[trigger] season_of_number(Some(k)) == SeasonNumber::Number(k),
        season_of_number(None) == SeasonNumber::Specials,
        season_of_number(Some(0u32)) == SeasonNumber::Specials,
        season_of_number(n) == SeasonNumber::Specials <==> (n is None || n == Some(0u32)),
{
}

/// The number of a season on a service: zero for specials.
pub fn season_number_value(season: SeasonNumber) -> (r: u32)
    ensures
        r == match season {
            SeasonNumber::Specials => 0,
            SeasonNumber::Number(n) => n,
        },
{
    match season {
        SeasonNumber::Specials => 0,
        SeasonNumber::Number(n) => n,
    }
}

/// `r` is the set of `base` and each of `extra`, sorted; or the first error
/// among `extra` when there is one.
pub open spec fn id_set_result(
    base: RemoteSeriesId,
    extra: Seq<Result<RemoteSeriesId, RemoteIdError>>,
    r: Result<Vec<RemoteSeriesId>, RemoteIdError>,
) -> bool {
    match r {
        Ok(v) => {
            &&& forall|i: int| 0 <= i < extra.len() ==> extra[i] is Ok
            &&& forall|i: int, j: int| 0 <= i < j < v@.len() ==> remote_less(#[trigger] v@[i], #[trigger] v@[j])
            &&& forall|x: RemoteSeriesId| #[trigger] v@.contains(x) <==> x == base || extra.contains(
                Ok::<RemoteSeriesId, RemoteIdError>(x),
            )
        },
        Err(e) => exists|i: int|
            0 <= i < extra.len() && extra[i] == Err::<RemoteSeriesId, RemoteIdError>(e) && forall|j: int|
                0 <= j < i ==> extra[j] is Ok,
    }
}

/// The remote identifiers of something: `base` and each of `extra`, as a
/// set, sorted; the first error among `extra` when there is one.
pub fn remote_id_set(base: RemoteSeriesId, extra: Vec<Result<RemoteSeriesId, RemoteIdError>>) -> (r: Result<
    Vec<RemoteSeriesId>,
    RemoteIdError,
>)
    ensures
        id_set_result(base, extra@, r),
{
    let mut set: RemoteMap<()> = RemoteMap::new();
    let _ = set.insert(base, ());
    let mut i: usize = 0;
    while i < extra.len()
        invariant
            set.wf(),
            i <= extra@.len(),
            forall|j: int| 0 <= j < i ==> extra@[j] is Ok,
            forall|x: RemoteSeriesId| #[trigger] set@.contains_key(x) <==> x == base || extra@.take(i as int).contains(
                Ok::<RemoteSeriesId, RemoteIdError>(x),
            ),
        decreases extra@.len() - i,
    {
        match extra[i] {
            Ok(id) => {
                let _ = set.insert(id, ());
                proof {
                    let t = extra@.take(i + 1);
                    let pt = extra@.take(i as int);
                    assert forall|x: RemoteSeriesId| #[trigger] set@.contains_key(x) <==> x == base || t.contains(
                        Ok::<RemoteSeriesId, RemoteIdError>(x),
                    ) by {
                        if x == id {
                            assert(t[i as int] == Ok::<RemoteSeriesId, RemoteIdError>(x));
                        }
                        if pt.contains(Ok::<RemoteSeriesId, RemoteIdError>(x)) {
                            let j = choose|j: int| 0 <= j < pt.len() && pt[j] == Ok::<RemoteSeriesId, RemoteIdError>(x);
                            assert(t[j] == pt[j]);
                        }
                        if t.contains(Ok::<RemoteSeriesId, RemoteIdError>(x)) && x != id {
                            let j = choose|j: int| 0 <= j < t.len() && t[j] == Ok::<RemoteSeriesId, RemoteIdError>(x);
                            assert(j < i);
                            assert(pt[j] == t[j]);
                        }
                    }
                }
            },
            Err(e) => {
                assert(extra@[i as int] == Err::<RemoteSeriesId, RemoteIdError>(e));
                return Err(e);
            },
        }
        i = i + 1;
    }
    assert(extra@.take(i as int) =~= extra@);
    let mut out: Vec<RemoteSeriesId> = Vec::new();
    let ghost l = set.entries();
    let mut j: usize = 0;
    while j < set.len()
        invariant
            set.wf(),
            l == set.entries(),
            j <= l.len(),
            out@.len() == j,
            forall|a: int| 0 <= a < j ==> out@[a] == #[trigger] l[a].0,
        decreases l.len() - j,
    {
        let (k, _) = set.entry(j);
        out.push(*k);
        j = j + 1;
    }
    proof {
        set.lemma_view();
        assert forall|a: int, b: int| 0 <= a < b < out@.len() implies remote_less(#[trigger] out@[a], #[trigger] out@[b]) by {
            assert(out@[a] == l[a].0 && out@[b] == l[b].0);
        }
        assert forall|x: RemoteSeriesId| #[trigger] out@.contains(x) <==> set@.contains_key(x) by {
            if out@.contains(x) {
                let a = choose|a: int| 0 <= a < out@.len() && out@[a] == x;
                assert(out@[a] == l[a].0);
            }
            if set@.contains_key(x) {
                let a = choose|a: int| 0 <= a < l.len() && l[a].0 == x;
                assert(out@[a] == x);
            }
        }
    }
    Ok(out)
}

/// Images downloaded for a series or a movie: the chosen poster and
/// banner, and every poster and banner offered.
#[derive(Debug)]
pub struct RemoteGraphics {
    pub poster: Option<ImageV2>,
    pub posters: Vec<ImageV2>,
    pub banner: Option<ImageV2>,
    pub banners: Vec<ImageV2>,
}

/// Series details as themoviedb.org reports them.
pub struct TmdbSeriesDetails {
    pub id: u32,
    pub name: Option<String>,
    pub original_name: Option<String>,
    pub original_language: Option<String>,
    pub overview: Option<String>,
    pub poster_path: Option<String>,
    pub backdrop_path: Option<String>,
    pub first_air_date: Option<Date>,
    pub seasons: Vec<TmdbSeasonDetails>,
}

/// Season details as themoviedb.org reports them.
pub struct TmdbSeasonDetails {
    pub season_number: Option<u32>,
    pub air_date: Option<Date>,
    pub name: Option<String>,
    pub overview: Option<String>,
    pub poster_path: Option<String>,
}

/// The image paths that themoviedb.org offers for a series or a movie.
pub struct TmdbImages {
    pub backdrops: Vec<String>,
    pub posters: Vec<String>,
}

/// A series as downloaded, to update the local one.
#[derive(Debug)]
pub struct UpdateSeries {
    pub id: SeriesId,
    pub title: String,
    pub language: Option<String>,
    pub first_air_date: Option<Date>,
    pub overview: String,
    pub graphics: RemoteGraphics,
    pub remote_id: RemoteSeriesId,
}

/// The first text present of two.
pub open spec fn first_text(a: Option<String>, b: Option<String>) -> Seq<char> {
    match a {
        Some(a) => a@,
        None => text_or_empty(b),
    }
}

/// `g` holds the images that a poster path, a banner path and the offered
/// images name on themoviedb.org.
pub open spec fn tmdb_graphics_of(
    poster: Option<String>,
    banner: Option<String>,
    images: TmdbImages,
    g: RemoteGraphics,
) -> bool {
    &&& tmdb_image_of(poster, g.poster)
    &&& tmdb_images_of(images.posters@, g.posters@)
    &&& tmdb_image_of(banner, g.banner)
    &&& tmdb_images_of(images.backdrops@, g.banners@)
}

fn tmdb_graphics(poster: &Option<String>, banner: &Option<String>, images: &TmdbImages) -> (g: RemoteGraphics)
    ensures
        tmdb_graphics_of(*poster, *banner, *images, g),
{
    RemoteGraphics {
        poster: tmdb_image(poster),
        posters: tmdb_images(&images.posters),
        banner: tmdb_image(banner),
        banners: tmdb_images(&images.backdrops),
    }
}

/// `s` is the season that themoviedb.org's details `d` describe.
pub open spec fn tmdb_season_of(d: TmdbSeasonDetails, s: Season) -> bool {
    &&& s.number == season_of_number(d.season_number)
    &&& s.air_date == d.air_date
    &&& opt_text(s.name) == opt_text(d.name)
    &&& s.overview@ == text_or_empty(d.overview)
    &&& s.compat_poster is None
    &&& tmdb_image_of(d.poster_path, s.graphics.poster)
}

/// The season that themoviedb.org's details describe.
pub fn tmdb_season(d: TmdbSeasonDetails) -> (s: Season)
    ensures
        tmdb_season_of(d, s),
{
    let poster = tmdb_image(&d.poster_path);
    Season {
        number: season_from_number(d.season_number),
        air_date: d.air_date,
        name: d.name,
        overview: string_or_empty(d.overview),
        compat_poster: None,
        graphics: SeasonGraphics { poster },
    }
}

/// `x` is the IMDb identifier written with the bytes `b`, which fit.
pub open spec fn is_imdb_id(b: Seq<u8>, x: RemoteSeriesId) -> bool {
    b.len() <= 16 && (x matches RemoteSeriesId::Imdb { id } && id@ == zero_padded(b, 16))
}

/// `v` holds `base` and the remote series identifiers that `external`
/// reports (thetvdb.com's, and IMDb's when present and not empty), as a
/// sorted set, and the IMDb identifier fits.
pub open spec fn ids_ok(base: RemoteSeriesId, external: ExternalIds, v: Seq<RemoteSeriesId>) -> bool {
    &&& !(imdb_text(external) matches Some(b) && b.len() > 16)
    &&& forall|i: int, j: int| 0 <= i < j < v.len() ==> remote_less(#[trigger] v[i], #[trigger] v[j])
    &&& forall|x: RemoteSeriesId| #[trigger]
        v.contains(x) <==> {
            ||| x == base
            ||| (external.tvdb_id matches Some(t) && x == RemoteSeriesId::Tvdb { id: t })
            ||| (imdb_text(external) matches Some(b) && is_imdb_id(b, x))
        }
}

/// `e` is the error of reading the identifiers that `external` reports: the
/// IMDb identifier is longer than 16 bytes.
pub open spec fn ids_err(external: ExternalIds, e: RemoteIdError) -> bool {
    e == RemoteIdError::ImdbOverflow && (imdb_text(external) matches Some(b) && b.len() > 16)
}

/// `r` holds `base` and the remote series identifiers that `external`
/// reports, as a sorted set; or the overflow error.
pub open spec fn tmdb_ids_result(
    base: RemoteSeriesId,
    external: ExternalIds,
    r: Result<Vec<RemoteSeriesId>, RemoteIdError>,
) -> bool {
    match r {
        Ok(v) => ids_ok(base, external, v@),
        Err(e) => ids_err(external, e),
    }
}

/// The remote identifiers of a series on themoviedb.org: its own and the
/// external ones reported for it, as a sorted set.
pub fn tmdb_series_remote_ids(id: u32, external: &ExternalIds) -> (r: Result<Vec<RemoteSeriesId>, RemoteIdError>)
    ensures
        tmdb_ids_result(RemoteSeriesId::Tmdb { id }, *external, r),
{
    external_id_set(RemoteSeriesId::Tmdb { id }, external)
}

/// `base` and the external identifiers reported, as a sorted set.
fn external_id_set(base: RemoteSeriesId, external: &ExternalIds) -> (r: Result<Vec<RemoteSeriesId>, RemoteIdError>)
    ensures
        tmdb_ids_result(base, *external, r),
{
    let extra = external.as_remote_series();
    let ghost ev = extra@;
    let r = remote_id_set(base, extra);
    proof {
        let has_t: int = if external.tvdb_id is Some { 1 } else { 0 };
        assert forall|x: RemoteSeriesId| ev.contains(Ok::<RemoteSeriesId, RemoteIdError>(x)) <==> {
            ||| (external.tvdb_id matches Some(t) && x == RemoteSeriesId::Tvdb { id: t })
            ||| (imdb_text(*external) matches Some(b) && is_imdb_id(b, x))
        } by {
            if ev.contains(Ok::<RemoteSeriesId, RemoteIdError>(x)) {
                let j = choose|j: int| 0 <= j < ev.len() && ev[j] == Ok::<RemoteSeriesId, RemoteIdError>(x);
                if !(external.tvdb_id is Some && j == 0) {
                    assert(j == ev.len() - 1);
                }
            }
            if external.tvdb_id matches Some(t) && x == (RemoteSeriesId::Tvdb { id: t }) {
                assert(ev[0] == Ok::<RemoteSeriesId, RemoteIdError>(x));
            }
            match imdb_text(*external) {
                Some(b) => {
                    if is_imdb_id(b, x) {
                        let last = ev[ev.len() - 1];
                        let y = last->Ok_0;
                        assert(y->Imdb_id@ == x->Imdb_id@);
                        assert(y->Imdb_id.0 =~= x->Imdb_id.0);
                        assert(y == x);
                    }
                },
                None => {},
            }
        }
        match r {
            Ok(_) => {
                match imdb_text(*external) {
                    Some(b) => {
                        if b.len() > 16 {
                            assert(ev[ev.len() - 1] is Ok);
                        }
                    },
                    None => {},
                }
            },
            Err(e) => {
                let i = choose|i: int| 0 <= i < ev.len() && ev[i] == Err::<RemoteSeriesId, RemoteIdError>(e) && forall|j: int|
                    0 <= j < i ==> ev[j] is Ok;
                if !(external.tvdb_id is Some && i == 0) {
                    assert(i == ev.len() - 1);
                }
            },
        }
    }
    r
}

/// The series and its seasons that themoviedb.org's details and images
/// describe, under the local identifier `id`.
pub fn tmdb_series(details: TmdbSeriesDetails, images: TmdbImages, id: SeriesId) -> (r: (UpdateSeries, Vec<Season>))
    ensures
        r.0.id == id,
        r.0.remote_id == (RemoteSeriesId::Tmdb { id: details.id }),
        r.0.title@ == first_text(details.original_name, details.name),
        opt_text(r.0.language) == non_empty(details.original_language),
        r.0.first_air_date == details.first_air_date,
        r.0.overview@ == text_or_empty(details.overview),
        tmdb_graphics_of(details.poster_path, details.backdrop_path, images, r.0.graphics),
        r.1@.len() == details.seasons@.len(),
        forall|i: int| 0 <= i < r.1@.len() ==> tmdb_season_of(details.seasons@[i], #[trigger] r.1@[i]),
{
    let graphics = tmdb_graphics(&details.poster_path, &details.backdrop_path, &images);
    let title = match details.original_name {
        Some(t) => t,
        None => string_or_empty(details.name),
    };
    let series = UpdateSeries {
        id,
        title,
        language: filter_language(details.original_language),
        first_air_date: details.first_air_date,
        overview: string_or_empty(details.overview),
        graphics,
        remote_id: RemoteSeriesId::Tmdb { id: details.id },
    };
    let ghost all = details.seasons@;
    let mut seasons_in = details.seasons;
    let mut seasons: Vec<Season> = Vec::new();
    let n: usize = seasons_in.len();
    let mut i: usize = 0;
    while seasons_in.len() > 0
        invariant
            seasons_in@ == all.skip(i as int),
            i <= all.len(),
            all.len() == n,
            seasons@.len() == i,
            forall|j: int| 0 <= j < i ==> tmdb_season_of(all[j], #[trigger] seasons@[j]),
        decreases seasons_in@.len(),
    {
        let d = seasons_in.remove(0);
        assert(d == all[i as int]);
        seasons.push(tmdb_season(d));
        i = i + 1;
        assert(seasons_in@ =~= all.skip(i as int));
    }
    (series, seasons)
}

/// The local series that the first known remote identifier stands for,
/// or a fresh random one when none is known.
pub fn resolve_series_id(db: &RemotesDatabase, ids: &[RemoteSeriesId]) -> (r: SeriesId)
    requires
        db.wf(),
    ensures
        first_known(ids@, db.view().series) matches Some(id) ==> r == id,
{
    match db.lookup_series(ids) {
        Some(id) => id,
        None => SeriesId::random(),
    }
}

/// The local movie that the first known remote identifier stands for, or
/// a fresh random one when none is known.
pub fn resolve_movie_id(db: &RemotesDatabase, ids: &[RemoteSeriesId]) -> (r: MovieId)
    requires
        db.wf(),
    ensures
        first_known(ids@, db.view().movies) matches Some(id) ==> r == id,
{
    match db.lookup_movie(ids) {
        Some(id) => id,
        None => MovieId::random(),
    }
}

/// The local episode for a downloaded one: the episode its own remote
/// identifier stands for, else the one the first known of all its remote
/// identifiers stands for, else a fresh random one.
pub fn resolve_episode_id(db: &RemotesDatabase, remote_id: RemoteEpisodeId, ids: &[RemoteEpisodeId]) -> (r: EpisodeId)
    requires
        db.wf(),
    ensures
        db.view().episodes.contains_key(remote_id) ==> r == db.view().episodes[remote_id],
        !db.view().episodes.contains_key(remote_id) ==> (first_known(ids@, db.view().episodes) matches Some(id)
            ==> r == id),
{
    match db.find_episode_by_remote(remote_id) {
        Some(id) => id,
        None => match db.lookup_episode(ids) {
            Some(id) => id,
            None => EpisodeId::random(),
        },
    }
}

/// Movie details as themoviedb.org reports them.
pub struct TmdbMovieDetails {
    pub id: u32,
    pub title: Option<String>,
    pub original_title: Option<String>,
    pub original_language: Option<String>,
    pub overview: Option<String>,
    pub poster_path: Option<String>,
    pub backdrop_path: Option<String>,
    pub release_date: Option<Date>,
}

/// The kind of a release, as themoviedb.org numbers them from one.
#[derive(Clone, Copy, PartialEq, Eq, Structural, Debug)]
pub enum ReleaseType {
    Premiere,
    TheatricalLimited,
    Theatrical,
    Digital,
    Physical,
    Tv,
}

impl ReleaseType {
    /// The kind that a number names: one to six, in the order above.
    pub fn from_number(n: u8) -> (r: Option<ReleaseType>)
        ensures
            r == (if n == 1 {
                Some(ReleaseType::Premiere)
            } else if n == 2 {
                Some(ReleaseType::TheatricalLimited)
            } else if n == 3 {
                Some(ReleaseType::Theatrical)
            } else if n == 4 {
                Some(ReleaseType::Digital)
            } else if n == 5 {
                Some(ReleaseType::Physical)
            } else if n == 6 {
                Some(ReleaseType::Tv)
            } else {
                None
            }),
    {
        if n == 1 {
            Some(ReleaseType::Premiere)
        } else if n == 2 {
            Some(ReleaseType::TheatricalLimited)
        } else if n == 3 {
            Some(ReleaseType::Theatrical)
        } else if n == 4 {
            Some(ReleaseType::Digital)
        } else if n == 5 {
            Some(ReleaseType::Physical)
        } else if n == 6 {
            Some(ReleaseType::Tv)
        } else {
            None
        }
    }
}

/// A release as themoviedb.org reports it.
#[derive(Clone, Copy, Debug)]
pub struct TmdbReleaseDate {
    pub release_date: Timestamp,
    pub kind: ReleaseType,
}

/// The releases in one country as themoviedb.org reports them.
pub struct TmdbReleaseDateResult {
    pub iso_3166_1: String,
    pub release_dates: Vec<TmdbReleaseDate>,
}

/// The kind of a movie release.
#[derive(Clone, Copy, PartialEq, Eq, Structural, Debug)]
pub enum MovieReleaseKind {
    Premiere,
    TheatricalLimited,
    Theatrical,
    Digital,
    Physical,
    Tv,
}

/// The kind of movie release that a release type is.
pub open spec fn release_kind(t: ReleaseType) -> MovieReleaseKind {
    match t {
        ReleaseType::Premiere => MovieReleaseKind::Premiere,
        ReleaseType::TheatricalLimited => MovieReleaseKind::TheatricalLimited,
        ReleaseType::Theatrical => MovieReleaseKind::Theatrical,
        ReleaseType::Digital => MovieReleaseKind::Digital,
        ReleaseType::Physical => MovieReleaseKind::Physical,
        ReleaseType::Tv => MovieReleaseKind::Tv,
    }
}

/// A release of a movie.
#[derive(Clone, Copy, Debug)]
pub struct MovieReleaseDate {
    pub date: Timestamp,
    pub kind: MovieReleaseKind,
}

/// The releases of a movie in one country.
#[derive(Debug)]
pub struct MovieReleaseDates {
    pub country: String,
    pub dates: Vec<MovieReleaseDate>,
}

/// A movie as downloaded, to update the local one.
#[derive(Debug)]
pub struct UpdateMovie {
    pub id: MovieId,
    pub title: String,
    pub language: Option<String>,
    pub release_date: Option<Date>,
    pub overview: String,
    pub graphics: RemoteGraphics,
    pub remote_id: RemoteSeriesId,
    pub release_dates: Vec<MovieReleaseDates>,
}

/// `r` holds the releases of `d`, each with its kind.
pub open spec fn releases_of(d: TmdbReleaseDateResult, r: MovieReleaseDates) -> bool {
    &&& r.country@ == d.iso_3166_1@
    &&& r.dates@.len() == d.release_dates@.len()
    &&& forall|i: int|
        0 <= i < r.dates@.len() ==> (#[trigger] r.dates@[i]).date == d.release_dates@[i].release_date
            && r.dates@[i].kind == release_kind(d.release_dates@[i].kind)
}

fn movie_releases(d: TmdbReleaseDateResult) -> (r: MovieReleaseDates)
    ensures
        releases_of(d, r),
{
    let mut dates: Vec<MovieReleaseDate> = Vec::new();
    let mut i: usize = 0;
    while i < d.release_dates.len()
        invariant
            i <= d.release_dates@.len(),
            dates@.len() == i,
            forall|j: int|
                0 <= j < i ==> (#[trigger] dates@[j]).date == d.release_dates@[j].release_date && dates@[j].kind
                    == release_kind(d.release_dates@[j].kind),
        decreases d.release_dates@.len() - i,
    {
        let rd = d.release_dates[i];
        let kind = match rd.kind {
            ReleaseType::Premiere => MovieReleaseKind::Premiere,
            ReleaseType::TheatricalLimited => MovieReleaseKind::TheatricalLimited,
            ReleaseType::Theatrical => MovieReleaseKind::Theatrical,
            ReleaseType::Digital => MovieReleaseKind::Digital,
            ReleaseType::Physical => MovieReleaseKind::Physical,
            ReleaseType::Tv => MovieReleaseKind::Tv,
        };
        dates.push(MovieReleaseDate { date: rd.release_date, kind });
        i = i + 1;
    }
    MovieReleaseDates { country: d.iso_3166_1, dates }
}

/// The remote identifiers of a movie on themoviedb.org: its own and IMDb's
/// when reported, as a sorted set; or the overflow error when the IMDb
/// identifier is longer than 16 bytes.
pub fn tmdb_movie_remote_ids(id: u32, external: &ExternalIds) -> (r: Result<Vec<RemoteSeriesId>, RemoteIdError>)
    ensures
        tmdb_ids_result(RemoteSeriesId::Tmdb { id }, ExternalIds { imdb_id: external.imdb_id, tvdb_id: None }, r),
{
    let movie = external.as_remote_movie();
    let mut extra: Vec<Result<RemoteSeriesId, RemoteIdError>> = Vec::new();
    if movie.len() > 0 {
        let converted = match movie[0] {
            Ok(RemoteMovieId::Tmdb { id }) => Ok(RemoteSeriesId::Tmdb { id }),
            Ok(RemoteMovieId::Imdb { id }) => Ok(RemoteSeriesId::Imdb { id }),
            Err(e) => Err(e),
        };
        extra.push(converted);
    }
    let ghost ev = extra@;
    let ghost ext = ExternalIds { imdb_id: external.imdb_id, tvdb_id: None };
    assert(imdb_text(ext) == imdb_text(*external));
    let r = remote_id_set(RemoteSeriesId::Tmdb { id }, extra);
    proof {
        assert forall|x: RemoteSeriesId| ev.contains(Ok::<RemoteSeriesId, RemoteIdError>(x)) <==> (imdb_text(
            ext,
        ) matches Some(b) && is_imdb_id(b, x)) by {
            if ev.contains(Ok::<RemoteSeriesId, RemoteIdError>(x)) {
                assert(ev[0] == Ok::<RemoteSeriesId, RemoteIdError>(x));
            }
            match imdb_text(ext) {
                Some(b) => {
                    if is_imdb_id(b, x) {
                        let y = ev[0]->Ok_0;
                        assert(y->Imdb_id@ == x->Imdb_id@);
                        assert(y->Imdb_id.0 =~= x->Imdb_id.0);
                        assert(y == x);
                    }
                },
                None => {},
            }
        }
        match r {
            Ok(_) => {
                match imdb_text(ext) {
                    Some(b) => {
                        if b.len() > 16 {
                            assert(ev[0] is Ok);
                        }
                    },
                    None => {},
                }
            },
            Err(e) => {},
        }
    }
    r
}

/// The movie that themoviedb.org's details, release dates and images
/// describe, under the local identifier `id`.
pub fn tmdb_movie(
    details: TmdbMovieDetails,
    releases: Vec<TmdbReleaseDateResult>,
    images: TmdbImages,
    id: MovieId,
) -> (r: UpdateMovie)
    ensures
        r.id == id,
        r.remote_id == (RemoteSeriesId::Tmdb { id: details.id }),
        r.title@ == first_text(details.original_title, details.title),
        opt_text(r.language) == non_empty(details.original_language),
        r.release_date == details.release_date,
        r.overview@ == text_or_empty(details.overview),
        tmdb_graphics_of(details.poster_path, details.backdrop_path, images, r.graphics),
        r.release_dates@.len() == releases@.len(),
        forall|i: int| 0 <= i < r.release_dates@.len() ==> releases_of(releases@[i], #[trigger] r.release_dates@[i]),
{
    let graphics = tmdb_graphics(&details.poster_path, &details.backdrop_path, &images);
    let title = match details.original_title {
        Some(t) => t,
        None => string_or_empty(details.title),
    };
    let ghost all = releases@;
    let mut rest = releases;
    let mut release_dates: Vec<MovieReleaseDates> = Vec::new();
    let n: usize = rest.len();
    let mut i: usize = 0;
    while rest.len() > 0
        invariant
            rest@ == all.skip(i as int),
            i <= all.len(),
            all.len() == n,
            release_dates@.len() == i,
            forall|j: int| 0 <= j < i ==> releases_of(all[j], #[trigger] release_dates@[j]),
        decreases rest@.len(),
    {
        let d = rest.remove(0);
        assert(d == all[i as int]);
        release_dates.push(movie_releases(d));
        i = i + 1;
        assert(rest@ =~= all.skip(i as int));
    }
    UpdateMovie {
        id,
        title,
        language: filter_language(details.original_language),
        release_date: details.release_date,
        overview: string_or_empty(details.overview),
        graphics,
        remote_id: RemoteSeriesId::Tmdb { id: details.id },
        release_dates,
    }
}

/// An episode as themoviedb.org reports it.
pub struct TmdbEpisodeDetail {
    pub id: u32,
    pub episode_number: u32,
    pub air_date: Option<Date>,
    pub name: Option<String>,
    pub overview: Option<String>,
    pub still_path: Option<String>,
}

/// The episode of season `season` that themoviedb.org's details describe,
/// under the local identifier `id`.
pub fn tmdb_episode(season: SeasonNumber, e: TmdbEpisodeDetail, id: EpisodeId) -> (r: Episode)
    ensures
        r.id == id,
        opt_text(r.name) == opt_text(e.name),
        r.overview@ == text_or_empty(e.overview),
        r.absolute_number is None,
        r.season == season,
        r.number == e.episode_number,
        r.aired == e.air_date,
        r.compat_filename is None,
        tmdb_image_of(e.still_path, r.graphics.filename),
        r.remote_id == Some(RemoteEpisodeId::Tmdb { id: e.id }),
{
    let filename = tmdb_image(&e.still_path);
    Episode {
        id,
        name: e.name,
        overview: string_or_empty(e.overview),
        absolute_number: None,
        season,
        number: e.episode_number,
        aired: e.air_date,
        compat_filename: None,
        graphics: EpisodeGraphics { filename },
        remote_id: Some(RemoteEpisodeId::Tmdb { id: e.id }),
    }
}

/// Episode identifiers seen as series identifiers.
pub open spec fn episode_ids_view(v: Seq<RemoteEpisodeId>) -> Seq<RemoteSeriesId> {
    v.map_values(|e: RemoteEpisodeId| episode_as_series(e))
}

/// The remote identifiers of an episode: its own and the external ones
/// reported for it, as a set sorted as series identifiers are; or the
/// overflow error when the IMDb identifier is longer than 16 bytes.
pub fn episode_remote_ids(base: RemoteEpisodeId, external: &ExternalIds) -> (r: Result<Vec<RemoteEpisodeId>, RemoteIdError>)
    ensures
        match r {
            Ok(v) => ids_ok(episode_as_series(base), *external, episode_ids_view(v@)),
            Err(e) => ids_err(*external, e),
        },
{
    match external_id_set(base.as_series(), external) {
        Ok(v) => {
            let mut out: Vec<RemoteEpisodeId> = Vec::new();
            let mut i: usize = 0;
            while i < v.len()
                invariant
                    i <= v@.len(),
                    episode_ids_view(out@) == v@.take(i as int),
                decreases v@.len() - i,
            {
                let e = as_episode(&v[i]);
                proof {
                    assert(episode_ids_view(out@.push(e)) =~= episode_ids_view(out@).push(episode_as_series(e)));
                }
                out.push(e);
                i = i + 1;
                assert(episode_ids_view(out@) =~= v@.take(i as int));
            }
            assert(v@.take(i as int) =~= v@);
            Ok(out)
        },
        Err(e) => Err(e),
    }
}

/// The remote identifiers of a series on thetvdb.com: its own and IMDb's
/// when given and not empty, as a sorted set; or the overflow error when
/// the IMDb identifier is longer than 16 bytes.
pub fn tvdb_series_remote_ids(id: u32, imdb_id: &Option<String>) -> (r: Result<Vec<RemoteSeriesId>, RemoteIdError>)
    ensures
        tmdb_ids_result(RemoteSeriesId::Tvdb { id }, ExternalIds { imdb_id: *imdb_id, tvdb_id: None }, r),
{
    let external = ExternalIds { imdb_id: imdb_id.clone(), tvdb_id: None };
    external_id_set(RemoteSeriesId::Tvdb { id }, &external)
}

/// The remote identifiers of an episode on thetvdb.com: its own and IMDb's
/// when given and not empty; or the overflow error.
pub fn tvdb_episode_remote_ids(id: u32, imdb_id: &Option<String>) -> (r: Result<Vec<RemoteEpisodeId>, RemoteIdError>)
    ensures
        match r {
            Ok(v) => ids_ok(
                RemoteSeriesId::Tvdb { id },
                ExternalIds { imdb_id: *imdb_id, tvdb_id: None },
                episode_ids_view(v@),
            ),
            Err(e) => ids_err(ExternalIds { imdb_id: *imdb_id, tvdb_id: None }, e),
        },
{
    let external = ExternalIds { imdb_id: imdb_id.clone(), tvdb_id: None };
    episode_remote_ids(RemoteEpisodeId::Tvdb { id }, &external)
}

/// A series as thetvdb.com reports it.
pub struct TvdbSeriesValue {
    pub id: u32,
    pub banner: Option<String>,
    pub fanart: Option<String>,
    pub overview: Option<String>,
    pub poster: Option<String>,
    pub series_name: String,
    pub imdb_id: Option<String>,
}

/// The series with thetvdb.com's id `id` that its report describes, under
/// the local identifier `series_id`; it receives updates.
pub fn tvdb_series(id: u32, value: TvdbSeriesValue, series_id: SeriesId) -> (r: Series)
    ensures
        r.id == series_id,
        r.title@ == value.series_name@,
        r.first_air_date is None,
        r.overview@ == text_or_empty(value.overview),
        r.compat_poster is None,
        r.compat_banner is None,
        r.compat_fanart is None,
        tvdb_image_of(value.banner, r.graphics.banner),
        tvdb_image_of(value.fanart, r.graphics.fanart),
        tvdb_image_of(value.poster, r.graphics.poster),
        r.receives_updates,
        r.compat_last_modified is None,
        r.compat_last_etag is None,
        r.compat_last_sync.wf(),
        r.compat_last_sync@ == Map::<RemoteSeriesId, Timestamp>::empty(),
        r.remote_id == Some(RemoteSeriesId::Tvdb { id }),
{
    let graphics = SeriesGraphics {
        poster: tvdb_image(&value.poster),
        banner: tvdb_image(&value.banner),
        fanart: tvdb_image(&value.fanart),
    };
    Series {
        id: series_id,
        title: value.series_name,
        first_air_date: None,
        overview: string_or_empty(value.overview),
        compat_poster: None,
        compat_banner: None,
        compat_fanart: None,
        graphics,
        receives_updates: true,
        compat_last_modified: None,
        compat_last_etag: None,
        compat_last_sync: RemoteMap::new(),
        remote_id: Some(RemoteSeriesId::Tvdb { id }),
    }
}

/// An episode as thetvdb.com reports it.
pub struct TvdbEpisodeRow {
    pub id: u32,
    pub absolute_number: Option<u32>,
    pub aired_episode_number: u32,
    pub aired_season: Option<u32>,
    pub episode_name: Option<String>,
    pub overview: Option<String>,
    pub filename: Option<String>,
    pub first_aired: Option<Date>,
    pub imdb_id: Option<String>,
}

/// The episode that thetvdb.com's row describes, under the local identifier
/// `id`; thetvdb.com's season zero is the specials season.
pub fn tvdb_episode(row: TvdbEpisodeRow, id: EpisodeId) -> (r: Episode)
    ensures
        r.id == id,
        opt_text(r.name) == opt_text(row.episode_name),
        r.overview@ == text_or_empty(row.overview),
        r.absolute_number == row.absolute_number,
        r.season == season_of_number(row.aired_season),
        r.number == row.aired_episode_number,
        r.aired == row.first_aired,
        r.compat_filename is None,
        tvdb_image_of(row.filename, r.graphics.filename),
        r.remote_id == Some(RemoteEpisodeId::Tvdb { id: row.id }),
{
    let filename = tvdb_image(&row.filename);
    Episode {
        id,
        name: row.episode_name,
        overview: string_or_empty(row.overview),
        absolute_number: row.absolute_number,
        season: season_from_number(row.aired_season),
        number: row.aired_episode_number,
        aired: row.first_aired,
        compat_filename: None,
        graphics: EpisodeGraphics { filename },
        remote_id: Some(RemoteEpisodeId::Tvdb { id: row.id }),
    }
}

/// A series found by a search on thetvdb.com.
pub struct TvdbSearchRow {
    pub id: u32,
    pub series_name: String,
    pub poster: Option<String>,
    pub overview: Option<String>,
    pub first_aired: Option<Date>,
}

/// `r` is the search result that thetvdb.com's row describes.
pub open spec fn tvdb_found_of(row: TvdbSearchRow, r: SearchSeries) -> bool {
    &&& r.id == RemoteSeriesId::Tvdb { id: row.id }
    &&& r.name@ == row.series_name@
    &&& tvdb_image_of(row.poster, r.poster)
    &&& r.overview@ == text_or_empty(row.overview)
    &&& r.first_aired == row.first_aired
}

/// The search results that thetvdb.com's rows describe, in order.
pub fn tvdb_search_series(rows: Vec<TvdbSearchRow>) -> (r: Vec<SearchSeries>)
    ensures
        r@.len() == rows@.len(),
        forall|i: int| 0 <= i < r@.len() ==> tvdb_found_of(rows@[i], #[trigger] r@[i]),
{
    let ghost all = rows@;
    let mut rest = rows;
    let mut out: Vec<SearchSeries> = Vec::new();
    let n: usize = rest.len();
    let mut i: usize = 0;
    while rest.len() > 0
        invariant
            rest@ == all.skip(i as int),
            i <= all.len(),
            all.len() == n,
            out@.len() == i,
            forall|j: int| 0 <= j < i ==> tvdb_found_of(all[j], #[trigger] out@[j]),
        decreases rest@.len(),
    {
        let row = rest.remove(0);
        assert(row == all[i as int]);
        let poster = tvdb_image(&row.poster);
        out.push(SearchSeries {
            id: RemoteSeriesId::Tvdb { id: row.id },
            name: row.series_name,
            poster,
            overview: string_or_empty(row.overview),
            first_aired: row.first_aired,
        });
        i = i + 1;
        assert(rest@ =~= all.skip(i as int));
    }
    out
}

/// A series found by a search on themoviedb.org.
pub struct TmdbSearchSeriesRow {
    pub id: u32,
    pub original_name: Option<String>,
    pub overview: Option<String>,
    pub poster_path: Option<String>,
    pub first_air_date: Option<String>,
}

/// A movie found by a search on themoviedb.org.
pub struct TmdbSearchMovieRow {
    pub id: u32,
    pub original_title: Option<String>,
    pub overview: Option<String>,
    pub poster_path: Option<String>,
    pub release_date: Option<String>,
}

/// `r` is the search result that themoviedb.org's row describes, with its
/// first air date read.
pub open spec fn tmdb_found_series_of(row: TmdbSearchSeriesRow, r: SearchSeries) -> bool {
    &&& r.id == RemoteSeriesId::Tmdb { id: row.id }
    &&& r.name@ == text_or_empty(row.original_name)
    &&& tmdb_image_of(row.poster_path, r.poster)
    &&& r.overview@ == text_or_empty(row.overview)
    &&& optional_date(opt_text(row.first_air_date)) == Ok::<Option<Date>, DateError>(r.first_aired)
}

/// `r` is the search result that themoviedb.org's row describes, with its
/// release date read.
pub open spec fn tmdb_found_movie_of(row: TmdbSearchMovieRow, r: SearchMovie) -> bool {
    &&& r.id == RemoteMovieId::Tmdb { id: row.id }
    &&& r.title@ == text_or_empty(row.original_title)
    &&& tmdb_image_of(row.poster_path, r.poster)
    &&& r.overview@ == text_or_empty(row.overview)
    &&& optional_date(opt_text(row.release_date)) == Ok::<Option<Date>, DateError>(r.release_date)
}

/// The search results that themoviedb.org's series rows describe, in
/// order; an error when a non-empty first air date is no date.
pub fn tmdb_search_series(rows: Vec<TmdbSearchSeriesRow>) -> (r: Result<Vec<SearchSeries>, DateError>)
    ensures
        match r {
            Ok(v) => v@.len() == rows@.len() && forall|i: int|
                0 <= i < v@.len() ==> tmdb_found_series_of(rows@[i], #[trigger] v@[i]),
            Err(_) => exists|i: int|
                0 <= i < rows@.len() && optional_date(opt_text(#[trigger] rows@[i].first_air_date)) is Err,
        },
{
    let mut k: usize = 0;
    while k < rows.len()
        invariant
            k <= rows@.len(),
            forall|j: int| 0 <= j < k ==> optional_date(opt_text(#[trigger] rows@[j].first_air_date)) is Ok,
        decreases rows@.len() - k,
    {
        match optional_date_text(&rows[k].first_air_date) {
            Ok(_) => {},
            Err(e) => {
                return Err(e);
            },
        }
        k = k + 1;
    }
    let ghost all = rows@;
    let mut rest = rows;
    let mut out: Vec<SearchSeries> = Vec::new();
    let n: usize = rest.len();
    let mut i: usize = 0;
    while rest.len() > 0
        invariant
            rest@ == all.skip(i as int),
            i <= all.len(),
            all.len() == n,
            out@.len() == i,
            forall|j: int| 0 <= j < all.len() ==> optional_date(opt_text(#[trigger] all[j].first_air_date)) is Ok,
            forall|j: int| 0 <= j < i ==> tmdb_found_series_of(all[j], #[trigger] out@[j]),
        decreases rest@.len(),
    {
        let row = rest.remove(0);
        assert(row == all[i as int]);
        let first_aired = match optional_date_text(&row.first_air_date) {
            Ok(d) => d,
            Err(e) => {
                assert(optional_date(opt_text(all[i as int].first_air_date)) is Ok);
                return Err(e);
            },
        };
        let poster = tmdb_image(&row.poster_path);
        out.push(SearchSeries {
            id: RemoteSeriesId::Tmdb { id: row.id },
            name: string_or_empty(row.original_name),
            poster,
            overview: string_or_empty(row.overview),
            first_aired,
        });
        i = i + 1;
        assert(rest@ =~= all.skip(i as int));
    }
    Ok(out)
}

/// The search results that themoviedb.org's movie rows describe, in order;
/// an error when a non-empty release date is no date.
pub fn tmdb_search_movies(rows: Vec<TmdbSearchMovieRow>) -> (r: Result<Vec<SearchMovie>, DateError>)
    ensures
        match r {
            Ok(v) => v@.len() == rows@.len() && forall|i: int|
                0 <= i < v@.len() ==> tmdb_found_movie_of(rows@[i], #[trigger] v@[i]),
            Err(_) => exists|i: int|
                0 <= i < rows@.len() && optional_date(opt_text(#[trigger] rows@[i].release_date)) is Err,
        },
{
    let mut k: usize = 0;
    while k < rows.len()
        invariant
            k <= rows@.len(),
            forall|j: int| 0 <= j < k ==> optional_date(opt_text(#[trigger] rows@[j].release_date)) is Ok,
        decreases rows@.len() - k,
    {
        match optional_date_text(&rows[k].release_date) {
            Ok(_) => {},
            Err(e) => {
                return Err(e);
            },
        }
        k = k + 1;
    }
    let ghost all = rows@;
    let mut rest = rows;
    let mut out: Vec<SearchMovie> = Vec::new();
    let n: usize = rest.len();
    let mut i: usize = 0;
    while rest.len() > 0
        invariant
            rest@ == all.skip(i as int),
            i <= all.len(),
            all.len() == n,
            out@.len() == i,
            forall|j: int| 0 <= j < all.len() ==> optional_date(opt_text(#[trigger] all[j].release_date)) is Ok,
            forall|j: int| 0 <= j < i ==> tmdb_found_movie_of(all[j], #[trigger] out@[j]),
        decreases rest@.len(),
    {
        let row = rest.remove(0);
        assert(row == all[i as int]);
        let release_date = match optional_date_text(&row.release_date) {
            Ok(d) => d,
            Err(e) => {
                assert(optional_date(opt_text(all[i as int].release_date)) is Ok);
                return Err(e);
            },
        };
        let poster = tmdb_image(&row.poster_path);
        out.push(SearchMovie {
            id: RemoteMovieId::Tmdb { id: row.id },
            title: string_or_empty(row.original_title),
            poster,
            overview: string_or_empty(row.overview),
            release_date,
        });
        i = i + 1;
        assert(rest@ =~= all.skip(i as int));
    }
    Ok(out)
}

} // verus!
