use vstd::prelude::*;

use crate::etag::Etag;
use crate::ids::{EpisodeId, MovieId, SeriesId};
use crate::image::{Image, ImageV2};
use crate::remote::{RemoteEpisodeId, RemoteMovieId, RemoteSeriesId};
use crate::remote_map::RemoteMap;
use crate::season::SeasonNumber;
use crate::text::{decimal_text, push_decimal, push_str, string_of};
use crate::time::{Date, Timestamp};

verus! {

/// Milliseconds in a day.
pub const MILLIS_PER_DAY: i64 = 86_400_000;

/// Milliseconds from midnight to noon.
pub const MILLIS_TO_NOON: i64 = 43_200_000;

/// The day number of 1970-01-01, where the Unix epoch falls.
pub const EPOCH_DAY: i64 = 719_163;

/// Associated series graphics.
#[derive(Debug)]
pub struct SeriesGraphics {
    /// Poster image.
    pub poster: Option<ImageV2>,
    /// Banner image.
    pub banner: Option<ImageV2>,
    /// Fanart image.
    pub fanart: Option<ImageV2>,
}

impl SeriesGraphics {
    /// No graphics.
    pub fn new() -> (g: SeriesGraphics)
        ensures
            g.poster is None,
            g.banner is None,
            g.fanart is None,
    {
        SeriesGraphics { poster: None, banner: None, fanart: None }
    }

    /// Whether there are no graphics.
    pub fn is_empty(&self) -> (r: bool)
        ensures
            r == (self.poster is None && self.banner is None && self.fanart is None),
    {
        self.poster.is_none() && self.banner.is_none() && self.fanart.is_none()
    }
}

/// A series.
#[derive(Debug)]
pub struct Series {
    /// Unique identifier for series.
    pub id: SeriesId,
    /// Title of the series.
    pub title: String,
    /// First air date of the series.
    pub first_air_date: Option<Date>,
    /// Overview of the series.
    pub overview: String,
    /// Poster image, in the older format.
    pub compat_poster: Option<Image>,
    /// Banner image, in the older format.
    pub compat_banner: Option<Image>,
    /// Fanart image, in the older format.
    pub compat_fanart: Option<Image>,
    /// Series graphics.
    pub graphics: SeriesGraphics,
    /// Whether the series receives updates.
    pub receives_updates: bool,
    /// Last modified time, as older files recorded it with the series.
    pub compat_last_modified: Option<Timestamp>,
    /// Last etag, as older files recorded it with the series.
    pub compat_last_etag: Option<Etag>,
    /// Last sync time for each remote, as older files recorded it with the
    /// series.
    pub compat_last_sync: RemoteMap<Timestamp>,
    /// The remote identifier that is used to synchronize this series.
    pub remote_id: Option<RemoteSeriesId>,
}

impl Series {
    /// Get the poster of the series.
    pub fn poster(&self) -> (r: Option<&ImageV2>)
        ensures
            match &self.graphics.poster {
                Some(p) => r == Some(p),
                None => r is None,
            },
    {
        self.graphics.poster.as_ref()
    }

    /// Get the banner of the series.
    pub fn banner(&self) -> (r: Option<&ImageV2>)
        ensures
            match &self.graphics.banner {
                Some(p) => r == Some(p),
                None => r is None,
            },
    {
        self.graphics.banner.as_ref()
    }
}

/// A movie.
#[derive(Debug)]
pub struct Movie {
    /// Unique identifier for movie.
    pub id: MovieId,
    /// The title of the movie.
    pub title: String,
    /// The remote identifier that is used to synchronize this movie.
    pub remote_id: Option<RemoteMovieId>,
}

/// Associated season graphics.
#[derive(Debug)]
pub struct SeasonGraphics {
    /// Poster for season.
    pub poster: Option<ImageV2>,
}

impl SeasonGraphics {
    /// Whether there are no graphics.
    pub fn is_empty(&self) -> (r: bool)
        ensures
            r == self.poster is None,
    {
        self.poster.is_none()
    }
}

/// A season in a series.
#[derive(Debug)]
pub struct Season {
    /// The number of the season.
    pub number: SeasonNumber,
    /// When the season first aired.
    pub air_date: Option<Date>,
    /// Name of the season.
    pub name: Option<String>,
    /// Overview of the season.
    pub overview: String,
    /// Poster image, in the older format.
    pub compat_poster: Option<Image>,
    /// Season graphics.
    pub graphics: SeasonGraphics,
}

impl Season {
    /// Get the poster of the season.
    pub fn poster(&self) -> (r: Option<&ImageV2>)
        ensures
            match &self.graphics.poster {
                Some(p) => r == Some(p),
                None => r is None,
            },
    {
        self.graphics.poster.as_ref()
    }
}

/// Associated episode graphics.
#[derive(Debug)]
pub struct EpisodeGraphics {
    /// Filename for episode.
    pub filename: Option<ImageV2>,
}

impl EpisodeGraphics {
    /// Whether there are no graphics.
    pub fn is_empty(&self) -> (r: bool)
        ensures
            r == self.filename is None,
    {
        self.filename.is_none()
    }
}

/// Noon, UTC, of a day, in milliseconds since the Unix epoch.
pub open spec fn noon_millis(d: Date) -> int {
    (d.days - EPOCH_DAY) * MILLIS_PER_DAY + MILLIS_TO_NOON
}

/// An episode in a series.
#[derive(Debug)]
pub struct Episode {
    /// Identifier of the episode.
    pub id: EpisodeId,
    /// Name of the episode.
    pub name: Option<String>,
    /// Overview of the episode.
    pub overview: String,
    /// Absolute number in the series.
    pub absolute_number: Option<u32>,
    /// Season number.
    pub season: SeasonNumber,
    /// Episode number inside of its season.
    pub number: u32,
    /// Air date of the episode.
    pub aired: Option<Date>,
    /// Episode image, in the older format.
    pub compat_filename: Option<Image>,
    /// Episode graphics.
    pub graphics: EpisodeGraphics,
    /// The remote identifier that is used to synchronize this episode.
    pub remote_id: Option<RemoteEpisodeId>,
}

impl Episode {
    /// Get filename for episode.
    pub fn filename(&self) -> (r: Option<&ImageV2>)
        ensures
            match &self.graphics.filename {
                Some(p) => r == Some(p),
                None => r is None,
            },
    {
        self.graphics.filename.as_ref()
    }

    /// Whether the episode has aired by `today`: it has an air date, and
    /// that date is not after `today`.
    pub fn has_aired(&self, today: &Date) -> (r: bool)
        ensures
            r == (self.aired matches Some(d) && d.days <= today.days),
    {
        match &self.aired {
            Some(aired) => aired.days <= today.days,
            None => false,
        }
    }

    /// When the episode aired: noon, UTC, of its air date.
    pub fn aired_timestamp(&self) -> (r: Option<Timestamp>)
        ensures
            match self.aired {
                Some(d) => r matches Some(t) && t.millis == noon_millis(d),
                None => r is None,
            },
    {
        match &self.aired {
            Some(d) => {
                let days = d.days as i64 - EPOCH_DAY;
                assert(i32::MIN - EPOCH_DAY <= days <= i32::MAX);
                assert(days * MILLIS_PER_DAY + MILLIS_TO_NOON <= i64::MAX) by (nonlinear_arith)
                    requires
                        i32::MIN - EPOCH_DAY <= days <= i32::MAX,
                ;
                assert(days * MILLIS_PER_DAY + MILLIS_TO_NOON >= i64::MIN) by (nonlinear_arith)
                    requires
                        i32::MIN - EPOCH_DAY <= days <= i32::MAX,
                ;
                Some(Timestamp { millis: days * MILLIS_PER_DAY + MILLIS_TO_NOON })
            },
            None => None,
        }
    }

    /// The season and number of the episode: `SEASON / NUMBER`.
    pub fn to_string(&self) -> (s: String)
        ensures
            s@ == match self.season {
                SeasonNumber::Specials => "Specials"@,
                SeasonNumber::Number(n) => "Season "@ + decimal_text(n as nat),
            } + " / "@ + decimal_text(self.number as nat),
    {
        let mut s = self.season.to_string();
        push_str(&mut s, " / ");
        push_decimal(&mut s, self.number as u64);
        s
    }
}

/// A pending thing to watch.
#[derive(Clone, Copy, Debug)]
pub struct Pending {
    /// The series.
    pub series: SeriesId,
    /// The episode to watch next.
    pub episode: EpisodeId,
    /// When it became pending.
    pub timestamp: Timestamp,
}

/// A series found by a search.
#[derive(Debug)]
pub struct SearchSeries {
    pub id: RemoteSeriesId,
    pub name: String,
    pub poster: Option<ImageV2>,
    pub overview: String,
    pub first_aired: Option<Date>,
}

impl SearchSeries {
    /// The poster of the series found.
    pub fn poster(&self) -> (r: Option<&ImageV2>)
        ensures
            match &self.poster {
                Some(p) => r == Some(p),
                None => r is None,
            },
    {
        self.poster.as_ref()
    }
}

/// A movie found by a search.
#[derive(Debug)]
pub struct SearchMovie {
    pub id: RemoteMovieId,
    pub title: String,
    pub poster: Option<ImageV2>,
    pub overview: String,
    pub release_date: Option<Date>,
}

impl SearchMovie {
    /// Get poster for searched movie.
    pub fn poster(&self) -> (r: Option<&ImageV2>)
        ensures
            match &self.poster {
                Some(p) => r == Some(p),
                None => r is None,
            },
    {
        self.poster.as_ref()
    }
}

} // verus!
