use vstd::prelude::*;
use vstd::utf8::encode_utf8;

use crate::raw::{zero_padded, Raw};
use crate::remote::{RemoteEpisodeId, RemoteIdError, RemoteMovieId, RemoteSeriesId};

verus! {

/// External identifiers that themoviedb.org reports for a series, movie or
/// episode.
#[derive(Clone, Debug)]
pub struct ExternalIds {
    pub imdb_id: Option<String>,
    pub tvdb_id: Option<u32>,
}

/// The bytes of an IMDb identifier, when it is present and not empty.
pub open spec fn imdb_bytes(id: Option<String>) -> Option<Seq<u8>> {
    match id {
        Some(s) => if s@.len() > 0 {
            Some(encode_utf8(s@))
        } else {
            None
        },
        None => None,
    }
}

/// The IMDb identifier, when it is present and not empty.
pub open spec fn imdb_text(ids: ExternalIds) -> Option<Seq<u8>> {
    imdb_bytes(ids.imdb_id)
}

/// The raw IMDb identifier in `id`, when it is present and not empty, or
/// the overflow error when its text is longer than 16 bytes.
pub fn imdb_raw_of(id: &Option<String>) -> (r: Option<Result<Raw<16>, RemoteIdError>>)
    ensures
        match imdb_bytes(*id) {
            None => r is None,
            Some(b) => if b.len() <= 16 {
                r matches Some(Ok(raw)) && raw@ == zero_padded(b, 16)
            } else {
                r == Some(Err::<Raw<16>, RemoteIdError>(RemoteIdError::ImdbOverflow))
            },
        },
{
    match id {
        None => None,
        Some(id) => {
            if id.as_str().unicode_len() == 0 {
                return None;
            }
            match Raw::<16>::new(id.as_str().as_bytes()) {
                Some(raw) => Some(Ok(raw)),
                None => Some(Err(RemoteIdError::ImdbOverflow)),
            }
        },
    }
}

fn imdb_raw(ids: &ExternalIds) -> (r: Option<Result<Raw<16>, RemoteIdError>>)
    ensures
        match imdb_text(*ids) {
            None => r is None,
            Some(b) => if b.len() <= 16 {
                r matches Some(Ok(raw)) && raw@ == zero_padded(b, 16)
            } else {
                r == Some(Err::<Raw<16>, RemoteIdError>(RemoteIdError::ImdbOverflow))
            },
        },
{
    imdb_raw_of(&ids.imdb_id)
}

impl ExternalIds {
    /// The remote identifiers of a series: thetvdb.com's first, then IMDb's.
    pub fn as_remote_series(&self) -> (r: Vec<Result<RemoteSeriesId, RemoteIdError>>)
        ensures
            r@.len() == (if self.tvdb_id is Some {
                1int
            } else {
                0
            }) + (if imdb_text(*self) is Some {
                1int
            } else {
                0
            }),
            self.tvdb_id matches Some(id) ==> r@[0] == Ok::<RemoteSeriesId, RemoteIdError>(
                RemoteSeriesId::Tvdb { id },
            ),
            imdb_text(*self) matches Some(b) ==> if b.len() <= 16 {
                r@.last() matches Ok(RemoteSeriesId::Imdb { id }) && id@ == zero_padded(b, 16)
            } else {
                r@.last() == Err::<RemoteSeriesId, RemoteIdError>(RemoteIdError::ImdbOverflow)
            },
    {
        let mut out = Vec::new();
        if let Some(id) = self.tvdb_id {
            out.push(Ok(RemoteSeriesId::Tvdb { id }));
        }
        match imdb_raw(self) {
            Some(Ok(id)) => out.push(Ok(RemoteSeriesId::Imdb { id })),
            Some(Err(e)) => out.push(Err(e)),
            None => {},
        }
        out
    }

    /// The remote identifiers of a movie: IMDb's, if any.
    pub fn as_remote_movie(&self) -> (r: Vec<Result<RemoteMovieId, RemoteIdError>>)
        ensures
            r@.len() == (if imdb_text(*self) is Some {
                1int
            } else {
                0
            }),
            imdb_text(*self) matches Some(b) ==> if b.len() <= 16 {
                r@[0] matches Ok(RemoteMovieId::Imdb { id }) && id@ == zero_padded(b, 16)
            } else {
                r@[0] == Err::<RemoteMovieId, RemoteIdError>(RemoteIdError::ImdbOverflow)
            },
    {
        let mut out = Vec::new();
        match imdb_raw(self) {
            Some(Ok(id)) => out.push(Ok(RemoteMovieId::Imdb { id })),
            Some(Err(e)) => out.push(Err(e)),
            None => {},
        }
        out
    }

    /// The remote identifiers of an episode: thetvdb.com's first, then
    /// IMDb's.
    pub fn as_remote_episodes(&self) -> (r: Vec<Result<RemoteEpisodeId, RemoteIdError>>)
        ensures
            r@.len() == (if self.tvdb_id is Some {
                1int
            } else {
                0
            }) + (if imdb_text(*self) is Some {
                1int
            } else {
                0
            }),
            self.tvdb_id matches Some(id) ==> r@[0] == Ok::<RemoteEpisodeId, RemoteIdError>(
                RemoteEpisodeId::Tvdb { id },
            ),
            imdb_text(*self) matches Some(b) ==> if b.len() <= 16 {
                r@.last() matches Ok(RemoteEpisodeId::Imdb { id }) && id@ == zero_padded(b, 16)
            } else {
                r@.last() == Err::<RemoteEpisodeId, RemoteIdError>(RemoteIdError::ImdbOverflow)
            },
    {
        let mut out = Vec::new();
        if let Some(id) = self.tvdb_id {
            out.push(Ok(RemoteEpisodeId::Tvdb { id }));
        }
        match imdb_raw(self) {
            Some(Ok(id)) => out.push(Ok(RemoteEpisodeId::Imdb { id })),
            Some(Err(e)) => out.push(Err(e)),
            None => {},
        }
        out
    }
}

} // verus!
