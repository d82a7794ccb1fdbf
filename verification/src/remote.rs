use vstd::prelude::*;
use vstd::std_specs::cmp::PartialEqSpecImpl;
use vstd::utf8::encode_utf8;

use crate::raw::{canonical_raw, graphic_text, lemma_canonical_text, lemma_graphic_text_ascii, zero_padded, Raw};
use crate::text::{
    ascii_chars, decimal_text, lemma_ascii_encode, lemma_decimal_ascii, lemma_u32_text_roundtrip,
    parse_u32, parse_u32_spec, push_decimal, push_str, string_of,
};

verus! {

/// A series as identified by a remote service.
#[derive(Clone, Copy, Debug, Hash, PartialOrd, Ord)]
#[allow(inconsistent_fields)]
pub enum RemoteSeriesId {
    Tvdb { id: u32 },
    Tmdb { id: u32 },
    Imdb { id: Raw<16> },
}

/// An episode as identified by a remote service.
#[derive(Clone, Copy, Debug, Hash, PartialOrd, Ord)]
#[allow(inconsistent_fields)]
pub enum RemoteEpisodeId {
    Tvdb { id: u32 },
    Tmdb { id: u32 },
    Imdb { id: Raw<16> },
}

/// A movie as identified by a remote service.
#[derive(Clone, Copy, Debug, Hash, PartialOrd, Ord)]
#[allow(inconsistent_fields)]
pub enum RemoteMovieId {
    Tmdb { id: u32 },
    Imdb { id: Raw<16> },
}

/// Why a textual remote identifier was refused.
#[derive(Clone, Copy, PartialEq, Eq, Structural, Debug)]
pub enum RemoteIdError {
    /// The text holds no `:`.
    MissingColon,
    /// The number after `tvdb:` or `tmdb:` is not a `u32`.
    InvalidNumber,
    /// The identifier after `imdb:` is longer than 16 bytes.
    ImdbOverflow,
    /// The text before the `:` names no known service.
    UnknownKind,
}

impl PartialEq for RemoteSeriesId {
    fn eq(&self, other: &Self) -> (r: bool) {
        match (self, other) {
            (RemoteSeriesId::Tvdb { id: a }, RemoteSeriesId::Tvdb { id: b }) => *a == *b,
            (RemoteSeriesId::Tmdb { id: a }, RemoteSeriesId::Tmdb { id: b }) => *a == *b,
            (RemoteSeriesId::Imdb { id: a }, RemoteSeriesId::Imdb { id: b }) => *a == *b,
            _ => false,
        }
    }
}

impl Eq for RemoteSeriesId {
}

impl PartialEqSpecImpl for RemoteSeriesId {
    open spec fn obeys_eq_spec() -> bool {
        true
    }

    open spec fn eq_spec(&self, other: &Self) -> bool {
        *self == *other
    }
}

impl PartialEq for RemoteEpisodeId {
    fn eq(&self, other: &Self) -> (r: bool) {
        match (self, other) {
            (RemoteEpisodeId::Tvdb { id: a }, RemoteEpisodeId::Tvdb { id: b }) => *a == *b,
            (RemoteEpisodeId::Tmdb { id: a }, RemoteEpisodeId::Tmdb { id: b }) => *a == *b,
            (RemoteEpisodeId::Imdb { id: a }, RemoteEpisodeId::Imdb { id: b }) => *a == *b,
            _ => false,
        }
    }
}

impl Eq for RemoteEpisodeId {
}

impl PartialEqSpecImpl for RemoteEpisodeId {
    open spec fn obeys_eq_spec() -> bool {
        true
    }

    open spec fn eq_spec(&self, other: &Self) -> bool {
        *self == *other
    }
}

impl PartialEq for RemoteMovieId {
    fn eq(&self, other: &Self) -> (r: bool) {
        match (self, other) {
            (RemoteMovieId::Tmdb { id: a }, RemoteMovieId::Tmdb { id: b }) => *a == *b,
            (RemoteMovieId::Imdb { id: a }, RemoteMovieId::Imdb { id: b }) => *a == *b,
            _ => false,
        }
    }
}

impl Eq for RemoteMovieId {
}

impl PartialEqSpecImpl for RemoteMovieId {
    open spec fn obeys_eq_spec() -> bool {
        true
    }

    open spec fn eq_spec(&self, other: &Self) -> bool {
        *self == *other
    }
}

/// The text of a series identifier: `tvdb:N`, `tmdb:N` or `imdb:ID`.
pub open spec fn series_text(r: RemoteSeriesId) -> Seq<char> {
    match r {
        RemoteSeriesId::Tvdb { id } => "tvdb:"@ + decimal_text(id as nat),
        RemoteSeriesId::Tmdb { id } => "tmdb:"@ + decimal_text(id as nat),
        RemoteSeriesId::Imdb { id } => "imdb:"@ + graphic_text(id@),
    }
}

/// The same identifier seen as a series identifier; both kinds share a format.
pub open spec fn episode_as_series(r: RemoteEpisodeId) -> RemoteSeriesId {
    match r {
        RemoteEpisodeId::Tvdb { id } => RemoteSeriesId::Tvdb { id },
        RemoteEpisodeId::Tmdb { id } => RemoteSeriesId::Tmdb { id },
        RemoteEpisodeId::Imdb { id } => RemoteSeriesId::Imdb { id },
    }
}

/// Index of the first `:` in `b`.
pub open spec fn colon_index(b: Seq<u8>) -> Option<int>
    decreases b.len(),
{
    if b.len() == 0 {
        None
    } else if b[0] == 58 {
        Some(0)
    } else {
        match colon_index(b.drop_first()) {
            Some(i) => Some(i + 1),
            None => None,
        }
    }
}

/// Whether `r` is what reading the UTF-8 text `b` gives: the text is split at
/// its first `:`; `tvdb` and `tmdb` take a `u32`, `imdb` takes at most 16
/// bytes.
pub open spec fn parsed_series(b: Seq<u8>, r: Result<RemoteSeriesId, RemoteIdError>) -> bool {
    match colon_index(b) {
        None => r == Err::<RemoteSeriesId, RemoteIdError>(RemoteIdError::MissingColon),
        Some(i) => {
            let head = b.take(i);
            let tail = b.skip(i + 1);
            if head == seq![116u8, 109u8, 100u8, 98u8] {
                match parse_u32_spec(tail) {
                    Some(n) => r == Ok::<RemoteSeriesId, RemoteIdError>(
                        RemoteSeriesId::Tmdb { id: n },
                    ),
                    None => r == Err::<RemoteSeriesId, RemoteIdError>(RemoteIdError::InvalidNumber),
                }
            } else if head == seq![116u8, 118u8, 100u8, 98u8] {
                match parse_u32_spec(tail) {
                    Some(n) => r == Ok::<RemoteSeriesId, RemoteIdError>(
                        RemoteSeriesId::Tvdb { id: n },
                    ),
                    None => r == Err::<RemoteSeriesId, RemoteIdError>(RemoteIdError::InvalidNumber),
                }
            } else if head == seq![105u8, 109u8, 100u8, 98u8] {
                if tail.len() <= 16 {
                    r matches Ok(RemoteSeriesId::Imdb { id }) && id@ == zero_padded(tail, 16)
                } else {
                    r == Err::<RemoteSeriesId, RemoteIdError>(RemoteIdError::ImdbOverflow)
                }
            } else {
                r == Err::<RemoteSeriesId, RemoteIdError>(RemoteIdError::UnknownKind)
            }
        },
    }
}

proof fn lemma_colon_index(b: Seq<u8>)
    ensures
        colon_index(b) matches Some(i) ==> 0 <= i < b.len() && b[i] == 58 && forall|j: int|
            0 <= j < i ==> b[j] != 58,
        colon_index(b) is None ==> forall|j: int| 0 <= j < b.len() ==> b[j] != 58,
    decreases b.len(),
{
    if b.len() > 0 {
        lemma_colon_index(b.drop_first());
        assert forall|j: int| 1 <= j < b.len() implies b[j] == b.drop_first()[j - 1] by {}
    }
}

proof fn lemma_colon_at(b: Seq<u8>, i: int)
    requires
        0 <= i < b.len(),
        b[i] == 58,
        forall|j: int| 0 <= j < i ==> b[j] != 58,
    ensures
        colon_index(b) == Some(i),
    decreases i,
{
    if i > 0 {
        assert forall|j: int| 0 <= j < i - 1 implies b.drop_first()[j] != 58 by {
            assert(b.drop_first()[j] == b[j + 1]);
        }
        lemma_colon_at(b.drop_first(), i - 1);
    }
}

fn find_colon(b: &[u8]) -> (r: Option<usize>)
    ensures
        r matches Some(i) ==> i < b@.len() && colon_index(b@) == Some(i as int),
        r is None ==> colon_index(b@) is None,
{
    proof {
        lemma_colon_index(b@);
    }
    assert(b@.skip(0) =~= b@);
    let mut i: usize = 0;
    while i < b.len()
        invariant
            i <= b@.len(),
            colon_index(b@) == (match colon_index(b@.skip(i as int)) {
                Some(j) => Some(j + i),
                None => None::<int>,
            }),
        decreases b@.len() - i,
    {
        assert(b@.skip(i as int).drop_first() =~= b@.skip(i + 1));
        if b[i] == 58 {
            return Some(i);
        }
        i = i + 1;
    }
    assert(b@.skip(i as int).len() == 0);
    None
}

fn is_kind(b: &[u8], end: usize, kind: [u8; 4]) -> (r: bool)
    requires
        end <= b@.len(),
    ensures
        r == (b@.take(end as int) == kind@),
{
    if end != 4 {
        proof {
            if b@.take(end as int) == kind@ {
                assert(b@.take(end as int).len() == 4);
            }
        }
        return false;
    }
    let mut i: usize = 0;
    while i < 4
        invariant
            end == 4 <= b@.len(),
            kind@.len() == 4,
            forall|q: int| 0 <= q < i ==> b@[q] == kind@[q],
            i <= 4,
        decreases 4 - i,
    {
        if b[i] != kind[i] {
            proof {
                assert(b@.take(4)[i as int] != kind@[i as int]);
            }
            return false;
        }
        i = i + 1;
    }
    assert(b@.take(4) =~= kind@);
    true
}

fn copy_tail(b: &[u8], start: usize) -> (r: Vec<u8>)
    requires
        start <= b@.len(),
    ensures
        r@ == b@.skip(start as int),
{
    let mut out: Vec<u8> = Vec::new();
    let mut i = start;
    while i < b.len()
        invariant
            start <= i <= b@.len(),
            out@ == b@.subrange(start as int, i as int),
        decreases b@.len() - i,
    {
        out.push(b[i]);
        i = i + 1;
    }
    assert(out@ =~= b@.skip(start as int));
    out
}

impl RemoteSeriesId {
    /// Read a series identifier from its text, as written by `to_string`.
    pub fn parse(v: &str) -> (r: Result<RemoteSeriesId, RemoteIdError>)
        ensures
            parsed_series(encode_utf8(v@), r),
    {
        let b = v.as_bytes();
        let found = find_colon(b);
        let i = match found {
            Some(i) => i,
            None => return Err(RemoteIdError::MissingColon),
        };
        let n = b.len();
        assert(i < n);
        assert(colon_index(b@) == Some(i as int));
        let ghost head = b@.take(i as int);
        if is_kind(b, i, [116u8, 109u8, 100u8, 98u8]) {
            assert(head == seq![116u8, 109u8, 100u8, 98u8]);
            let r = match parse_u32(b, i + 1) {
                Some(id) => Ok(RemoteSeriesId::Tmdb { id }),
                None => Err(RemoteIdError::InvalidNumber),
            };
            assert(parsed_series(b@, r));
            r
        } else if is_kind(b, i, [116u8, 118u8, 100u8, 98u8]) {
            assert(head == seq![116u8, 118u8, 100u8, 98u8]);
            assert(head != seq![116u8, 109u8, 100u8, 98u8]);
            match parse_u32(b, i + 1) {
                Some(id) => Ok(RemoteSeriesId::Tvdb { id }),
                None => Err(RemoteIdError::InvalidNumber),
            }
        } else if is_kind(b, i, [105u8, 109u8, 100u8, 98u8]) {
            assert(head == seq![105u8, 109u8, 100u8, 98u8]);
            assert(head != seq![116u8, 109u8, 100u8, 98u8]);
            assert(head != seq![116u8, 118u8, 100u8, 98u8]);
            let tail = copy_tail(b, i + 1);
            match Raw::<16>::new(tail.as_slice()) {
                Some(id) => Ok(RemoteSeriesId::Imdb { id }),
                None => Err(RemoteIdError::ImdbOverflow),
            }
        } else {
            assert(head != seq![116u8, 109u8, 100u8, 98u8]);
            assert(head != seq![116u8, 118u8, 100u8, 98u8]);
            assert(head != seq![105u8, 109u8, 100u8, 98u8]);
            Err(RemoteIdError::UnknownKind)
        }
    }

    /// The text of the identifier: `tvdb:N`, `tmdb:N` or `imdb:ID`.
    pub fn to_string(&self) -> (s: String)
        ensures
            s@ == series_text(*self),
    {
        match self {
            RemoteSeriesId::Tvdb { id } => {
                let mut s = string_of("tvdb:");
                push_decimal(&mut s, *id as u64);
                s
            },
            RemoteSeriesId::Tmdb { id } => {
                let mut s = string_of("tmdb:");
                push_decimal(&mut s, *id as u64);
                s
            },
            RemoteSeriesId::Imdb { id } => {
                let mut s = string_of("imdb:");
                let t = id.to_string();
                push_str(&mut s, t.as_str());
                s
            },
        }
    }

    /// The web page of the series on its remote service.
    pub fn url(&self) -> (s: String)
        ensures
            s@ == match *self {
                RemoteSeriesId::Tvdb { id } => "https://thetvdb.com/search?query="@ + decimal_text(
                    id as nat,
                ),
                RemoteSeriesId::Tmdb { id } => "https://www.themoviedb.org/tv/"@ + decimal_text(
                    id as nat,
                ),
                RemoteSeriesId::Imdb { id } => "https://www.imdb.com/title/"@ + graphic_text(id@)
                    + "/"@,
            },
    {
        match self {
            RemoteSeriesId::Tvdb { id } => {
                let mut s = string_of("https://thetvdb.com/search?query=");
                push_decimal(&mut s, *id as u64);
                s
            },
            RemoteSeriesId::Tmdb { id } => {
                let mut s = string_of("https://www.themoviedb.org/tv/");
                push_decimal(&mut s, *id as u64);
                s
            },
            RemoteSeriesId::Imdb { id } => {
                let mut s = string_of("https://www.imdb.com/title/");
                let t = id.to_string();
                push_str(&mut s, t.as_str());
                push_str(&mut s, "/");
                s
            },
        }
    }
}

impl RemoteEpisodeId {
    /// The same identifier seen as a series identifier.
    pub fn as_series(&self) -> (r: RemoteSeriesId)
        ensures
            r == episode_as_series(*self),
    {
        match *self {
            RemoteEpisodeId::Tvdb { id } => RemoteSeriesId::Tvdb { id },
            RemoteEpisodeId::Tmdb { id } => RemoteSeriesId::Tmdb { id },
            RemoteEpisodeId::Imdb { id } => RemoteSeriesId::Imdb { id },
        }
    }

    /// Read an episode identifier from its text, as written by `to_string`.
    pub fn parse(v: &str) -> (r: Result<RemoteEpisodeId, RemoteIdError>)
        ensures
            parsed_series(
                encode_utf8(v@),
                match r {
                    Ok(e) => Ok(episode_as_series(e)),
                    Err(e) => Err(e),
                },
            ),
    {
        match RemoteSeriesId::parse(v) {
            Ok(RemoteSeriesId::Tvdb { id }) => Ok(RemoteEpisodeId::Tvdb { id }),
            Ok(RemoteSeriesId::Tmdb { id }) => Ok(RemoteEpisodeId::Tmdb { id }),
            Ok(RemoteSeriesId::Imdb { id }) => Ok(RemoteEpisodeId::Imdb { id }),
            Err(e) => Err(e),
        }
    }

    /// The text of the identifier: `tvdb:N`, `tmdb:N` or `imdb:ID`.
    pub fn to_string(&self) -> (s: String)
        ensures
            s@ == series_text(episode_as_series(*self)),
    {
        self.as_series().to_string()
    }
}

impl RemoteMovieId {
    /// The web page of the movie on its remote service.
    pub fn url(&self) -> (s: String)
        ensures
            s@ == match *self {
                RemoteMovieId::Tmdb { id } => "https://www.themoviedb.org/tv/"@ + decimal_text(
                    id as nat,
                ),
                RemoteMovieId::Imdb { id } => "https://www.imdb.com/title/"@ + graphic_text(id@)
                    + "/"@,
            },
    {
        match self {
            RemoteMovieId::Tmdb { id } => {
                let mut s = string_of("https://www.themoviedb.org/tv/");
                push_decimal(&mut s, *id as u64);
                s
            },
            RemoteMovieId::Imdb { id } => {
                let mut s = string_of("https://www.imdb.com/title/");
                let t = id.to_string();
                push_str(&mut s, t.as_str());
                push_str(&mut s, "/");
                s
            },
        }
    }

    /// A readable name of the identifier: `themoviedb.org (N)` or `imdb.com (ID)`.
    pub fn to_string(&self) -> (s: String)
        ensures
            s@ == match *self {
                RemoteMovieId::Tmdb { id } => "themoviedb.org ("@ + decimal_text(id as nat) + ")"@,
                RemoteMovieId::Imdb { id } => "imdb.com ("@ + graphic_text(id@) + ")"@,
            },
    {
        match self {
            RemoteMovieId::Tmdb { id } => {
                let mut s = string_of("themoviedb.org (");
                push_decimal(&mut s, *id as u64);
                push_str(&mut s, ")");
                s
            },
            RemoteMovieId::Imdb { id } => {
                let mut s = string_of("imdb.com (");
                let t = id.to_string();
                push_str(&mut s, t.as_str());
                push_str(&mut s, ")");
                s
            },
        }
    }
}

} // verus!

verus! {

/// Reading back the text written for a series identifier gives the same
/// identifier. An IMDb identifier must be canonical (printable bytes, then
/// zeros), since `to_string` drops every other byte.
pub proof fn lemma_series_text_roundtrip(r: RemoteSeriesId)
    requires
        r matches RemoteSeriesId::Imdb { id } ==> canonical_raw(id@),
    ensures
        parsed_series(encode_utf8(series_text(r)), Ok(r)),
{
    reveal_strlit("tvdb:");
    reveal_strlit("tmdb:");
    reveal_strlit("imdb:");
    let (prefix, rest) = match r {
        RemoteSeriesId::Tvdb { id } => ("tvdb:"@, decimal_text(id as nat)),
        RemoteSeriesId::Tmdb { id } => ("tmdb:"@, decimal_text(id as nat)),
        RemoteSeriesId::Imdb { id } => ("imdb:"@, graphic_text(id@)),
    };
    match r {
        RemoteSeriesId::Imdb { id } => lemma_graphic_text_ascii(id@),
        RemoteSeriesId::Tvdb { id } => lemma_decimal_ascii(id as nat),
        RemoteSeriesId::Tmdb { id } => lemma_decimal_ascii(id as nat),
    }
    let text = series_text(r);
    assert(text == prefix + rest);
    assert(ascii_chars(text)) by {
        assert forall|i: int| 0 <= i < text.len() implies (#[trigger] text[i] as u8) < 128 && text[i]
            == ((text[i] as u8) as char) by {
            if i >= 5 {
                assert(text[i] == rest[i - 5]);
            }
        }
    }
    lemma_ascii_encode(text);
    let b = encode_utf8(text);
    assert(b[4] == 58);
    lemma_colon_at(b, 4);
    let tail = b.skip(5);
    assert(tail =~= rest.map_values(|c: char| c as u8));
    match r {
        RemoteSeriesId::Tvdb { id } => {
            assert(b.take(4) =~= seq![116u8, 118u8, 100u8, 98u8]);
            assert(b.take(4) != seq![116u8, 109u8, 100u8, 98u8]);
            lemma_u32_text_roundtrip(id);
        },
        RemoteSeriesId::Tmdb { id } => {
            assert(b.take(4) =~= seq![116u8, 109u8, 100u8, 98u8]);
            lemma_u32_text_roundtrip(id);
        },
        RemoteSeriesId::Imdb { id } => {
            assert(b.take(4) =~= seq![105u8, 109u8, 100u8, 98u8]);
            assert(b.take(4) != seq![116u8, 109u8, 100u8, 98u8]);
            assert(b.take(4) != seq![116u8, 118u8, 100u8, 98u8]);
            lemma_canonical_text(id@, 16);
        },
    }
}

} // verus!
