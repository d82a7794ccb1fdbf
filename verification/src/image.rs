use vstd::prelude::*;

use vstd::std_specs::convert::FromSpecImpl;

use twox_hash::xxh3::HasherExt;

use crate::hex16::{hex16_display, Hex16};
use crate::season::ImageHash;
use crate::raw::{graphic_text, Raw};
use crate::text::{decimal_text, push_decimal, push_str, string_of};

verus! {

/// Image format in use.
#[derive(Clone, Copy, PartialEq, Eq, Structural, Debug, Hash)]
pub enum ImageExt {
    Jpg,
    /// Unsupported extension.
    Unsupported,
}

/// Kind of artwork on thetvdb.com.
#[derive(Clone, Copy, PartialEq, Eq, Structural, Debug, Hash)]
pub enum ArtKind {
    /// Poster art.
    Posters,
    /// Banner art.
    Banners,
    /// Background art.
    Backgrounds,
    /// Episodes art.
    Episodes,
}

pub open spec fn ext_text(e: ImageExt) -> Seq<char> {
    match e {
        ImageExt::Jpg => "jpg"@,
        ImageExt::Unsupported => "unsupported"@,
    }
}

pub open spec fn art_text(k: ArtKind) -> Seq<char> {
    match k {
        ArtKind::Posters => "posters"@,
        ArtKind::Banners => "banners"@,
        ArtKind::Backgrounds => "backgrounds"@,
        ArtKind::Episodes => "episodes"@,
    }
}

impl Default for ImageExt {
    fn default() -> (r: ImageExt)
        ensures
            r == ImageExt::Unsupported,
    {
        ImageExt::Unsupported
    }
}

impl ImageExt {
    /// The file extension: `jpg` or `unsupported`.
    pub fn to_string(&self) -> (s: String)
        ensures
            s@ == ext_text(*self),
    {
        match self {
            ImageExt::Jpg => string_of("jpg"),
            ImageExt::Unsupported => string_of("unsupported"),
        }
    }
}

impl ArtKind {
    /// The directory name of the art kind.
    pub fn to_string(&self) -> (s: String)
        ensures
            s@ == art_text(*self),
    {
        match self {
            ArtKind::Posters => string_of("posters"),
            ArtKind::Banners => string_of("banners"),
            ArtKind::Backgrounds => string_of("backgrounds"),
            ArtKind::Episodes => string_of("episodes"),
        }
    }
}

/// The identifier of an image on thetvdb.com.
#[derive(Clone, Copy, Debug)]
pub enum TvdbImageKind {
    Legacy(u64, ArtKind, Hex16),
    V4(u64, ArtKind, Hex16),
    Banner(Hex16),
    BannerSuffixed(u64, Raw<16>),
    Graphical(Hex16),
    GraphicalSuffixed(u64, Raw<16>),
    Fanart(Hex16),
    FanartSuffixed(u64, Raw<16>),
    ScreenCap(u64, Hex16),
    Episodes(u32, u32),
    Blank(u32),
    Text(u32),
    Missing,
}

/// An image from thetvdb.com.
#[derive(Clone, Copy, Debug)]
pub struct TvdbImage {
    pub kind: TvdbImageKind,
    pub ext: ImageExt,
}

/// The path of a thetvdb.com image, without its extension.
pub open spec fn tvdb_stem(k: TvdbImageKind) -> Seq<char> {
    match k {
        TvdbImageKind::Legacy(series_id, kind, id) => "series/"@ + decimal_text(series_id as nat)
            + "/"@ + art_text(kind) + "/"@ + hex16_display(id@),
        TvdbImageKind::V4(series_id, kind, id) => "v4/series/"@ + decimal_text(series_id as nat)
            + "/"@ + art_text(kind) + "/"@ + hex16_display(id@),
        TvdbImageKind::Banner(id) => "posters/"@ + hex16_display(id@),
        TvdbImageKind::BannerSuffixed(series_id, suffix) => "posters/"@ + decimal_text(
            series_id as nat,
        ) + "-"@ + graphic_text(suffix@),
        TvdbImageKind::Graphical(id) => "graphical/"@ + hex16_display(id@),
        TvdbImageKind::GraphicalSuffixed(series_id, suffix) => "graphical/"@ + decimal_text(
            series_id as nat,
        ) + "-"@ + graphic_text(suffix@),
        TvdbImageKind::Fanart(id) => "fanart/original/"@ + hex16_display(id@),
        TvdbImageKind::FanartSuffixed(series_id, suffix) => "fanart/original/"@ + decimal_text(
            series_id as nat,
        ) + "-"@ + graphic_text(suffix@),
        TvdbImageKind::ScreenCap(episode_id, id) => "v4/episode/"@ + decimal_text(
            episode_id as nat,
        ) + "/screencap/"@ + hex16_display(id@),
        TvdbImageKind::Episodes(episode_id, image_id) => "episodes/"@ + decimal_text(
            episode_id as nat,
        ) + "/"@ + decimal_text(image_id as nat),
        TvdbImageKind::Blank(series_id) => "blank/"@ + decimal_text(series_id as nat),
        TvdbImageKind::Text(series_id) => "text/"@ + decimal_text(series_id as nat),
        TvdbImageKind::Missing => "images/missing/series"@,
    }
}

/// The path of a thetvdb.com image.
pub open spec fn tvdb_image_text(i: TvdbImage) -> Seq<char> {
    tvdb_stem(i.kind) + "."@ + ext_text(i.ext)
}

fn push_hex(s: &mut String, id: &Hex16)
    ensures
        final(s)@ == old(s)@ + hex16_display(id@),
{
    let t = id.to_string();
    push_str(s, t.as_str());
}

fn push_raw(s: &mut String, id: &Raw<16>)
    ensures
        final(s)@ == old(s)@ + graphic_text(id@),
{
    let t = id.to_string();
    push_str(s, t.as_str());
}

impl TvdbImage {
    /// The path of the image on thetvdb.com's artwork server.
    pub fn to_string(&self) -> (s: String)
        ensures
            s@ == tvdb_image_text(*self),
    {
        let mut s = String::new();
        match self.kind {
            TvdbImageKind::Legacy(series_id, kind, id) => {
                push_str(&mut s, "series/");
                push_decimal(&mut s, series_id);
                push_str(&mut s, "/");
                push_str(&mut s, kind.to_string().as_str());
                push_str(&mut s, "/");
                push_hex(&mut s, &id);
            },
            TvdbImageKind::V4(series_id, kind, id) => {
                push_str(&mut s, "v4/series/");
                push_decimal(&mut s, series_id);
                push_str(&mut s, "/");
                push_str(&mut s, kind.to_string().as_str());
                push_str(&mut s, "/");
                push_hex(&mut s, &id);
            },
            TvdbImageKind::Banner(id) => {
                push_str(&mut s, "posters/");
                push_hex(&mut s, &id);
            },
            TvdbImageKind::BannerSuffixed(series_id, suffix) => {
                push_str(&mut s, "posters/");
                push_decimal(&mut s, series_id);
                push_str(&mut s, "-");
                push_raw(&mut s, &suffix);
            },
            TvdbImageKind::Graphical(id) => {
                push_str(&mut s, "graphical/");
                push_hex(&mut s, &id);
            },
            TvdbImageKind::GraphicalSuffixed(series_id, suffix) => {
                push_str(&mut s, "graphical/");
                push_decimal(&mut s, series_id);
                push_str(&mut s, "-");
                push_raw(&mut s, &suffix);
            },
            TvdbImageKind::Fanart(id) => {
                push_str(&mut s, "fanart/original/");
                push_hex(&mut s, &id);
            },
            TvdbImageKind::FanartSuffixed(series_id, suffix) => {
                push_str(&mut s, "fanart/original/");
                push_decimal(&mut s, series_id);
                push_str(&mut s, "-");
                push_raw(&mut s, &suffix);
            },
            TvdbImageKind::ScreenCap(episode_id, id) => {
                push_str(&mut s, "v4/episode/");
                push_decimal(&mut s, episode_id);
                push_str(&mut s, "/screencap/");
                push_hex(&mut s, &id);
            },
            TvdbImageKind::Episodes(episode_id, image_id) => {
                push_str(&mut s, "episodes/");
                push_decimal(&mut s, episode_id as u64);
                push_str(&mut s, "/");
                push_decimal(&mut s, image_id as u64);
            },
            TvdbImageKind::Blank(series_id) => {
                push_str(&mut s, "blank/");
                push_decimal(&mut s, series_id as u64);
            },
            TvdbImageKind::Text(series_id) => {
                push_str(&mut s, "text/");
                push_decimal(&mut s, series_id as u64);
            },
            TvdbImageKind::Missing => {
                push_str(&mut s, "images/missing/series");
            },
        }
        push_str(&mut s, ".");
        push_str(&mut s, self.ext.to_string().as_str());
        assert(s@ =~= tvdb_image_text(*self));
        s
    }
}

/// The identifier of an image on themoviedb.org.
#[derive(Clone, Copy, Debug)]
pub enum TmdbImageKind {
    Base64(Raw<32>),
}

/// An image from themoviedb.org.
#[derive(Clone, Copy, Debug)]
pub struct TmdbImage {
    pub kind: TmdbImageKind,
    pub ext: ImageExt,
}

/// The path of a themoviedb.org image.
pub open spec fn tmdb_image_text(i: TmdbImage) -> Seq<char> {
    match i.kind {
        TmdbImageKind::Base64(id) => graphic_text(id@) + "."@ + ext_text(i.ext),
    }
}

impl TmdbImage {
    /// The path of the image on themoviedb.org's image server.
    pub fn to_string(&self) -> (s: String)
        ensures
            s@ == tmdb_image_text(*self),
    {
        match self.kind {
            TmdbImageKind::Base64(id) => {
                let mut s = id.to_string();
                push_str(&mut s, ".");
                push_str(&mut s, self.ext.to_string().as_str());
                s
            },
        }
    }
}

/// An image of the older format, from either service.
#[derive(Clone, Copy, Debug)]
pub enum Image {
    /// An image from thetvdb.com
    Tvdb(TvdbImage),
    /// An image from themoviedb.org
    Tmdb(TmdbImage),
}

/// An image, identified by its service and its path there.
#[derive(Debug, PartialEq, Eq, Hash, PartialOrd, Ord)]
pub enum ImageV2 {
    /// An image from thetvdb.com
    Tvdb { uri: String },
    /// An image from themoviedb.org
    Tmdb { uri: String },
}

impl Clone for ImageV2 {
    fn clone(&self) -> (r: ImageV2)
        ensures
            r == *self,
    {
        match self {
            ImageV2::Tvdb { uri } => ImageV2::Tvdb { uri: uri.clone() },
            ImageV2::Tmdb { uri } => ImageV2::Tmdb { uri: uri.clone() },
        }
    }
}

impl Image {
    /// `tvdb:PATH` or `tmdb:PATH`.
    pub fn to_string(&self) -> (s: String)
        ensures
            s@ == match *self {
                Image::Tvdb(image) => "tvdb:"@ + tvdb_image_text(image),
                Image::Tmdb(image) => "tmdb:"@ + tmdb_image_text(image),
            },
    {
        match self {
            Image::Tvdb(image) => {
                let mut s = string_of("tvdb:");
                push_str(&mut s, image.to_string().as_str());
                s
            },
            Image::Tmdb(image) => {
                let mut s = string_of("tmdb:");
                push_str(&mut s, image.to_string().as_str());
                s
            },
        }
    }

    /// Convert into an image of the newer format, with the same service and
    /// path.
    pub fn into_v2(self) -> (r: ImageV2)
        ensures
            match self {
                Image::Tvdb(image) => r matches ImageV2::Tvdb { uri } && uri@ == tvdb_image_text(
                    image,
                ),
                Image::Tmdb(image) => r matches ImageV2::Tmdb { uri } && uri@ == tmdb_image_text(
                    image,
                ),
            },
    {
        match self {
            Image::Tvdb(image) => ImageV2::Tvdb { uri: image.to_string() },
            Image::Tmdb(image) => ImageV2::Tmdb { uri: image.to_string() },
        }
    }
}

impl From<TvdbImage> for Image {
    fn from(image: TvdbImage) -> (r: Image) {
        Image::Tvdb(image)
    }
}

impl From<TmdbImage> for Image {
    fn from(image: TmdbImage) -> (r: Image) {
        Image::Tmdb(image)
    }
}

impl FromSpecImpl<TvdbImage> for Image {
    open spec fn obeys_from_spec() -> bool {
        true
    }

    open spec fn from_spec(image: TvdbImage) -> Image {
        Image::Tvdb(image)
    }
}

impl FromSpecImpl<TmdbImage> for Image {
    open spec fn obeys_from_spec() -> bool {
        true
    }

    open spec fn from_spec(image: TmdbImage) -> Image {
        Image::Tmdb(image)
    }
}

/// The text without its leading `/` characters.
pub open spec fn trim_leading_slashes(s: Seq<char>) -> Seq<char>
    decreases s.len(),
{
    if s.len() > 0 && s[0] == '/' {
        trim_leading_slashes(s.drop_first())
    } else {
        s
    }
}

/// The text of `s` from the first character that is not `/`.
fn trimmed_path(s: &str) -> (r: String)
    ensures
        r@ == trim_leading_slashes(s@),
{
    let n = s.unicode_len();
    let mut i: usize = 0;
    assert(s@.skip(0) =~= s@);
    while i < n && s.get_char(i) == '/'
        invariant
            i <= n,
            n == s@.len(),
            trim_leading_slashes(s@) == trim_leading_slashes(s@.skip(i as int)),
        decreases n - i,
    {
        assert(s@.skip(i as int).drop_first() =~= s@.skip(i + 1));
        i = i + 1;
    }
    let t = s.substring_char(i, n);
    assert(t@ =~= s@.skip(i as int));
    string_of(t)
}

/// Index of the first `:` among the characters.
pub open spec fn char_colon_index(s: Seq<char>) -> Option<int>
    decreases s.len(),
{
    if s.len() == 0 {
        None
    } else if s[0] == ':' {
        Some(0)
    } else {
        match char_colon_index(s.drop_first()) {
            Some(i) => Some(i + 1),
            None => None,
        }
    }
}

/// Why the text of an image was refused.
#[derive(Clone, Copy, PartialEq, Eq, Structural, Debug)]
pub enum ImageParseError {
    /// The text holds no `:`.
    MissingColon,
    /// The text before the `:` names no known service.
    UnknownKind,
}

/// Whether `r` is what reading the text `s` gives: split at the first `:`,
/// `tvdb` or `tmdb` before it, the path after it.
pub open spec fn image_parsed(s: Seq<char>, r: Result<ImageV2, ImageParseError>) -> bool {
    match char_colon_index(s) {
        None => r == Err::<ImageV2, ImageParseError>(ImageParseError::MissingColon),
        Some(i) => {
            let head = s.take(i);
            let uri = s.skip(i + 1);
            if head == seq!['t', 'm', 'd', 'b'] {
                r matches Ok(ImageV2::Tmdb { uri: u }) && u@ == uri
            } else if head == seq!['t', 'v', 'd', 'b'] {
                r matches Ok(ImageV2::Tvdb { uri: u }) && u@ == uri
            } else {
                r == Err::<ImageV2, ImageParseError>(ImageParseError::UnknownKind)
            }
        },
    }
}

proof fn lemma_char_colon_index(s: Seq<char>)
    ensures
        char_colon_index(s) matches Some(i) ==> 0 <= i < s.len() && s[i] == ':',
    decreases s.len(),
{
    if s.len() > 0 {
        lemma_char_colon_index(s.drop_first());
    }
}

fn find_char_colon(s: &str) -> (r: Option<usize>)
    ensures
        r matches Some(i) ==> i < s@.len() && char_colon_index(s@) == Some(i as int),
        r is None ==> char_colon_index(s@) is None,
{
    proof {
        lemma_char_colon_index(s@);
    }
    let n = s.unicode_len();
    assert(s@.skip(0) =~= s@);
    let mut i: usize = 0;
    while i < n
        invariant
            i <= n,
            n == s@.len(),
            char_colon_index(s@) == (match char_colon_index(s@.skip(i as int)) {
                Some(j) => Some(j + i),
                None => None::<int>,
            }),
        decreases n - i,
    {
        assert(s@.skip(i as int).drop_first() =~= s@.skip(i + 1));
        if s.get_char(i) == ':' {
            return Some(i);
        }
        i = i + 1;
    }
    assert(s@.skip(i as int).len() == 0);
    None
}

fn is_service(s: &str, end: usize, c1: char) -> (r: bool)
    requires
        end <= s@.len(),
    ensures
        r == (s@.take(end as int) == seq!['t', c1, 'd', 'b']),
{
    if end != 4 {
        proof {
            if s@.take(end as int) == seq!['t', c1, 'd', 'b'] {
                assert(s@.take(end as int).len() == 4);
            }
        }
        return false;
    }
    let r = s.get_char(0) == 't' && s.get_char(1) == c1 && s.get_char(2) == 'd' && s.get_char(3)
        == 'b';
    proof {
        if r {
            assert(s@.take(4) =~= seq!['t', c1, 'd', 'b']);
        } else {
            if s@.take(4) == seq!['t', c1, 'd', 'b'] {
                assert(s@.take(4)[0] == s@[0]);
                assert(s@.take(4)[1] == s@[1]);
                assert(s@.take(4)[2] == s@[2]);
                assert(s@.take(4)[3] == s@[3]);
            }
        }
    }
    r
}

/// The 128-bit xxh3 hash of a tag and a path.
pub uninterp spec fn tagged_path_hash(tag: u32, path: Seq<char>) -> u128;

/// Hashes a tag and a path: twox-hash's `Xxh3Hash128` with its default seed and secret, over the
/// bytes that std's `Hash` writes for the pair `(tag, path)`, read with `finish_ext`. The result
/// is a function of the two arguments alone.
#[verifier::external_body]
fn hash_tagged_path(tag: u32, path: &String) -> (h: u128)
    ensures
        h == tagged_path_hash(tag, path@),
{
    let mut hasher = twox_hash::Xxh3Hash128::default();
    std::hash::Hash::hash(&(tag, path), &mut hasher);
    hasher.finish_ext()
}

/// The tag hashed with the path of a thetvdb.com image.
pub const TVDB_HASH_TAG: u32 = 0xd410b8f4u32;

/// The tag hashed with the path of a themoviedb.org image.
pub const TMDB_HASH_TAG: u32 = 0xc66bff3eu32;

impl ImageV2 {
    /// The hash identifying the image: its path hashed with the tag of its service.
    pub fn hash(&self) -> (h: ImageHash)
        ensures
            h.0 == match self {
                ImageV2::Tvdb { uri } => tagged_path_hash(TVDB_HASH_TAG, uri@),
                ImageV2::Tmdb { uri } => tagged_path_hash(TMDB_HASH_TAG, uri@),
            },
    {
        match self {
            ImageV2::Tvdb { uri } => ImageHash(hash_tagged_path(TVDB_HASH_TAG, uri)),
            ImageV2::Tmdb { uri } => ImageHash(hash_tagged_path(TMDB_HASH_TAG, uri)),
        }
    }

    /// An image on thetvdb.com at the given path; leading `/` are dropped,
    /// and an empty path gives `None`.
    pub fn tvdb(s: &str) -> (r: Option<ImageV2>)
        ensures
            trim_leading_slashes(s@).len() == 0 ==> r is None,
            trim_leading_slashes(s@).len() > 0 ==> (r matches Some(ImageV2::Tvdb { uri }) && uri@
                == trim_leading_slashes(s@)),
    {
        let uri = trimmed_path(s);
        if uri.as_str().unicode_len() == 0 {
            None
        } else {
            Some(ImageV2::Tvdb { uri })
        }
    }

    /// An image on themoviedb.org at the given path; leading `/` are
    /// dropped, and an empty path gives `None`.
    pub fn tmdb(s: &str) -> (r: Option<ImageV2>)
        ensures
            trim_leading_slashes(s@).len() == 0 ==> r is None,
            trim_leading_slashes(s@).len() > 0 ==> (r matches Some(ImageV2::Tmdb { uri }) && uri@
                == trim_leading_slashes(s@)),
    {
        let uri = trimmed_path(s);
        if uri.as_str().unicode_len() == 0 {
            None
        } else {
            Some(ImageV2::Tmdb { uri })
        }
    }

    /// `tvdb:PATH` or `tmdb:PATH`.
    pub fn to_string(&self) -> (s: String)
        ensures
            s@ == match *self {
                ImageV2::Tvdb { uri } => "tvdb:"@ + uri@,
                ImageV2::Tmdb { uri } => "tmdb:"@ + uri@,
            },
    {
        match self {
            ImageV2::Tvdb { uri } => {
                let mut s = string_of("tvdb:");
                push_str(&mut s, uri.as_str());
                s
            },
            ImageV2::Tmdb { uri } => {
                let mut s = string_of("tmdb:");
                push_str(&mut s, uri.as_str());
                s
            },
        }
    }

    /// Read an image from its text, as written by `to_string`.
    pub fn parse(v: &str) -> (r: Result<ImageV2, ImageParseError>)
        ensures
            image_parsed(v@, r),
    {
        let i = match find_char_colon(v) {
            Some(i) => i,
            None => return Err(ImageParseError::MissingColon),
        };
        let n = v.unicode_len();
        let uri = string_of(v.substring_char(i + 1, n));
        assert(uri@ =~= v@.skip(i + 1));
        if is_service(v, i, 'm') {
            Ok(ImageV2::Tmdb { uri })
        } else if is_service(v, i, 'v') {
            assert(seq!['t', 'v', 'd', 'b'] != seq!['t', 'm', 'd', 'b']) by {
                assert(seq!['t', 'v', 'd', 'b'][1] != seq!['t', 'm', 'd', 'b'][1]);
            }
            Ok(ImageV2::Tvdb { uri })
        } else {
            Err(ImageParseError::UnknownKind)
        }
    }
}

/// Reading back the text written for an image gives the same image.
pub proof fn lemma_image_v2_roundtrip(i: ImageV2)
    ensures
        image_parsed(
            match i {
                ImageV2::Tvdb { uri } => "tvdb:"@ + uri@,
                ImageV2::Tmdb { uri } => "tmdb:"@ + uri@,
            },
            Ok(i),
        ),
{
    reveal_strlit("tvdb:");
    reveal_strlit("tmdb:");
    let (prefix, uri) = match i {
        ImageV2::Tvdb { uri } => ("tvdb:"@, uri@),
        ImageV2::Tmdb { uri } => ("tmdb:"@, uri@),
    };
    let s = prefix + uri;
    assert(s.drop_first().drop_first().drop_first().drop_first() =~= seq![':'] + uri);
    reveal_with_fuel(char_colon_index, 6);
    assert(char_colon_index(seq![':'] + uri) == Some(0int));
    assert(char_colon_index(s) == Some(4int));
    assert(s.skip(5) =~= uri);
    match i {
        ImageV2::Tvdb { .. } => {
            assert(s.take(4) =~= seq!['t', 'v', 'd', 'b']);
            assert(seq!['t', 'v', 'd', 'b'][1] != seq!['t', 'm', 'd', 'b'][1]);
        },
        ImageV2::Tmdb { .. } => {
            assert(s.take(4) =~= seq!['t', 'm', 'd', 'b']);
        },
    }
}

} // verus!
