use vstd::prelude::*;

use crate::ids::SeriesId;
use crate::text::{decimal_text, push_decimal, string_of};

verus! {

/// Season number.
#[derive(Clone, Copy, PartialEq, Eq, Structural, Debug, Hash, PartialOrd, Ord)]
pub enum SeasonNumber {
    /// Season used for non-numbered episodes.
    Specials,
    /// A regular numbered season.
    Number(u32),
}

impl Default for SeasonNumber {
    fn default() -> (r: SeasonNumber)
        ensures
            r == SeasonNumber::Specials,
    {
        SeasonNumber::Specials
    }
}

impl SeasonNumber {
    /// Whether this is the season of specials.
    pub fn is_special(&self) -> (r: bool)
        ensures
            r == (*self == SeasonNumber::Specials),
    {
        match self {
            SeasonNumber::Specials => true,
            SeasonNumber::Number(..) => false,
        }
    }

    /// Short title of the season: `S` for specials, else its number.
    pub fn short(&self) -> (s: String)
        ensures
            s@ == match *self {
                SeasonNumber::Specials => "S"@,
                SeasonNumber::Number(n) => decimal_text(n as nat),
            },
    {
        match self {
            SeasonNumber::Specials => string_of("S"),
            SeasonNumber::Number(n) => {
                let mut s = String::new();
                push_decimal(&mut s, *n as u64);
                assert(s@ =~= decimal_text(*n as nat));
                s
            },
        }
    }

    /// Title of the season: `Specials` or `Season N`.
    pub fn to_string(&self) -> (s: String)
        ensures
            s@ == match *self {
                SeasonNumber::Specials => "Specials"@,
                SeasonNumber::Number(n) => "Season "@ + decimal_text(n as nat),
            },
    {
        match self {
            SeasonNumber::Specials => string_of("Specials"),
            SeasonNumber::Number(n) => {
                let mut s = string_of("Season ");
                push_decimal(&mut s, *n as u64);
                s
            },
        }
    }
}

/// Key of a season: its series and number.
#[derive(Clone, Copy, PartialEq, Eq, Structural, Debug, Hash)]
pub struct Pointer {
    pub series: SeriesId,
    pub number: SeasonNumber,
}

impl Pointer {
    /// The key of season `number` of `series`.
    pub fn new(series: SeriesId, number: SeasonNumber) -> (r: Pointer)
        ensures
            r.series == series,
            r.number == number,
    {
        Pointer { series, number }
    }
}

/// The hash of an image.
#[derive(Clone, Copy, PartialEq, Eq, Structural, Debug, Hash, PartialOrd, Ord)]
pub struct ImageHash(pub u128);

impl ImageHash {
    /// The hash as a number.
    pub fn as_u128(&self) -> (r: u128)
        ensures
            r == self.0,
    {
        self.0
    }
}

} // verus!
