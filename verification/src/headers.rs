use vstd::prelude::*;

use crate::etag::Etag;
use crate::time::Timestamp;

verus! {

/// The instant that `chrono::DateTime::parse_from_rfc2822` reads from a text, if it reads one,
/// in milliseconds since the Unix epoch.
pub uninterp spec fn rfc2822_millis(text: Seq<char>) -> Option<i64>;

/// Parses an RFC 2822 date (as in `Wed, 18 Feb 2015 23:16:09 GMT`) with
/// `chrono::DateTime::parse_from_rfc2822` and reads the instant with `timestamp_millis`; `None`
/// when the text is no such date.
#[verifier::external_body]
fn parse_rfc2822(text: &str) -> (r: Option<Timestamp>)
    ensures
        match rfc2822_millis(text@) {
            Some(millis) => r == Some(Timestamp { millis }),
            None => r is None,
        },
{
    match chrono::DateTime::parse_from_rfc2822(text) {
        Ok(t) => Some(Timestamp { millis: t.timestamp_millis() }),
        Err(_) => None,
    }
}

/// A `Last-Modified` header that is no RFC 2822 date.
#[derive(Clone, Copy, Debug, PartialEq, Eq, Structural)]
pub struct LastModifiedError;

/// The time in a `Last-Modified` header: none without the header, an error when it holds no
/// RFC 2822 date.
pub open spec fn last_modified_of(header: Option<Seq<char>>) -> Result<Option<Timestamp>, LastModifiedError> {
    match header {
        None => Ok(None),
        Some(text) => match rfc2822_millis(text) {
            Some(millis) => Ok(Some(Timestamp { millis })),
            None => Err(LastModifiedError),
        },
    }
}

/// Reads the time of a response's `Last-Modified` header, given as text.
pub fn parse_last_modified(header: Option<&str>) -> (r: Result<Option<Timestamp>, LastModifiedError>)
    ensures
        r == last_modified_of(
            match header {
                Some(t) => Some(t@),
                None => None,
            },
        ),
{
    match header {
        None => Ok(None),
        Some(text) => match parse_rfc2822(text) {
            Some(t) => Ok(Some(t)),
            None => Err(LastModifiedError),
        },
    }
}

/// The entity tag of a response, from the bytes of its `ETag` header, if it has one.
pub fn parse_etag(header: Option<&[u8]>) -> (r: Option<Etag>)
    ensures
        match header {
            Some(b) => r matches Some(e) && e@ == b@,
            None => r is None,
        },
{
    match header {
        Some(b) => Some(Etag::new(b)),
        None => None,
    }
}

} // verus!
