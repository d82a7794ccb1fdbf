use std::time::{Duration, Instant};

use vstd::prelude::*;

verus! {

/// How long a login to thetvdb.com is kept, in seconds.
pub const EXPIRATION_SECONDS: u64 = 3600;

/// A reading of the monotonic clock, `std::time::Instant`.
#[verifier::external_type_specification]
#[verifier::external_body]
pub struct ExInstant(Instant);

/// `Instant::now`: the current reading of the monotonic clock. It depends
/// on the time: nothing is stated of it.
#[verifier::external_body]
fn instant_now() -> Instant {
    Instant::now()
}

/// `Instant::checked_add` of a number of seconds: the later reading, or
/// `None` where the platform cannot represent it. Which readings can be
/// represented depends on the platform: nothing is stated of it.
#[verifier::external_body]
fn instant_checked_add(t: &Instant, secs: u64) -> Option<Instant> {
    t.checked_add(Duration::from_secs(secs))
}

/// `Instant::elapsed` in whole milliseconds (`Duration::as_millis`): how
/// long ago `t` was read. It depends on the time: nothing is stated of it.
#[verifier::external_body]
fn millis_since(t: &Instant) -> u128 {
    t.elapsed().as_millis()
}

/// A cached login token of thetvdb.com and when it was obtained.
pub struct Credentials {
    pub token: String,
    /// When the token was obtained; it lapses `EXPIRATION_SECONDS` later.
    pub issued: Instant,
}

impl Credentials {
    /// Credentials for a token obtained now, lapsing an hour later; `None`
    /// when the clock cannot represent that time.
    pub fn new(token: String) -> (r: Option<Credentials>)
        ensures
            r matches Some(c) ==> c.token@ == token@,
    {
        let issued = instant_now();
        match instant_checked_add(&issued, EXPIRATION_SECONDS) {
            Some(_) => Some(Credentials { token, issued }),
            None => None,
        }
    }

    /// The test the login makes of cached credentials, `elapsed_millis`
    /// after they were obtained: true while they have not lapsed, that is
    /// while the current time is before the expiry.
    pub fn is_expired_at(&self, elapsed_millis: u128) -> (r: bool)
        ensures
            r == (elapsed_millis < EXPIRATION_SECONDS * 1000),
    {
        elapsed_millis < EXPIRATION_SECONDS as u128 * 1000
    }

    /// The same test at the current time of the monotonic clock; how long
    /// ago the credentials were obtained, `is_expired_at` takes as an
    /// argument.
    pub fn is_expired(&self) -> bool {
        let elapsed = millis_since(&self.issued);
        self.is_expired_at(elapsed)
    }
}

/// The token that a login reuses from the cache, `elapsed_millis` after the
/// cached credentials were obtained: that of cached credentials whose test
/// then fails.
pub fn cached_token(cached: &Option<Credentials>, elapsed_millis: u128) -> (r: Option<String>)
    ensures
        match cached {
            Some(c) => if !(elapsed_millis < EXPIRATION_SECONDS * 1000) {
                r matches Some(t) && t@ == c.token@
            } else {
                r is None
            },
            None => r is None,
        },
{
    match cached {
        Some(c) => {
            if !c.is_expired_at(elapsed_millis) {
                Some(c.token.clone())
            } else {
                None
            }
        },
        None => None,
    }
}

} // verus!
