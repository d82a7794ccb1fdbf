use vstd::prelude::*;

verus! {

/// A point in time: milliseconds since the Unix epoch, in UTC.
#[derive(Clone, Copy, PartialEq, Eq, Structural, Debug, Hash, PartialOrd, Ord)]
pub struct Timestamp {
    pub millis: i64,
}

/// A calendar day of the proleptic Gregorian calendar, counted from
/// January 1 of year 1 as day 1.
#[derive(Clone, Copy, PartialEq, Eq, Structural, Debug, Hash, PartialOrd, Ord)]
pub struct Date {
    pub days: i32,
}

} // verus!
