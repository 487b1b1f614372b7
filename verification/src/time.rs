//! Platform-independent calendar dates and date-times.
//!
//! Every parser variant normalizes source timestamps into [`Timestamp`];
//! filter bounds are plain [`Date`] values. Day-of-month validity is checked
//! by range only (1 to 31): the engine never does calendar arithmetic, it
//! only compares and renders the fields it parsed.

use vstd::prelude::*;

verus! {

/// A calendar date, used for inclusive filter bounds.
#[derive(Clone, Copy, Debug, PartialEq, Eq, Structural)]
pub struct Date {
    pub year: u32,
    pub month: u32,
    pub day: u32,
}

/// A point in time as carried by a canonical record.
#[derive(Clone, Copy, Debug, PartialEq, Eq, Structural)]
pub struct Timestamp {
    pub year: u32,
    pub month: u32,
    pub day: u32,
    pub hour: u32,
    pub minute: u32,
    pub second: u32,
}

pub open spec fn date_valid(d: Date) -> bool {
    &&& 1 <= d.year <= 9999
    &&& 1 <= d.month <= 12
    &&& 1 <= d.day <= 31
}

pub open spec fn timestamp_valid(t: Timestamp) -> bool {
    &&& date_valid(timestamp_date(t))
    &&& t.hour <= 23
    &&& t.minute <= 59
    &&& t.second <= 59
}

/// The calendar date a timestamp falls on.
pub open spec fn timestamp_date(t: Timestamp) -> Date {
    Date { year: t.year, month: t.month, day: t.day }
}

/// Lexicographic order on (year, month, day): `a` is on or before `b`.
pub open spec fn spec_date_le(a: Date, b: Date) -> bool {
    if a.year != b.year {
        a.year < b.year
    } else if a.month != b.month {
        a.month < b.month
    } else {
        a.day <= b.day
    }
}

impl Date {
    /// Whether `self` is on or before `other`.
    pub fn le(&self, other: &Date) -> (r: bool)
        ensures
            r == spec_date_le(*self, *other),
    {
        if self.year != other.year {
            self.year < other.year
        } else if self.month != other.month {
            self.month < other.month
        } else {
            self.day <= other.day
        }
    }
}

impl Timestamp {
    /// The calendar date this timestamp falls on.
    pub fn date(&self) -> (d: Date)
        ensures
            d == timestamp_date(*self),
    {
        Date { year: self.year, month: self.month, day: self.day }
    }
}

} // verus!
