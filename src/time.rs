use vstd::prelude::*;

use chrono::Datelike;
use chrono::Timelike;

verus! {

/// A point in time, as its calendar fields in UTC.
#[derive(Clone, Copy, Debug)]
pub struct UtcTime {
    pub year: i32,
    pub month: u32,
    pub day: u32,
    pub hour: u32,
    pub minute: u32,
    pub second: u32,
    pub nanosecond: u32,
}

/// A calendar date.
#[derive(Clone, Copy, Debug, PartialEq, Eq, Structural)]
pub struct Date {
    pub year: i32,
    pub month: u32,
    pub day: u32,
}

impl UtcTime {
    /// The fields lie in their calendar ranges.
    pub open spec fn wf(self) -> bool {
        &&& 1 <= self.month <= 12
        &&& 1 <= self.day <= 31
        &&& self.hour < 24
        &&& self.minute < 60
        &&& self.second < 60
        &&& self.nanosecond < 2_000_000_000
    }

    pub open spec fn date_spec(self) -> Date {
        Date { year: self.year, month: self.month, day: self.day }
    }

    /// The UTC calendar date of this instant.
    pub fn date(&self) -> (r: Date)
        ensures
            r == self.date_spec(),
    {
        Date { year: self.year, month: self.month, day: self.day }
    }

    /// Whether this instant comes strictly before `other`.
    pub open spec fn before(self, other: UtcTime) -> bool {
        if self.year != other.year {
            self.year < other.year
        } else if self.month != other.month {
            self.month < other.month
        } else if self.day != other.day {
            self.day < other.day
        } else if self.hour != other.hour {
            self.hour < other.hour
        } else if self.minute != other.minute {
            self.minute < other.minute
        } else if self.second != other.second {
            self.second < other.second
        } else {
            self.nanosecond < other.nanosecond
        }
    }

    /// Whether this instant comes strictly before `other`.
    pub fn is_before(&self, other: &UtcTime) -> (r: bool)
        ensures
            r == self.before(*other),
    {
        if self.year != other.year {
            self.year < other.year
        } else if self.month != other.month {
            self.month < other.month
        } else if self.day != other.day {
            self.day < other.day
        } else if self.hour != other.hour {
            self.hour < other.hour
        } else if self.minute != other.minute {
            self.minute < other.minute
        } else if self.second != other.second {
            self.second < other.second
        } else {
            self.nanosecond < other.nanosecond
        }
    }
}

/// The UTC instant that `chrono` reads from `text` with `format`, the text being local time
/// at `utc_offset` seconds east of UTC.
pub uninterp spec fn local_time_text(text: Seq<char>, format: Seq<char>, utc_offset: i32) -> Option<UtcTime>;

/// Relies on `chrono::NaiveDateTime::parse_from_str` to read a local date and time with a
/// `strftime`-style format, on `chrono::FixedOffset::east_opt` for the zone (it has none
/// beyond a day either way), and on the conversion of a local time at a fixed offset to UTC,
/// which is never ambiguous.
#[verifier::external_body]
pub(crate) fn parse_local_time(text: &str, format: &str, utc_offset: i32) -> (r: Option<UtcTime>)
    ensures
        r == local_time_text(text@, format@, utc_offset),
        r matches Some(t) ==> t.wf(),
{
    let zone = chrono::FixedOffset::east_opt(utc_offset)?;
    let local = chrono::NaiveDateTime::parse_from_str(text, format).ok()?;
    let utc = local.and_local_timezone(zone).single()?.with_timezone(&chrono::Utc);
    Some(UtcTime {
        year: utc.year(),
        month: utc.month(),
        day: utc.day(),
        hour: utc.hour(),
        minute: utc.minute(),
        second: utc.second(),
        nanosecond: utc.nanosecond(),
    })
}

} // verus!
