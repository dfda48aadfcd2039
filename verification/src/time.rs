//! Creation timestamps for catalog entries.
//!
//! A timestamp is held as plain calendar fields and rendered elsewhere as an
//! ISO-8601 UTC string. Only the field ranges are promised; the clock itself
//! is environmental.

use vstd::prelude::*;

verus! {

/// The ghost image of a timestamp: its calendar fields.
pub ghost struct TimestampView {
    pub year: u16,
    pub month: u8,
    pub day: u8,
    pub hour: u8,
    pub minute: u8,
    pub second: u8,
}

/// Field ranges that every constructed timestamp satisfies. The day is only
/// bounded by 31: nothing downstream needs month-aware day counts.
pub open spec fn view_well_formed(v: TimestampView) -> bool {
    &&& 1 <= v.year <= 9999
    &&& 1 <= v.month <= 12
    &&& 1 <= v.day <= 31
    &&& v.hour <= 23
    &&& v.minute <= 59
    &&& v.second <= 59
}

/// A UTC calendar timestamp with second precision.
#[derive(Clone, Copy, Debug, PartialEq, Eq, Structural)]
pub struct Timestamp {
    year: u16,
    month: u8,
    day: u8,
    hour: u8,
    minute: u8,
    second: u8,
}

impl View for Timestamp {
    type V = TimestampView;

    closed spec fn view(&self) -> TimestampView {
        TimestampView {
            year: self.year,
            month: self.month,
            day: self.day,
            hour: self.hour,
            minute: self.minute,
            second: self.second,
        }
    }
}

impl Timestamp {
    #[verifier::type_invariant]
    pub closed spec fn well_formed(self) -> bool {
        view_well_formed(self@)
    }

    /// Build a timestamp from explicit fields; out-of-range fields are
    /// rejected.
    pub fn new(year: u16, month: u8, day: u8, hour: u8, minute: u8, second: u8) -> (r: Option<
        Timestamp,
    >)
        ensures
            r is Some <==> view_well_formed(
                TimestampView { year, month, day, hour, minute, second },
            ),
            r is Some ==> r->0@ == (TimestampView { year, month, day, hour, minute, second }),
    {
        if 1 <= year && year <= 9999 && 1 <= month && month <= 12 && 1 <= day && day <= 31 && hour
            <= 23 && minute <= 59 && second <= 59 {
            Some(Timestamp { year, month, day, hour, minute, second })
        } else {
            None
        }
    }

    /// The current UTC time. Years outside the renderable range are clamped;
    /// beyond well-formedness nothing is promised of the value, since it
    /// depends on the clock.
    pub fn now() -> (r: Timestamp)
        ensures
            view_well_formed(r@),
    {
        let (y, mo, d, h, mi, s) = now_parts();
        let year: u16 = if y < 1 {
            1
        } else if y > 9999 {
            9999
        } else {
            y as u16
        };
        Timestamp {
            year,
            month: mo as u8,
            day: d as u8,
            hour: h as u8,
            minute: mi as u8,
            second: s as u8,
        }
    }

    /// Every timestamp a caller can hold was built by a constructor, so its
    /// view is within the ranges of `view_well_formed`.
    pub proof fn lemma_well_formed(self)
        requires
            self.well_formed(),
        ensures
            view_well_formed(self@),
    {
    }

    pub fn year(&self) -> (r: u16)
        ensures
            r == self@.year,
    {
        self.year
    }

    pub fn month(&self) -> (r: u8)
        ensures
            r == self@.month,
    {
        self.month
    }

    pub fn day(&self) -> (r: u8)
        ensures
            r == self@.day,
    {
        self.day
    }

    pub fn hour(&self) -> (r: u8)
        ensures
            r == self@.hour,
    {
        self.hour
    }

    pub fn minute(&self) -> (r: u8)
        ensures
            r == self@.minute,
    {
        self.minute
    }

    pub fn second(&self) -> (r: u8)
        ensures
            r == self@.second,
    {
        self.second
    }
}

/// Relies on chrono's `Utc::now` and its `Datelike` / `Timelike` accessors:
/// month is 1..=12, day 1..=31, hour 0..=23, minute and second 0..=59.
#[verifier::external_body]
fn now_parts() -> (r: (i32, u32, u32, u32, u32, u32))
    ensures
        1 <= r.1 <= 12,
        1 <= r.2 <= 31,
        r.3 <= 23,
        r.4 <= 59,
        r.5 <= 59,
{
    let now = chrono::Utc::now();
    (
        chrono::Datelike::year(&now),
        chrono::Datelike::month(&now),
        chrono::Datelike::day(&now),
        chrono::Timelike::hour(&now),
        chrono::Timelike::minute(&now),
        chrono::Timelike::second(&now),
    )
}

} // verus!
