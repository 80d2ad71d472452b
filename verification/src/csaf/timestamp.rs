use chrono::{DateTime, FixedOffset};
use crate::csaf::model::option_view;
use vstd::prelude::*;

verus! {

/// What `chrono::DateTime::parse_from_rfc3339` makes of a text: `None` where it rejects the
/// text, else the instant as whole seconds since the Unix epoch, the nanoseconds within that
/// second, and the offset from UTC in seconds.
pub uninterp spec fn rfc3339_reading(text: Seq<char>) -> Option<(i64, u32, i32)>;

/// What `chrono::DateTime::to_rfc3339` writes for the instant `seconds`, `nanos` seen at
/// `offset` seconds east of UTC: `None` where chrono has no date and time for these numbers.
pub uninterp spec fn rfc3339_text(seconds: i64, nanos: u32, offset: i32) -> Option<Seq<char>>;

/// Calls `chrono::DateTime::parse_from_rfc3339`. The result is the named reading of the text:
/// nothing more is claimed than that chrono reads equal texts alike.
#[verifier::external_body]
fn read_rfc3339(text: &str) -> (r: Option<(i64, u32, i32)>)
    ensures
        r == rfc3339_reading(text@),
{
    match DateTime::parse_from_rfc3339(text) {
        Ok(moment) => Some(
            (
                moment.timestamp(),
                moment.timestamp_subsec_nanos(),
                moment.offset().local_minus_utc(),
            ),
        ),
        Err(_) => None,
    }
}

/// Calls `chrono::DateTime::to_rfc3339` on the date and time that chrono makes of the three
/// numbers, and returns `None` where it makes none. The result is the named text: nothing
/// more is claimed than that chrono writes equal instants alike.
#[verifier::external_body]
fn write_rfc3339(seconds: i64, nanos: u32, offset: i32) -> (r: Option<String>)
    ensures
        match r {
            Some(s) => rfc3339_text(seconds, nanos, offset) == Some(s@),
            None => rfc3339_text(seconds, nanos, offset) is None,
        },
{
    let zone = FixedOffset::east_opt(offset)?;
    let moment = DateTime::from_timestamp(seconds, nanos)?;
    Some(moment.with_timezone(&zone).to_rfc3339())
}

/// An instant with the offset it was written at.
pub struct TimestampModel {
    pub seconds: i64,
    pub nanos: u32,
    pub offset: i32,
}

impl TimestampModel {
    /// Whether this instant is strictly later than `other`. Offsets play no part.
    pub open spec fn is_after(self, other: TimestampModel) -> bool {
        self.seconds > other.seconds || (self.seconds == other.seconds && self.nanos
            > other.nanos)
    }

    /// Whether the instant can be written in RFC 3339 form.
    pub open spec fn renderable(self) -> bool {
        rfc3339_text(self.seconds, self.nanos, self.offset) is Some
    }

    /// The instant in RFC 3339 form.
    pub open spec fn text(self) -> Seq<char> {
        rfc3339_text(self.seconds, self.nanos, self.offset)->0
    }
}

/// The timestamp that three numbers stand for, where they stand for one.
pub open spec fn timestamp_of_parts(seconds: i64, nanos: u32, offset: i32) -> Option<
    TimestampModel,
> {
    let t = TimestampModel { seconds, nanos, offset };
    if t.renderable() {
        Some(t)
    } else {
        None
    }
}

/// The timestamp that an RFC 3339 text stands for, where it stands for one.
pub open spec fn parsed_timestamp(text: Seq<char>) -> Option<TimestampModel> {
    match rfc3339_reading(text) {
        Some((seconds, nanos, offset)) => timestamp_of_parts(seconds, nanos, offset),
        None => None,
    }
}

/// An instant that can be written in RFC 3339 form, with the offset it was written at.
#[derive(Clone, Copy, Debug)]
pub struct Timestamp {
    seconds: i64,
    nanos: u32,
    offset: i32,
}

impl View for Timestamp {
    type V = TimestampModel;

    closed spec fn view(&self) -> TimestampModel {
        TimestampModel { seconds: self.seconds, nanos: self.nanos, offset: self.offset }
    }
}

impl Timestamp {
    #[verifier::type_invariant]
    spec fn well_formed(self) -> bool {
        self@.renderable()
    }

    /// The timestamp of the instant `seconds`, `nanos` after the Unix epoch at `offset`
    /// seconds east of UTC, or `None` where that is no date and time.
    pub fn from_parts(seconds: i64, nanos: u32, offset: i32) -> (r: Option<Timestamp>)
        ensures
            option_view(r) == timestamp_of_parts(seconds, nanos, offset),
    {
        match write_rfc3339(seconds, nanos, offset) {
            Some(_) => Some(Timestamp { seconds, nanos, offset }),
            None => None,
        }
    }

    /// Reads an RFC 3339 date and time, or returns `None` where `text` is none.
    pub fn parse_from_rfc3339(text: &str) -> (r: Option<Timestamp>)
        ensures
            option_view(r) == parsed_timestamp(text@),
    {
        match read_rfc3339(text) {
            Some((seconds, nanos, offset)) => Timestamp::from_parts(seconds, nanos, offset),
            None => None,
        }
    }

    /// Writes the timestamp in RFC 3339 form, at its own offset.
    pub fn to_rfc3339(&self) -> (r: String)
        ensures
            self@.renderable(),
            r@ == self@.text(),
    {
        proof {
            use_type_invariant(self);
        }
        match write_rfc3339(self.seconds, self.nanos, self.offset) {
            Some(s) => s,
            None => String::new(),
        }
    }

    /// Whether this instant is strictly later than `other`.
    pub fn is_after(&self, other: &Timestamp) -> (r: bool)
        ensures
            r == self@.is_after(other@),
    {
        self.seconds > other.seconds || (self.seconds == other.seconds && self.nanos
            > other.nanos)
    }

    /// Whole seconds since the Unix epoch.
    pub fn seconds(&self) -> (r: i64)
        ensures
            r == self@.seconds,
    {
        self.seconds
    }

    /// Nanoseconds within the second; above 999,999,999 in a leap second.
    pub fn nanos(&self) -> (r: u32)
        ensures
            r == self@.nanos,
    {
        self.nanos
    }

    /// Seconds east of UTC.
    pub fn offset(&self) -> (r: i32)
        ensures
            r == self@.offset,
    {
        self.offset
    }
}

} // verus!
