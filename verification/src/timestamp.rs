//! Instants and spans of time as plain integers.
//!
//! An instant is a count of nanoseconds from the Unix epoch on the UTC time
//! line; a span is a non-negative count of nanoseconds. Calendar work, that is
//! reading the clock and writing an instant as text, is done by the `time`
//! crate.

use vstd::prelude::*;

verus! {

/// Nanoseconds in one second.
pub const NANOS_PER_SECOND: u64 = 1_000_000_000;

/// Nanoseconds in one millisecond.
pub const NANOS_PER_MILLI: u64 = 1_000_000;

/// An instant: nanoseconds since 1970-01-01 00:00:00 UTC, negative before it.
#[derive(Clone, Copy, Debug, PartialEq, Eq, Structural, PartialOrd, Ord, Hash)]
pub struct Timestamp {
    pub unix_nanos: i128,
}

/// A length of time in nanoseconds.
#[derive(Clone, Copy, Debug, PartialEq, Eq, Structural, PartialOrd, Ord, Hash)]
pub struct TimeSpan {
    pub nanos: u128,
}

/// The instant `span` before `at`, held at the earliest instant an `i128`
/// can count where the subtraction would pass it.
pub open spec fn instant_before(at: int, span: int) -> int {
    if at - span < i128::MIN {
        i128::MIN as int
    } else {
        at - span
    }
}

impl TimeSpan {
    /// A span of whole seconds.
    pub fn from_secs(secs: u64) -> (span: TimeSpan)
        ensures
            span.nanos == secs * NANOS_PER_SECOND,
    {
        TimeSpan { nanos: (secs as u128) * 1_000_000_000u128 }
    }

    /// A span of whole milliseconds.
    pub fn from_millis(millis: u64) -> (span: TimeSpan)
        ensures
            span.nanos == millis * NANOS_PER_MILLI,
    {
        TimeSpan { nanos: (millis as u128) * 1_000_000u128 }
    }

    /// The whole milliseconds in the span, rounded down.
    pub open spec fn millis(self) -> int {
        self.nanos as int / NANOS_PER_MILLI as int
    }

    /// The whole milliseconds in the span, rounded down.
    pub fn as_millis(self) -> (millis: u128)
        ensures
            millis == self.millis(),
    {
        self.nanos / (NANOS_PER_MILLI as u128)
    }

    /// The whole milliseconds in the span as 64 bits: a span of more than
    /// these can count is taken as the most that they can count.
    pub open spec fn millis_u64(self) -> u64 {
        if self.millis() > u64::MAX {
            u64::MAX
        } else {
            self.millis() as u64
        }
    }

    /// The whole milliseconds in the span as 64 bits: a span of more than
    /// these can count is taken as the most that they can count.
    pub fn as_millis_u64(self) -> (millis: u64)
        ensures
            millis == self.millis_u64(),
    {
        let millis = self.as_millis();
        if millis > 0xffff_ffff_ffff_ffffu128 {
            u64::MAX
        } else {
            millis as u64
        }
    }
}

impl Timestamp {
    /// The instant that lies `secs` whole seconds after the epoch.
    pub fn from_unix_seconds(secs: i64) -> (at: Timestamp)
        ensures
            at.unix_nanos == secs * NANOS_PER_SECOND,
    {
        Timestamp { unix_nanos: (secs as i128) * 1_000_000_000i128 }
    }

    /// Midnight on the UTC calendar at the start of the day with the Julian
    /// day number `day`.
    pub open spec fn midnight_of(day: i32) -> Timestamp {
        Timestamp {
            unix_nanos: ((day - UNIX_EPOCH_JULIAN_DAY) * SECONDS_PER_DAY * NANOS_PER_SECOND) as i128,
        }
    }

    /// Midnight on the UTC calendar at the start of the day with the Julian
    /// day number `day`.
    pub fn at_midnight_of(day: i32) -> (at: Timestamp)
        ensures
            at == Timestamp::midnight_of(day),
    {
        let days: i128 = (day as i128) - 2_440_588i128;
        Timestamp { unix_nanos: days * 86_400_000_000_000i128 }
    }

    /// The later of two instants.
    pub fn latest(self, other: Timestamp) -> (later: Timestamp)
        ensures
            later.unix_nanos == if self.unix_nanos >= other.unix_nanos {
                self.unix_nanos
            } else {
                other.unix_nanos
            },
    {
        if self.unix_nanos >= other.unix_nanos {
            self
        } else {
            other
        }
    }

    /// The earlier of two instants.
    pub fn earliest(self, other: Timestamp) -> (earlier: Timestamp)
        ensures
            earlier.unix_nanos == if self.unix_nanos <= other.unix_nanos {
                self.unix_nanos
            } else {
                other.unix_nanos
            },
    {
        if self.unix_nanos <= other.unix_nanos {
            self
        } else {
            other
        }
    }

    /// The instant `span` before this one, held at the earliest instant that
    /// can be counted.
    pub open spec fn earlier_by(self, span: TimeSpan) -> Timestamp {
        Timestamp { unix_nanos: instant_before(self.unix_nanos as int, span.nanos as int) as i128 }
    }

    /// The instant `span` before this one. Where that instant lies before the
    /// earliest one that can be counted, the earliest one is returned.
    pub fn minus(self, span: TimeSpan) -> (before: Timestamp)
        ensures
            before == self.earlier_by(span),
    {
        let half: u128 = 0x8000_0000_0000_0000_0000_0000_0000_0000u128;
        if span.nanos < half {
            let back: i128 = span.nanos as i128;
            if self.unix_nanos >= i128::MIN + back {
                Timestamp { unix_nanos: self.unix_nanos - back }
            } else {
                Timestamp { unix_nanos: i128::MIN }
            }
        } else if self.unix_nanos >= 0 && span.nanos - half <= self.unix_nanos as u128 {
            let above: i128 = (span.nanos - half) as i128;
            Timestamp { unix_nanos: i128::MIN + (self.unix_nanos - above) }
        } else {
            Timestamp { unix_nanos: i128::MIN }
        }
    }
}

/// What the `time` crate makes of writing the instant `unix_nanos`, read on
/// the UTC calendar, under the format description `description` where one is
/// given and in the format of RFC 3339 where none is: the text, or, where it
/// writes none (the instant lies beyond its calendar, or the description is
/// none it knows), its message.
pub uninterp spec fn instant_text(unix_nanos: i128, description: Option<Seq<char>>) -> Result<
    Seq<char>,
    Seq<char>,
>;

/// What comes of writing an instant under a format description.
pub open spec fn utc_text(unix_nanos: i128, description: Seq<char>) -> Result<
    Seq<char>,
    Seq<char>,
> {
    instant_text(unix_nanos, Some(description))
}

/// What comes of writing an instant in the format of RFC 3339.
pub open spec fn rfc3339_text(unix_nanos: i128) -> Result<Seq<char>, Seq<char>> {
    instant_text(unix_nanos, None)
}

/// A text or a message, each as a sequence of characters.
pub open spec fn text_or_message(outcome: Result<String, String>) -> Result<Seq<char>, Seq<char>> {
    match outcome {
        Ok(text) => Ok(text@),
        Err(message) => Err(message@),
    }
}

/// The instant that the `time` crate reads from a text in the format of
/// RFC 3339, or nothing where the text is not in that format.
pub uninterp spec fn rfc3339_instant(text: Seq<char>) -> Option<i128>;

/// The Julian day of the date that the `time` crate reads from a text under
/// the format description `description`, or nothing where the text is no
/// such date.
pub uninterp spec fn parsed_julian_day(text: Seq<char>, description: Seq<char>) -> Option<i32>;

/// The Julian day of 1970-01-01.
pub const UNIX_EPOCH_JULIAN_DAY: i32 = 2_440_588;

/// Seconds in one day.
pub const SECONDS_PER_DAY: i64 = 86_400;

/// Reads a text in the format of RFC 3339 through
/// `time::OffsetDateTime::parse` with `well_known::Rfc3339`, and counts the
/// instant in nanoseconds with `unix_timestamp_nanos`. What comes back is a
/// function of the text alone, which [`rfc3339_instant`] names.
#[verifier::external_body]
pub(crate) fn parse_rfc3339(text: &str) -> (at: Option<i128>)
    ensures
        at == rfc3339_instant(text@),
{
    let rfc3339 = time::format_description::well_known::Rfc3339;
    time::OffsetDateTime::parse(text, &rfc3339).ok().map(|at| at.unix_timestamp_nanos())
}

/// Reads a date through `time::Date::parse`, with the items that
/// `format_description::parse_borrowed` reads from `description`, and gives
/// its day number as `Date::to_julian_day` counts it. What comes back is a
/// function of the two texts alone, which [`parsed_julian_day`] names.
#[verifier::external_body]
pub(crate) fn parse_date(text: &str, description: &str) -> (day: Option<i32>)
    ensures
        day == parsed_julian_day(text@, description@),
{
    let items = time::format_description::parse_borrowed::<1>(description).ok()?;
    time::Date::parse(text, &items).ok().map(|date| date.to_julian_day())
}

/// Reads the clock through `time::OffsetDateTime::now_utc` and counts the
/// instant in nanoseconds with `unix_timestamp_nanos`. Nothing is claimed of
/// the instant: it is whatever the clock says.
#[verifier::external_body]
pub(crate) fn now_utc() -> (now: Timestamp) {
    Timestamp { unix_nanos: time::OffsetDateTime::now_utc().unix_timestamp_nanos() }
}

/// Writes an instant as text through `time::OffsetDateTime::format`, on the
/// value that `OffsetDateTime::from_unix_timestamp_nanos` makes of
/// `unix_nanos` (its offset is UTC): with the items that
/// `format_description::parse_borrowed` reads from `description` where one is
/// given, with `well_known::Rfc3339` where none is. Whether every step
/// succeeds, the text where they do and the message of the first step that
/// fails where they do not are functions of the two arguments alone, which
/// [`instant_text`] names.
#[verifier::external_body]
pub(crate) fn format_instant(unix_nanos: i128, description: Option<&str>) -> (text: Result<
    String,
    String,
>)
    ensures
        text_or_message(text) == instant_text(
            unix_nanos,
            match description {
                Some(description) => Some(description@),
                None => None,
            },
        ),
{
    let at = time::OffsetDateTime::from_unix_timestamp_nanos(unix_nanos).map_err(
        |e| e.to_string(),
    )?;
    let written = match description {
        Some(description) => at.format(
            &time::format_description::parse_borrowed::<1>(description).map_err(|e| e.to_string())?,
        ),
        None => at.format(&time::format_description::well_known::Rfc3339),
    };
    written.map_err(|e| e.to_string())
}

} // verus!
