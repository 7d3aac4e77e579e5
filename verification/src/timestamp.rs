//! A point in time with its UTC offset, held as plain integers. Reading and
//! writing its RFC 3339 text is done by the `time` crate.

use vstd::prelude::*;

verus! {

/// Whether the `time` crate can hold the instant `unix_nanos` (nanoseconds
/// since the Unix epoch) shifted to the offset `offset_seconds` east of UTC.
pub uninterp spec fn representable(unix_nanos: int, offset_seconds: int) -> bool;

/// What `time::OffsetDateTime::parse` with the RFC 3339 description makes of
/// `text`: the instant and offset read, or the crate's message on failure.
pub uninterp spec fn rfc3339_parsed(text: Seq<char>) -> Result<(int, int), Seq<char>>;

/// The text that `time::OffsetDateTime::format` with the RFC 3339 description
/// gives for an instant and offset; `None` where it declines.
pub uninterp spec fn rfc3339_formatted(unix_nanos: int, offset_seconds: int) -> Option<Seq<char>>;

/// The text that `time::OffsetDateTime::format` gives for an instant and
/// offset under a format description written in the crate's own syntax;
/// `None` where the description or the date-time is declined.
pub uninterp spec fn described_formatted(
    unix_nanos: int,
    offset_seconds: int,
    description: Seq<char>,
) -> Option<Seq<char>>;

/// The text that `time::OffsetDateTime` displays an instant and offset as.
pub uninterp spec fn displayed(unix_nanos: int, offset_seconds: int) -> Seq<char>;

/// The RFC 3339 text of an instant and offset, or, where the `time` crate
/// declines to write it (a year outside 0..=9999, an offset with seconds),
/// its display form.
pub open spec fn rfc3339_text(unix_nanos: int, offset_seconds: int) -> Seq<char> {
    match rfc3339_formatted(unix_nanos, offset_seconds) {
        Some(text) => text,
        None => displayed(unix_nanos, offset_seconds),
    }
}

/// The text of an instant and offset under a format description, or, where
/// the `time` crate declines, its display form.
pub open spec fn described_text(
    unix_nanos: int,
    offset_seconds: int,
    description: Seq<char>,
) -> Seq<char> {
    match described_formatted(unix_nanos, offset_seconds, description) {
        Some(text) => text,
        None => displayed(unix_nanos, offset_seconds),
    }
}

/// A point in time together with the UTC offset it is expressed in.
#[derive(Debug, Clone, Copy, PartialEq, Eq)]
pub struct Timestamp {
    unix_nanos: i128,
    offset_seconds: i32,
}

/// The mathematical content of a [`Timestamp`].
pub struct TimestampModel {
    pub unix_nanos: int,
    pub offset_seconds: int,
}

impl TimestampModel {
    /// Whether the `time` crate can hold this instant at this offset.
    pub open spec fn wf(self) -> bool {
        representable(self.unix_nanos, self.offset_seconds)
    }
}

impl View for Timestamp {
    type V = TimestampModel;

    closed spec fn view(&self) -> TimestampModel {
        TimestampModel {
            unix_nanos: self.unix_nanos as int,
            offset_seconds: self.offset_seconds as int,
        }
    }
}

/// Asks the `time` crate whether it can hold the instant at the offset: builds
/// the `OffsetDateTime` with `from_unix_timestamp_nanos`, the `UtcOffset` with
/// `from_whole_seconds`, and shifts with `checked_to_offset`.
#[verifier::external_body]
fn can_represent(unix_nanos: i128, offset_seconds: i32) -> (r: bool)
    ensures
        r == representable(unix_nanos as int, offset_seconds as int),
{
    let instant = time::OffsetDateTime::from_unix_timestamp_nanos(unix_nanos).ok();
    let offset = time::UtcOffset::from_whole_seconds(offset_seconds).ok();
    match (instant, offset) {
        (Some(t), Some(o)) => t.checked_to_offset(o).is_some(),
        _ => false,
    }
}

/// Calls `time::OffsetDateTime::parse` with the well-known RFC 3339
/// description and hands back the instant and offset it read, or the text of
/// the crate's error.
#[verifier::external_body]
fn read_rfc3339(text: &str) -> (r: Result<(i128, i32), String>)
    ensures
        match r {
            Ok(pair) => rfc3339_parsed(text@) == Ok::<(int, int), Seq<char>>(
                (pair.0 as int, pair.1 as int),
            ),
            Err(reason) => rfc3339_parsed(text@) == Err::<(int, int), Seq<char>>(reason@),
        },
{
    match time::OffsetDateTime::parse(text, &time::format_description::well_known::Rfc3339) {
        Ok(t) => Ok((t.unix_timestamp_nanos(), t.offset().whole_seconds())),
        Err(e) => Err(e.to_string()),
    }
}

/// Calls `time::OffsetDateTime::format` with the well-known RFC 3339
/// description, on the date-time built from the instant and the offset.
#[verifier::external_body]
fn write_rfc3339(unix_nanos: i128, offset_seconds: i32) -> (r: Option<String>)
    requires
        representable(unix_nanos as int, offset_seconds as int),
    ensures
        match r {
            Some(text) => rfc3339_formatted(unix_nanos as int, offset_seconds as int) == Some(
                text@,
            ),
            None => rfc3339_formatted(unix_nanos as int, offset_seconds as int).is_none(),
        },
{
    let offset = time::UtcOffset::from_whole_seconds(offset_seconds).unwrap();
    let t = time::OffsetDateTime::from_unix_timestamp_nanos(unix_nanos).unwrap().to_offset(offset);
    t.format(&time::format_description::well_known::Rfc3339).ok()
}

/// Reads `description` with `time::format_description::parse_borrowed` and
/// calls `time::OffsetDateTime::format` with it, on the date-time built from
/// the instant and the offset.
#[verifier::external_body]
fn write_described(unix_nanos: i128, offset_seconds: i32, description: &str) -> (r: Option<String>)
    requires
        representable(unix_nanos as int, offset_seconds as int),
    ensures
        match r {
            Some(text) => described_formatted(
                unix_nanos as int,
                offset_seconds as int,
                description@,
            ) == Some(text@),
            None => described_formatted(
                unix_nanos as int,
                offset_seconds as int,
                description@,
            ).is_none(),
        },
{
    let offset = time::UtcOffset::from_whole_seconds(offset_seconds).unwrap();
    let t = time::OffsetDateTime::from_unix_timestamp_nanos(unix_nanos).unwrap().to_offset(offset);
    let items = time::format_description::parse_borrowed::<1>(description).ok()?;
    t.format(&items).ok()
}

/// Calls the `Display` implementation of `time::OffsetDateTime`, on the
/// date-time built from the instant and the offset.
#[verifier::external_body]
fn write_displayed(unix_nanos: i128, offset_seconds: i32) -> (r: String)
    requires
        representable(unix_nanos as int, offset_seconds as int),
    ensures
        r@ == displayed(unix_nanos as int, offset_seconds as int),
{
    let offset = time::UtcOffset::from_whole_seconds(offset_seconds).unwrap();
    let t = time::OffsetDateTime::from_unix_timestamp_nanos(unix_nanos).unwrap().to_offset(offset);
    t.to_string()
}

impl Timestamp {
    /// Whether the `time` crate can hold this instant at this offset.
    pub open spec fn wf(&self) -> bool {
        self@.wf()
    }

    /// The timestamp for an instant and an offset, where the `time` crate can
    /// hold it.
    pub fn new(unix_nanos: i128, offset_seconds: i32) -> (r: Option<Timestamp>)
        ensures
            r.is_some() == representable(unix_nanos as int, offset_seconds as int),
            r matches Some(t) ==> t@ == (TimestampModel {
                unix_nanos: unix_nanos as int,
                offset_seconds: offset_seconds as int,
            }),
    {
        if can_represent(unix_nanos, offset_seconds) {
            Some(Timestamp { unix_nanos, offset_seconds })
        } else {
            None
        }
    }

    /// The UTC timestamp for a number of nanoseconds since the Unix epoch.
    pub fn from_unix_timestamp_nanos(unix_nanos: i128) -> (r: Option<Timestamp>)
        ensures
            r.is_some() == representable(unix_nanos as int, 0),
            r matches Some(t) ==> t@ == (TimestampModel {
                unix_nanos: unix_nanos as int,
                offset_seconds: 0,
            }),
    {
        Timestamp::new(unix_nanos, 0)
    }

    /// The UTC timestamp for a number of seconds since the Unix epoch.
    pub fn from_unix_timestamp(seconds: i64) -> (r: Option<Timestamp>)
        ensures
            r.is_some() == representable(seconds as int * 1_000_000_000, 0),
            r matches Some(t) ==> t@ == (TimestampModel {
                unix_nanos: seconds as int * 1_000_000_000,
                offset_seconds: 0,
            }),
    {
        let wide: i128 = seconds as i128;
        Timestamp::new(wide * 1_000_000_000i128, 0)
    }

    /// Nanoseconds since the Unix epoch.
    pub fn unix_timestamp_nanos(&self) -> (r: i128)
        ensures
            r == self@.unix_nanos,
    {
        self.unix_nanos
    }

    /// Seconds east of UTC.
    pub fn offset_seconds(&self) -> (r: i32)
        ensures
            r == self@.offset_seconds,
    {
        self.offset_seconds
    }

    /// Reads an RFC 3339 date-time. Fails with the `time` crate's message where
    /// the crate rejects the text, and with a message of this library where the
    /// crate reads an instant that it cannot hold at that offset once shifted
    /// from UTC.
    pub fn parse(text: &str) -> (r: Result<Timestamp, String>)
        ensures
            timestamp_result(r) == checked_timestamp(rfc3339_parsed(text@)),
            r matches Ok(t) ==> t.wf(),
    {
        match read_rfc3339(text) {
            Ok(pair) => {
                if can_represent(pair.0, pair.1) {
                    Ok(Timestamp { unix_nanos: pair.0, offset_seconds: pair.1 })
                } else {
                    Err("timestamp out of range".to_string())
                }
            },
            Err(reason) => Err(reason),
        }
    }

    /// The RFC 3339 text of this timestamp, with as many fractional digits as
    /// the instant needs; its display form where it has no RFC 3339 text.
    pub fn to_rfc3339(&self) -> (r: String)
        requires
            self.wf(),
        ensures
            r@ == rfc3339_text(self@.unix_nanos, self@.offset_seconds),
    {
        match write_rfc3339(self.unix_nanos, self.offset_seconds) {
            Some(text) => text,
            None => write_displayed(self.unix_nanos, self.offset_seconds),
        }
    }

    /// The text of this timestamp under a format description in the `time`
    /// crate's syntax; its display form where the crate declines.
    pub fn to_described(&self, description: &str) -> (r: String)
        requires
            self.wf(),
        ensures
            r@ == described_text(self@.unix_nanos, self@.offset_seconds, description@),
    {
        match write_described(self.unix_nanos, self.offset_seconds, description) {
            Some(text) => text,
            None => write_displayed(self.unix_nanos, self.offset_seconds),
        }
    }
}

/// The view of the outcome of reading a timestamp.
pub open spec fn timestamp_result(r: Result<Timestamp, String>) -> Result<
    TimestampModel,
    Seq<char>,
> {
    match r {
        Ok(t) => Ok(t@),
        Err(reason) => Err(reason@),
    }
}

/// What reading a timestamp yields, given what the `time` crate made of the
/// text: its instant where it can be held, else a reason.
pub open spec fn checked_timestamp(parsed: Result<(int, int), Seq<char>>) -> Result<
    TimestampModel,
    Seq<char>,
> {
    match parsed {
        Ok(pair) => if representable(pair.0, pair.1) {
            Ok(TimestampModel { unix_nanos: pair.0, offset_seconds: pair.1 })
        } else {
            Err("timestamp out of range"@)
        },
        Err(reason) => Err(reason),
    }
}

} // verus!
