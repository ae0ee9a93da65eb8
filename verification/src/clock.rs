//! RFC 3339 timestamps (a note's `createdAt`) through the `time` crate:
//! read into plain numbers the rest of the library compares and prints,
//! and written for a new note.
use vstd::prelude::*;

use crate::error::{error_message, MinuteError};
use crate::text::{push_str, string_from_chars, chars_of, push_chars};

verus! {

/// One RFC 3339 timestamp as `time` reads it: the instant, in nanoseconds
/// since the Unix epoch, and the calendar date written in the timestamp (in
/// its own offset).
#[derive(Debug, Clone, Copy, PartialEq, Eq)]
pub struct Rfc3339Moment {
    pub unix_nanos: i128,
    pub year: i32,
    pub month: u8,
    pub day: u8,
}

/// What `time::OffsetDateTime::parse(text, &Rfc3339)` reads from `text`,
/// as `(unix nanoseconds, year, month, day)`; `None` when it rejects it.
pub uninterp spec fn parsed_rfc3339(text: Seq<char>) -> Option<(int, int, int, int)>;

/// The parsed moment as the tuple [`parsed_rfc3339`] speaks of.
pub open spec fn moment_tuple(m: Rfc3339Moment) -> (int, int, int, int) {
    (m.unix_nanos as int, m.year as int, m.month as int, m.day as int)
}

/// `time::OffsetDateTime::parse` with the RFC 3339 description, read out
/// through `unix_timestamp_nanos`, `year`, `month` and `day`. Claimed: the
/// result is [`parsed_rfc3339`] of the text; the year has exactly four
/// digits (the parser reads four), the month is 1-12, the day 1-31.
#[verifier::external_body]
pub(crate) fn parse_rfc3339(text: &str) -> (r: Option<Rfc3339Moment>)
    ensures
        match r {
            Some(m) => parsed_rfc3339(text@) == Some(moment_tuple(m)),
            None => parsed_rfc3339(text@) is None,
        },
        r matches Some(m) ==> 0 <= m.year <= 9999 && 1 <= m.month <= 12 && 1 <= m.day <= 31,
{
    time::OffsetDateTime::parse(text, &time::format_description::well_known::Rfc3339).ok().map(
        |dt| Rfc3339Moment {
            unix_nanos: dt.unix_timestamp_nanos(),
            year: dt.year(),
            month: u8::from(dt.month()),
            day: dt.day(),
        },
    )
}

/// What `time` writes for the instant `unix_nanos` (Unix nanoseconds) taken
/// in UTC, in the RFC 3339 format: the text, or the message of the error it
/// gives instead (an instant it cannot hold, or a year outside 0-9999).
pub uninterp spec fn rfc3339_utc_text(unix_nanos: int) -> Result<Seq<char>, Seq<char>>;

/// `time::OffsetDateTime::from_unix_timestamp_nanos`, then `format` with
/// the RFC 3339 description, an error of either step as its message.
/// Claimed: the result is [`rfc3339_utc_text`] of the instant.
#[verifier::external_body]
fn format_rfc3339_utc(unix_nanos: i128) -> (r: Result<String, String>)
    ensures
        match r {
            Ok(s) => rfc3339_utc_text(unix_nanos as int) == Ok::<Seq<char>, Seq<char>>(s@),
            Err(m) => rfc3339_utc_text(unix_nanos as int) == Err::<Seq<char>, Seq<char>>(m@),
        },
{
    match time::OffsetDateTime::from_unix_timestamp_nanos(unix_nanos) {
        Ok(dt) => dt.format(&time::format_description::well_known::Rfc3339).map_err(|e| e.to_string()),
        Err(e) => Err(e.to_string()),
    }
}

/// A new note's `createdAt` for the instant `unix_nanos`: its RFC 3339 text
/// in UTC, or the error that says the formatting failed and why.
pub fn created_at_text(unix_nanos: i128) -> (r: Result<String, MinuteError>)
    ensures
        match rfc3339_utc_text(unix_nanos as int) {
            Ok(s) => r matches Ok(x) && x@ == s,
            Err(m) => r matches Err(e) && error_message(e) == "failed to format createdAt: "@ + m,
        },
{
    match format_rfc3339_utc(unix_nanos) {
        Ok(s) => Ok(s),
        Err(m) => {
            let mut out: Vec<char> = Vec::new();
            push_str(&mut out, "failed to format createdAt: ");
            let mc = chars_of(m.as_str());
            push_chars(&mut out, &mc);
            Err(MinuteError::Other(string_from_chars(&out)))
        },
    }
}

} // verus!
