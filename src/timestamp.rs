//! Creation timestamps: reading them in the two accepted layouts and
//! writing them as `YYYY-MM-DD HH:MM:SS` through chrono.

use vstd::prelude::*;
use chrono::{Datelike, Timelike};

verus! {

/// `chrono::ParseError`, why a timestamp did not parse, carried as an
/// opaque value.
#[verifier::external_type_specification]
#[verifier::external_body]
pub struct ExParseError(chrono::ParseError);

/// A calendar date and time of day, to the second.
pub struct Timestamp {
    pub year: i32,
    pub month: u32,
    pub day: u32,
    pub hour: u32,
    pub minute: u32,
    pub second: u32,
}

/// A name for the fields (year, month, day, hour, minute, second) that
/// `chrono::NaiveDateTime::parse_from_str` reads from a text with a format,
/// or `None` where it fails.
pub uninterp spec fn parsed_fields(text: Seq<char>, format: Seq<char>) -> Option<(int, int, int, int, int, int)>;

impl Timestamp {
    /// Year, month, day, hour, minute and second.
    pub open spec fn fields(&self) -> (int, int, int, int, int, int) {
        (
            self.year as int,
            self.month as int,
            self.day as int,
            self.hour as int,
            self.minute as int,
            self.second as int,
        )
    }

    /// Month, day, hour, minute and second lie in their calendar ranges.
    pub open spec fn in_ranges(&self) -> bool {
        &&& 1 <= self.month <= 12
        &&& 1 <= self.day <= 31
        &&& self.hour <= 23
        &&& self.minute <= 59
        &&& self.second <= 59
    }
}

/// Relies on `chrono::NaiveDateTime::parse_from_str`, which depends on the
/// text and the format alone, and on chrono's accessors `month` (1 to 12),
/// `day` (1 to 31), `hour` (0 to 23), `minute` (0 to 59) and `second`
/// (0 to 59).
#[verifier::external_body]
fn parse_naive(text: &str, format: &str) -> (r: Result<Timestamp, chrono::ParseError>)
    ensures
        r is Ok <==> parsed_fields(text@, format@) is Some,
        r matches Ok(t) ==> parsed_fields(text@, format@) == Some(t.fields()) && t.in_ranges(),
{
    chrono::NaiveDateTime::parse_from_str(text, format).map(|d| Timestamp {
        year: d.year(),
        month: d.month(),
        day: d.day(),
        hour: d.hour(),
        minute: d.minute(),
        second: d.second(),
    })
}

/// ISO layout with a `T` between date and time and optional fractional seconds.
pub open spec fn iso_layout() -> Seq<char> {
    "%Y-%m-%dT%H:%M:%S%.f"@
}

/// Layout with a space between date and time and optional fractional seconds.
pub open spec fn spaced_layout() -> Seq<char> {
    "%Y-%m-%d %H:%M:%S%.f"@
}

/// What a timestamp text reads as: in the ISO layout if it parses so,
/// else in the spaced layout, else nothing.
pub open spec fn timestamp_fields(text: Seq<char>) -> Option<(int, int, int, int, int, int)> {
    if parsed_fields(text, iso_layout()) is Some {
        parsed_fields(text, iso_layout())
    } else {
        parsed_fields(text, spaced_layout())
    }
}

/// Reads a creation timestamp in either accepted layout; the error is the
/// one from the second layout when neither fits.
pub fn parse_datetime(datetime_str: &str) -> (r: Result<Timestamp, chrono::ParseError>)
    ensures
        r is Ok <==> timestamp_fields(datetime_str@) is Some,
        r matches Ok(t) ==> timestamp_fields(datetime_str@) == Some(t.fields()) && t.in_ranges(),
{
    match parse_naive(datetime_str, "%Y-%m-%dT%H:%M:%S%.f") {
        Ok(t) => Ok(t),
        Err(_) => parse_naive(datetime_str, "%Y-%m-%d %H:%M:%S%.f"),
    }
}

/// The layout in which timestamps are shown: `YYYY-MM-DD HH:MM:SS`.
pub open spec fn display_layout() -> Seq<char> {
    "%Y-%m-%d %H:%M:%S"@
}

/// A name for the text that chrono writes for the date and time of day with
/// the given fields (year, month, day, hour, minute, second) in a format; the
/// empty text where the fields name no date and time that chrono holds.
pub uninterp spec fn chrono_text(fields: (int, int, int, int, int, int), format: Seq<char>) -> Seq<char>;

/// Relies on chrono's `NaiveDate::from_ymd_opt`, `NaiveDate::and_hms_opt`
/// and `NaiveDateTime::format`, which depend on the fields and the format
/// alone; the display layout holds only valid specifiers, so writing it
/// does not fail.
#[verifier::external_body]
fn format_fields(t: &Timestamp, format: &str) -> (r: String)
    requires
        format@ == display_layout(),
    ensures
        r@ == chrono_text(t.fields(), format@),
{
    chrono::NaiveDate::from_ymd_opt(t.year, t.month, t.day)
        .and_then(|d| d.and_hms_opt(t.hour, t.minute, t.second))
        .map(|dt| dt.format(format).to_string())
        .unwrap_or_default()
}

impl Timestamp {
    /// The timestamp as `YYYY-MM-DD HH:MM:SS`.
    pub fn to_text(&self) -> (r: String)
        ensures
            r@ == chrono_text(self.fields(), display_layout()),
    {
        format_fields(self, "%Y-%m-%d %H:%M:%S")
    }
}

} // verus!
