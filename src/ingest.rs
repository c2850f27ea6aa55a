use vstd::prelude::*;
use chrono::NaiveDateTime;

verus! {

/// The pattern of the timestamp column: `YYYY-MM-DD HH:MM:SS`, in UTC.
pub const TIMESTAMP_FORMAT: &'static str = "%Y-%m-%d %H:%M:%S";

/// Seconds from the Unix epoch to 2015-09-14T00:00:00Z, the day that offsets count from.
pub const EPOCH_UNIX_SECONDS: i64 = 1442188800;

/// Seconds in a day.
pub const SECONDS_PER_DAY: i64 = 86400;

/// Column of a source record that holds the entity name.
pub const NAME_COLUMN: usize = 1;

/// Column of a source record that holds the timestamp.
pub const DATE_COLUMN: usize = 2;

/// Why a source record could not be turned into an event.
#[derive(Debug, Clone, Copy, PartialEq, Eq, Structural)]
pub enum SourceError {
    /// The record has too few columns.
    MissingColumn,
    /// The timestamp does not match the expected pattern.
    InvalidDate,
    /// The day offset does not fit in a signed 16-bit integer.
    DateOutOfRange,
}

/// Seconds since the Unix epoch of the UTC timestamp `s` read with the pattern
/// `fmt`, or `None` when it does not match.
pub uninterp spec fn utc_seconds_of(s: Seq<char>, fmt: Seq<char>) -> Option<int>;

/// Relies on chrono's `NaiveDateTime::parse_from_str`, read as UTC, and
/// `DateTime::timestamp`: the outcome depends on the text and the pattern alone.
#[verifier::external_body]
fn parse_utc_seconds(s: &str, fmt: &str) -> (r: Option<i64>)
    ensures
        r is None <==> utc_seconds_of(s@, fmt@) is None,
        r matches Some(v) ==> utc_seconds_of(s@, fmt@) == Some(v as int),
{
    match NaiveDateTime::parse_from_str(s, fmt) {
        Ok(t) => Some(t.and_utc().timestamp()),
        Err(_) => None,
    }
}

/// Days from the epoch's date to the calendar date (UTC) of the instant `secs`:
/// the difference in seconds divided by a day, rounded down.
pub open spec fn day_offset_spec(secs: int) -> int {
    (secs - EPOCH_UNIX_SECONDS) / (SECONDS_PER_DAY as int)
}

/// Whether `v` fits in a signed 16-bit integer.
pub open spec fn fits_i16(v: int) -> bool {
    i16::MIN <= v <= i16::MAX
}

proof fn lemma_floor_of_negative(d: int, q: int)
    requires
        d < 0,
        q == (-d + 86399) / 86400,
    ensures
        -q == d / 86400,
{
    let f = d / 86400;
    let r = d % 86400;
    assert(d == 86400 * f + r && 0 <= r < 86400);
    assert(-d + 86399 == 86400 * (-f) + (86399 - r));
    assert(0 <= 86399 - r < 86400);
    vstd::arithmetic::div_mod::lemma_fundamental_div_mod_converse(-d + 86399, 86400, -f, 86399 - r);
}

/// The day offset of the instant `secs`; fails with `DateOutOfRange` exactly when
/// it does not fit in 16 bits.
pub fn day_offset_from_seconds(secs: i64) -> (r: Result<i16, SourceError>)
    ensures
        r is Ok <==> fits_i16(day_offset_spec(secs as int)),
        r matches Ok(v) ==> v as int == day_offset_spec(secs as int),
        r matches Err(e) ==> e == SourceError::DateOutOfRange,
{
    let d: i128 = secs as i128 - EPOCH_UNIX_SECONDS as i128;
    let days: i128 = if d >= 0 {
        d / (SECONDS_PER_DAY as i128)
    } else {
        let q: i128 = (-d + (SECONDS_PER_DAY as i128 - 1)) / (SECONDS_PER_DAY as i128);
        proof {
            lemma_floor_of_negative(d as int, q as int);
        }
        -q
    };
    if days < i16::MIN as i128 || days > i16::MAX as i128 {
        Err(SourceError::DateOutOfRange)
    } else {
        Ok(days as i16)
    }
}

/// The day offset of a timestamp whose parse is `parsed` (seconds since the Unix epoch).
pub open spec fn date_offset_spec(parsed: Option<int>) -> Result<i16, SourceError> {
    match parsed {
        None => Err(SourceError::InvalidDate),
        Some(secs) => if fits_i16(day_offset_spec(secs)) {
            Ok(day_offset_spec(secs) as i16)
        } else {
            Err(SourceError::DateOutOfRange)
        },
    }
}

/// The day offset of a parse outcome: `InvalidDate` when the parse failed,
/// `DateOutOfRange` when the offset does not fit.
pub fn offset_of_parsed(parsed: Option<i64>) -> (r: Result<i16, SourceError>)
    ensures
        r == date_offset_spec(
            match parsed {
                Some(v) => Some(v as int),
                None => None,
            },
        ),
{
    match parsed {
        None => Err(SourceError::InvalidDate),
        Some(secs) => day_offset_from_seconds(secs),
    }
}

/// The day offset of the timestamp text `date`.
pub fn date_offset(date: &str) -> (r: Result<i16, SourceError>)
    ensures
        r == date_offset_spec(utc_seconds_of(date@, TIMESTAMP_FORMAT@)),
{
    let parsed = parse_utc_seconds(date, TIMESTAMP_FORMAT);
    offset_of_parsed(parsed)
}

/// The event of one source record: its entity name and the day offset of its
/// timestamp. Fails with `MissingColumn` when a column is absent, else as
/// `date_offset` does.
pub fn parse_record(fields: &Vec<String>) -> (r: Result<(String, i16), SourceError>)
    ensures
        fields@.len() <= DATE_COLUMN ==> r == Err::<(String, i16), SourceError>(SourceError::MissingColumn),
        fields@.len() > DATE_COLUMN ==> match date_offset_spec(
            utc_seconds_of(fields@[DATE_COLUMN as int]@, TIMESTAMP_FORMAT@),
        ) {
            Ok(x) => r matches Ok(p) && p.0@ == fields@[NAME_COLUMN as int]@ && p.1 == x,
            Err(e) => r == Err::<(String, i16), SourceError>(e),
        },
{
    if fields.len() <= DATE_COLUMN {
        return Err(SourceError::MissingColumn);
    }
    match date_offset(fields[DATE_COLUMN].as_str()) {
        Ok(x) => Ok((fields[NAME_COLUMN].clone(), x)),
        Err(e) => Err(e),
    }
}

} // verus!
