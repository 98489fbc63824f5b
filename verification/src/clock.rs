//! Reads of the wall clock and of fresh random identifiers.
use vstd::prelude::*;
use crate::value::json_str_of;

verus! {

/// Calls `chrono::Utc::now()` and gives the instant in milliseconds since
/// the Unix epoch. `Utc::now` reads the system clock as a duration since
/// the epoch (stopping when the clock is before it) and makes a date-time
/// of it with `DateTime::from_timestamp(..).unwrap()` (stopping when it is
/// beyond the last instant chrono holds), so a reading it returns is not
/// negative and not after `TIME_MAX_MS`; nothing more is promised of it.
#[verifier::external_body]
pub fn now_millis() -> (r: i64)
    ensures
        0 <= r <= TIME_MAX_MS,
{
    chrono::Utc::now().timestamp_millis()
}

/// The text of the error `uuid::Uuid::parse_str` gives for a text, nothing
/// when it accepts the text as a UUID.
pub uninterp spec fn uuid_parse_error(s: Seq<char>) -> Option<Seq<char>>;

/// Whether `uuid::Uuid::parse_str` accepts a text as a UUID.
pub open spec fn uuid_parses(s: Seq<char>) -> bool {
    uuid_parse_error(s) is None
}

/// Calls `uuid::Uuid::new_v4()` and renders it in hyphenated form, which
/// the `uuid` crate documents as 36 characters and reads back with
/// `parse_str`; the value is random.
#[verifier::external_body]
pub fn new_uuid() -> (r: String)
    ensures
        r@.len() == 36,
        uuid_parses(r@),
{
    uuid::Uuid::new_v4().to_string()
}

/// Calls `uuid::Uuid::parse_str`, giving nothing when it accepts the text
/// and the error's text otherwise.
#[verifier::external_body]
pub fn check_uuid(s: &str) -> (r: Result<(), String>)
    ensures
        match r {
            Ok(_) => uuid_parse_error(s@) is None,
            Err(e) => uuid_parse_error(s@) == Some(e@),
        },
{
    uuid::Uuid::parse_str(s).map(|_| ()).map_err(|e| e.to_string())
}

/// Whether the text is a UUID.
pub fn is_uuid(s: &str) -> (r: bool)
    ensures
        r == uuid_parses(s@),
{
    match check_uuid(s) {
        Ok(_) => true,
        Err(_) => false,
    }
}

/// The earliest instant that the time library can hold, in milliseconds
/// since the Unix epoch (the first day of its first year, taken a day late
/// to stay clear of the edge).
pub const TIME_MIN_MS: i64 = -8_334_601_228_800_000;

/// The last millisecond that the time library can hold.
pub const TIME_MAX_MS: i64 = 8_210_266_876_799_999;

/// The first millisecond of the year 0000.
pub const RFC3339_MIN_MS: i64 = -62_167_219_200_000;

/// The last millisecond of the year 9999.
pub const RFC3339_MAX_MS: i64 = 253_402_300_799_999;

/// The RFC 3339 text that `chrono` writes for an instant (given in
/// milliseconds since the Unix epoch) with `to_rfc3339_opts(AutoSi, true)`,
/// which is also how it serializes a `DateTime<Utc>`.
pub uninterp spec fn rfc3339_of(ms: i64) -> Seq<char>;

/// The instant that `DateTime::parse_from_rfc3339` reads from a text, in
/// milliseconds since the Unix epoch.
pub uninterp spec fn rfc3339_ms_of(s: Seq<char>) -> Option<i64>;

/// The instant that `str::parse::<DateTime<Utc>>` reads from a text (which
/// is how a `DateTime<Utc>` is deserialized), in milliseconds.
pub uninterp spec fn datetime_ms_of(s: Seq<char>) -> Option<i64>;

/// Calls `DateTime::from_timestamp_millis` and `to_rfc3339_opts(AutoSi,
/// true)`. The milliseconds are written out as needed, and a year outside
/// 0000 to 9999 is written with its sign and at least four digits.
/// `str::parse` reads a signed year, so it reads every such text back;
/// `parse_from_rfc3339` reads back the years 0000 to 9999.
#[verifier::external_body]
pub fn rfc3339_text(ms: i64) -> (r: String)
    requires
        TIME_MIN_MS <= ms <= TIME_MAX_MS,
    ensures
        r@ == rfc3339_of(ms),
        datetime_ms_of(r@) == Some(ms),
        RFC3339_MIN_MS <= ms <= RFC3339_MAX_MS ==> rfc3339_ms_of(r@) == Some(ms),
{
    chrono::DateTime::from_timestamp_millis(ms).map(|d| d.to_rfc3339_opts(chrono::SecondsFormat::AutoSi, true)).unwrap_or_default()
}

/// Calls `DateTime::parse_from_rfc3339` and gives the instant in
/// milliseconds.
#[verifier::external_body]
pub fn parse_rfc3339_ms(s: &str) -> (r: Option<i64>)
    ensures
        r == rfc3339_ms_of(s@),
{
    chrono::DateTime::parse_from_rfc3339(s).ok().map(|d| d.timestamp_millis())
}

/// The instant that `serde_json::from_value::<DateTime<Utc>>` reads from a
/// JSON value: a date-time is read from a JSON string, whose text is parsed
/// as `str::parse` does; no other JSON value holds one.
pub open spec fn json_time_of(v: serde_json::Value) -> Option<i64> {
    match json_str_of(v) {
        Some(s) => datetime_ms_of(s),
        None => None,
    }
}

/// The text of the error `serde_json::from_value::<DateTime<Utc>>` gives on
/// a value that holds no date-time.
pub uninterp spec fn json_datetime_error(v: serde_json::Value) -> Seq<char>;

/// Calls `serde_json::from_value::<DateTime<Utc>>` and gives the instant in
/// milliseconds, or the text of the error.
#[verifier::external_body]
pub fn json_datetime(v: &serde_json::Value) -> (r: Result<i64, String>)
    ensures
        match r {
            Ok(t) => json_time_of(*v) == Some(t),
            Err(e) => json_time_of(*v) is None && e@ == json_datetime_error(*v),
        },
{
    serde_json::from_value::<chrono::DateTime<chrono::Utc>>(v.clone()).map(|d| d.timestamp_millis()).map_err(|e| e.to_string())
}

} // verus!
