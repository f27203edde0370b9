//! Calendar time, reduced to unix seconds plus two trusted bridges into
//! chrono: parsing a calendar string to seconds and rendering seconds back
//! to a calendar string.
//!
//! Everything else the library needs of time — offsets, the seconds-of-minute
//! component, decimal rendering — is plain integer arithmetic on the seconds
//! and is verified here rather than delegated.

use vstd::prelude::*;

use core::fmt::Write;

verus! {

/// The smallest unix timestamp whose calendar date chrono represents:
/// midnight on January 1 of year -262143.
pub const TIMESTAMP_MIN: i64 = -8334601228800;

/// The largest unix timestamp whose calendar date chrono represents:
/// the last second of December 31 of year 262142.
pub const TIMESTAMP_MAX: i64 = 8210266876799;

/// Whether a timestamp has a representable calendar date.
pub open spec fn timestamp_in_range(t: int) -> bool {
    TIMESTAMP_MIN <= t <= TIMESTAMP_MAX
}

/// What rendering timestamp `t` under the strftime format `fmt` yields:
/// nothing when `t` has no calendar date or `fmt` is not a well-formed
/// format; a function of the two arguments alone.
pub uninterp spec fn datetime_chars(t: int, fmt: Seq<char>) -> Option<Seq<char>>;

/// What parsing the calendar string `s` under the strftime format `fmt`
/// yields, in unix seconds; a function of the two arguments alone.
pub uninterp spec fn parsed_datetime(s: Seq<char>, fmt: Seq<char>) -> Option<int>;

/// The view of an optional owned string.
pub open spec fn opt_string_view(r: Option<String>) -> Option<Seq<char>> {
    match r {
        Some(s) => Some(s@),
        None => None,
    }
}

/// The mathematical value of an optional machine integer.
pub open spec fn opt_i64_int(r: Option<i64>) -> Option<int> {
    match r {
        Some(v) => Some(v as int),
        None => None,
    }
}

/// Relies on chrono's `DateTime::from_timestamp` and strftime formatting:
/// what a timestamp renders to under a format string is a function of the
/// two alone, and a timestamp outside the calendar range renders to nothing.
#[verifier::external_body]
pub fn format_timestamp(t: i64, fmt: &str) -> (r: Option<String>)
    ensures
        opt_string_view(r) == datetime_chars(t as int, fmt@),
        timestamp_in_range(t as int) || r is None,
{
    match chrono::DateTime::from_timestamp(t, 0) {
        Some(dt) => {
            let mut out = String::new();
            match write!(out, "{}", dt.format(fmt)) {
                Ok(_) => Some(out),
                Err(_) => None,
            }
        },
        None => None,
    }
}

/// Relies on chrono's `NaiveDateTime::parse_from_str`: which strings parse
/// under a format, and to which instant, depends on the two strings alone;
/// every parsed instant lies within chrono's calendar range.
#[verifier::external_body]
pub fn parse_datetime_seconds(s: &str, fmt: &str) -> (r: Option<i64>)
    ensures
        opt_i64_int(r) == parsed_datetime(s@, fmt@),
        r matches Some(t) ==> timestamp_in_range(t as int),
{
    match chrono::NaiveDateTime::parse_from_str(s, fmt) {
        Ok(dt) => Some(dt.and_utc().timestamp()),
        Err(_) => None,
    }
}

} // verus!
