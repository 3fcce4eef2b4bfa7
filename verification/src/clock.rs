//! Wall-clock readings and timestamp rendering. The rendering of a Unix
//! timestamp is a fixed function of the timestamp alone; its two shapes are
//! named here and pinned to the calendar library that computes them.

use vstd::prelude::*;

verus! {

/// Unix timestamps below this bound (the end of year 9999) render within
/// four-digit years and are accepted by the calendar library.
pub const TIMESTAMP_LIMIT: u64 = 253402300800;

/// The compact `YYYYMMDD_HHMMSS` rendering of a Unix timestamp, as the
/// calendar library computes it from the timestamp alone.
pub uninterp spec fn timestamp_label_of(secs: u64) -> Seq<char>;

/// The RFC 3339 rendering of a Unix timestamp, as the calendar library
/// computes it from the timestamp alone.
pub uninterp spec fn rfc3339_label_of(secs: u64) -> Seq<char>;

/// Relies on chrono's `Utc::now` and `DateTime::timestamp`: the seconds since
/// the Unix epoch. Nothing is promised of a clock reading.
#[verifier::external_body]
pub fn current_unix_time() -> u64 {
    u64::try_from(chrono::Utc::now().timestamp()).unwrap_or(0)
}

/// Relies on chrono's `DateTime::from_timestamp` (total for timestamps under
/// `TIMESTAMP_LIMIT`) and its `%Y%m%d_%H%M%S` formatting, a function of the
/// timestamp alone.
#[verifier::external_body]
pub fn format_compact_timestamp(secs: u64) -> (r: String)
    requires
        secs < TIMESTAMP_LIMIT,
    ensures
        r@ == timestamp_label_of(secs),
{
    chrono::DateTime::from_timestamp(secs as i64, 0).unwrap().format("%Y%m%d_%H%M%S").to_string()
}

/// Relies on chrono's `DateTime::from_timestamp` (total for timestamps under
/// `TIMESTAMP_LIMIT`) and `DateTime::to_rfc3339`, a function of the timestamp
/// alone.
#[verifier::external_body]
pub fn format_rfc3339(secs: u64) -> (r: String)
    requires
        secs < TIMESTAMP_LIMIT,
    ensures
        r@ == rfc3339_label_of(secs),
{
    chrono::DateTime::from_timestamp(secs as i64, 0).unwrap().to_rfc3339()
}

} // verus!
