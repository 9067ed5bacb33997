//! Calls into `chrono` and `usiem`.
//!
//! Each function here hands its argument to one parser of an outside crate
//! and gives back a plain value. Verus does not read the bodies and takes
//! the contracts on trust. The result of each parser is a function of the
//! text alone, so it gets a name that the contracts of the callers can
//! speak of; nothing more is assumed of it.

use vstd::prelude::*;
use crate::record::IpAddress;

verus! {

/// What chrono's `DateTime::parse_from_rfc3339` makes of `text`: the instant
/// it denotes in milliseconds since 1970-01-01T00:00:00Z, or `None` where
/// chrono rejects the text.
pub uninterp spec fn rfc3339_millis(text: Seq<char>) -> Option<i64>;

/// What chrono's `NaiveDateTime::parse_from_str` makes of `text` under the
/// strftime pattern `pattern`, read as a time in UTC: milliseconds since
/// 1970-01-01T00:00:00Z, or `None` where chrono rejects the text.
pub uninterp spec fn datetime_millis(text: Seq<char>, pattern: Seq<char>) -> Option<i64>;

/// What usiem's `SiemIp::from_ip_str` makes of `text`: the address as a
/// number, or `None` where usiem rejects the text.
pub uninterp spec fn ip_of_text(text: Seq<char>) -> Option<IpAddress>;

/// The pattern of a date and time without zone, as in `2021-04-08 12:14:18`.
pub open spec fn plain_datetime_pattern() -> Seq<char> {
    "%Y-%m-%d %H:%M:%S"@
}

/// Calls `chrono::DateTime::parse_from_rfc3339` and, on success,
/// `DateTime::timestamp_millis`.
///
/// Claimed: the call returns for every text, and its result depends on the
/// text alone. The parser reads a four-digit year, so the instant is far
/// inside the range in which `timestamp_millis` cannot overflow.
#[verifier::external_body]
pub(crate) fn parse_rfc3339(text: &str) -> (r: Option<i64>)
    ensures
        r == rfc3339_millis(text@),
{
    match chrono::DateTime::parse_from_rfc3339(text) {
        Ok(instant) => Some(instant.timestamp_millis()),
        Err(_) => None,
    }
}

/// Calls `chrono::NaiveDateTime::parse_from_str` and, on success,
/// `NaiveDateTime::and_utc` and `DateTime::timestamp_millis`.
///
/// Claimed for the one pattern that `requires` admits: the call returns for
/// every text, and its result depends on the text and the pattern alone (no
/// locale and no time zone of the machine is read). chrono bounds the year
/// of a `NaiveDateTime`, so `timestamp_millis` cannot overflow.
#[verifier::external_body]
pub(crate) fn parse_datetime(text: &str, pattern: &str) -> (r: Option<i64>)
    requires
        pattern@ == plain_datetime_pattern(),
    ensures
        r == datetime_millis(text@, pattern@),
{
    match chrono::NaiveDateTime::parse_from_str(text, pattern) {
        Ok(time) => Some(time.and_utc().timestamp_millis()),
        Err(_) => None,
    }
}

/// Calls `usiem::events::SiemIp::from_ip_str`.
///
/// Claimed: the call returns for every text, and its result depends on the
/// text alone. It first reads the text as dotted decimal IPv4, then as IPv6;
/// both readers index only what they have measured and add into disjoint
/// bit ranges.
#[verifier::external_body]
pub(crate) fn parse_ip(text: &str) -> (r: Option<IpAddress>)
    ensures
        r == ip_of_text(text@),
{
    match usiem::events::SiemIp::from_ip_str(text) {
        Ok(usiem::events::SiemIp::V4(bits)) => Some(IpAddress::V4(bits)),
        Ok(usiem::events::SiemIp::V6(bits)) => Some(IpAddress::V6(bits)),
        Err(_) => None,
    }
}

} // verus!
