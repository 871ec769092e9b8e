//! Parsing of WHOIS date values. The textual format (a relaxed RFC 3339) is
//! handled by the `chrono` crate; what it yields for a given string is named
//! by an uninterpreted function, since only `chrono` defines it.

use vstd::prelude::*;

use crate::record::UtcInstant;

verus! {

/// The UTC instant that `chrono` reads from `s` as a relaxed RFC 3339
/// timestamp, or `None` when `s` is not a well-formed timestamp. The result
/// depends on the characters of `s` alone.
pub uninterp spec fn rfc3339_utc(s: Seq<char>) -> Option<UtcInstant>;

/// Relies on chrono's `FromStr` for `DateTime<Utc>`: it parses a relaxed
/// RFC 3339 timestamp, normalizes it to UTC, and depends on the input string
/// alone. `timestamp` and `timestamp_subsec_nanos` convert the parsed
/// instant to seconds since the Unix epoch plus nanoseconds.
#[verifier::external_body]
pub(crate) fn parse_utc_instant(s: &str) -> (r: Option<UtcInstant>)
    ensures
        r == rfc3339_utc(s@),
{
    match s.parse::<chrono::DateTime<chrono::Utc>>() {
        Ok(d) => Some(UtcInstant { secs: d.timestamp(), nanos: d.timestamp_subsec_nanos() }),
        Err(_) => None,
    }
}

} // verus!
