//! The closed set of failures the WHOIS core can report.

use vstd::prelude::*;

use crate::record::DateField;

verus! {

/// Every way a WHOIS resolution or parse can fail.
///
/// Each error is returned to the immediate caller; none is retried or
/// swallowed inside the core.
#[derive(Clone, Debug, PartialEq)]
pub enum WhoisError {
    /// Opening the TCP connection failed (unreachable host, refused port,
    /// DNS failure).
    ConnectError,
    /// The connection succeeded but zero bytes were read before EOF.
    EmptyResponseError,
    /// The bytes read are not valid text.
    EncodingError,
    /// The first response carried no recognizable referral line.
    NoReferralError,
    /// A `host:port` string lacked the separator needed to extract a port.
    MalformedServerSpecError,
    /// A date-bearing line could not be parsed as a UTC instant.
    DateFormatError { field: DateField, value: String },
    /// A caller-imposed deadline elapsed before a network step completed.
    TimeoutError,
    /// The response exceeded the caller-imposed maximum size.
    ResponseTooLargeError,
}

} // verus!
