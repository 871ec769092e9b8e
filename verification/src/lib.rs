//! A WHOIS client core: the two-hop referral protocol and a parser that
//! turns raw WHOIS text into a typed record.
//!
//! The [`resolver`] module holds every decision of the referral algorithm —
//! the query line, response decoding, referral extraction, and the address
//! of the second hop — while the network round trips between those
//! decisions are left to the caller. The [`parser`] module turns the final
//! raw text into the [`record::WhoisInformation`] structure, tolerating
//! unknown and missing fields and strict about date-bearing ones.

pub mod dates;
pub mod errors;
pub mod parser;
pub mod record;
pub mod resolver;
pub mod text;
