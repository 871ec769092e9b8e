//! The resolver side of the WHOIS core: building the query line, decoding a
//! response read from the wire, and the referral step of the two-hop
//! algorithm. The network round trips themselves are left to the caller;
//! every decision between them is made here.

use vstd::prelude::*;

use crate::errors::WhoisError;
use crate::text::{
    ascii_lower, char_index_from, find_char, lemma_char_index_skip, matches_lower, trim,
    trim_range,
};

verus! {

/// The configuration of one resolution: which WHOIS server to ask first,
/// and for which domain.
#[derive(Clone, Copy, Debug)]
pub struct WhoisOpt {
    pub whois_server: &'static str,
    pub domain2lookup: &'static str,
}

/// The mathematical model of a resolution target: the first-hop server
/// address and the domain under query.
#[verifier::ext_equal]
pub struct WhoisTarget {
    pub server: Seq<char>,
    pub domain: Seq<char>,
}

/// A WHOIS client configured for one target.
#[derive(Clone, Copy, Debug)]
pub struct Whois {
    target: WhoisOpt,
}

impl View for Whois {
    type V = WhoisTarget;

    closed spec fn view(&self) -> WhoisTarget {
        WhoisTarget { server: self.target.whois_server@, domain: self.target.domain2lookup@ }
    }
}

/// Builds the single query line sent to a WHOIS server: the domain followed
/// by CRLF, as RFC 3912 prescribes.
pub fn query_line(domain: &str) -> (r: String)
    ensures
        r@ == domain@ + seq!['\r', '\n'],
{
    proof {
        reveal_strlit("\r\n");
    }
    let mut s = String::from_str(domain);
    s.append("\r\n");
    proof {
        assert(s@ =~= domain@ + seq!['\r', '\n']);
    }
    s
}

/// Relies on `String::from_utf8`: it succeeds exactly on valid UTF-8 input
/// and yields the decoded characters.
#[verifier::external_body]
fn string_from_utf8(bytes: Vec<u8>) -> (r: Option<String>)
    ensures
        r is Some <==> vstd::utf8::valid_utf8(bytes@),
        r matches Some(s) ==> s@ == vstd::utf8::decode_utf8(bytes@),
{
    String::from_utf8(bytes).ok()
}

/// Turns the bytes read from one WHOIS round trip into text.
///
/// Zero bytes before EOF are a hard failure (`EmptyResponseError`), on
/// whichever hop they occur: a server that accepts the query but returns
/// nothing almost always signals rate-limiting or a malformed query. Bytes
/// that are not valid UTF-8 fail with `EncodingError`.
pub fn decode_response(bytes: Vec<u8>) -> (r: Result<String, WhoisError>)
    ensures
        bytes@.len() == 0 ==> (r matches Err(e) && e == WhoisError::EmptyResponseError),
        bytes@.len() > 0 && !vstd::utf8::valid_utf8(bytes@) ==> (r matches Err(e) && e
            == WhoisError::EncodingError),
        bytes@.len() > 0 && vstd::utf8::valid_utf8(bytes@) ==> (r matches Ok(s) && s@
            == vstd::utf8::decode_utf8(bytes@)),
{
    if bytes.len() == 0 {
        return Result::Err(WhoisError::EmptyResponseError);
    }
    match string_from_utf8(bytes) {
        Some(s) => Result::Ok(s),
        None => Result::Err(WhoisError::EncodingError),
    }
}

/// Whether the referral token `whois:` stands at position `i` of `t`,
/// compared without regard to letter case.
pub open spec fn token_at(t: Seq<char>, i: int) -> bool {
    0 <= i && i + 6 <= t.len() && ascii_lower(t.subrange(i, i + 6)) == "whois:"@
}

/// The first position at or after `i` where the referral token stands.
pub open spec fn first_token_from(t: Seq<char>, i: int) -> Option<int>
    decreases t.len() - i,
{
    if i < 0 || i + 6 > t.len() {
        None
    } else if token_at(t, i) {
        Some(i)
    } else {
        first_token_from(t, i + 1)
    }
}

/// The referral host of a first-hop response: on the first line carrying
/// the token `whois:` (any letter case), the text after the token up to the
/// end of the line, trimmed, and cut before a `:` when the referral itself
/// names a port.
pub open spec fn referral_host_of(t: Seq<char>) -> Option<Seq<char>> {
    match first_token_from(t, 0) {
        None => None,
        Some(i) => {
            let rest = t.skip(i + 6);
            let line = rest.take(char_index_from(rest, '\n', 0));
            let h = trim(line);
            Some(h.take(char_index_from(h, ':', 0)))
        },
    }
}

/// Finds the first occurrence of the referral token in `t`.
fn find_referral_token(t: &str) -> (r: Option<usize>)
    ensures
        r is Some <==> first_token_from(t@, 0) is Some,
        r matches Some(u) ==> first_token_from(t@, 0) == Some(u as int) && u + 6 <= t@.len(),
{
    let n = t.unicode_len();
    if n < 6 {
        return None;
    }
    let mut i: usize = 0;
    while i <= n - 6
        invariant
            6 <= n,
            n == t@.len(),
            i <= n - 5,
            first_token_from(t@, 0) == first_token_from(t@, i as int),
        decreases n - i,
    {
        let w = t.substring_char(i, i + 6);
        if matches_lower(w, "whois:") {
            return Some(i);
        }
        proof {
            assert(!token_at(t@, i as int));
        }
        i += 1;
    }
    None
}

/// The possible outcomes of referral extraction: some responses answer
/// authoritatively at the first hop and carry no referral, which the caller
/// may treat as final rather than as a failure.
#[derive(Clone, Debug, PartialEq)]
pub enum ReferralOutcome {
    /// A referral line was found; the payload is the referral host.
    Referral(String),
    /// No line carried the referral token.
    NoReferral,
}

/// Scans a first-hop response for a referral line and extracts the host it
/// points to, exactly as [`referral_host_of`] prescribes.
pub fn extract_referral(text: &str) -> (r: ReferralOutcome)
    ensures
        match referral_host_of(text@) {
            Some(h) => r matches ReferralOutcome::Referral(s) && s@ == h,
            None => r == ReferralOutcome::NoReferral,
        },
{
    match find_referral_token(text) {
        None => ReferralOutcome::NoReferral,
        Some(i) => {
            let n = text.unicode_len();
            let j = find_char(text, '\n', i + 6);
            proof {
                lemma_char_index_skip(text@, '\n', i as int + 6, i as int + 6);
                assert(text@.skip(i as int + 6).take(j - (i as int + 6)) =~= text@.subrange(
                    i as int + 6,
                    j as int,
                ));
            }
            let h = trim_range(text, i + 6, j);
            let k = find_char(h.as_str(), ':', 0);
            proof {
                assert(h@.subrange(0, k as int) =~= h@.take(k as int));
            }
            let host = h.as_str().substring_char(0, k).to_owned();
            ReferralOutcome::Referral(host)
        },
    }
}

/// The port part of a `host:port` server address: everything after the
/// first colon, or nothing when the address has no colon.
pub open spec fn port_of(server: Seq<char>) -> Option<Seq<char>> {
    let i = char_index_from(server, ':', 0);
    if 0 <= i && i < server.len() {
        Some(server.skip(i + 1))
    } else {
        None
    }
}

/// The server address of the second hop: the referral host of the first
/// response, joined with the port of the root server (every hop of a
/// session shares one port). Fails with `NoReferralError` when the response
/// carries no referral, and with `MalformedServerSpecError` when the root
/// address has no `host:port` separator.
pub open spec fn second_hop_of(root: Seq<char>, first_response: Seq<char>) -> Result<
    Seq<char>,
    WhoisError,
> {
    match referral_host_of(first_response) {
        None => Err(WhoisError::NoReferralError),
        Some(h) => match port_of(root) {
            None => Err(WhoisError::MalformedServerSpecError),
            Some(p) => Ok(h + seq![':'] + p),
        },
    }
}

/// The resolver interface: configuring a client for one target and the
/// decision of the referral step. The network round trips between the
/// decisions are the caller's.
pub trait WhoisResolver: Sized + View<V = WhoisTarget> {
    /// The failure type of a full resolution as an implementation drives
    /// it; the referral decision itself fails with the core's own kinds.
    type Error;

    /// Creates a whois instance and configures the target.
    fn new(opt: WhoisOpt) -> (r: Whois)
        ensures
            r@ == (WhoisTarget { server: opt.whois_server@, domain: opt.domain2lookup@ }),
    ;

    /// Decides the second hop from the first-hop response: the referral
    /// host joined with the root server's port, or the error that rules the
    /// second hop out.
    fn second_hop_server(&self, first_response: &str) -> (r: Result<String, WhoisError>)
        ensures
            match second_hop_of(self@.server, first_response@) {
                Ok(s) => r matches Ok(out) && out@ == s,
                Err(e) => r matches Err(out) && out == e,
            },
    ;
}

impl WhoisResolver for Whois {
    type Error = WhoisError;

    fn new(opt: WhoisOpt) -> (r: Whois) {
        Whois { target: opt }
    }

    fn second_hop_server(&self, first_response: &str) -> (r: Result<String, WhoisError>) {
        let host = match extract_referral(first_response) {
            ReferralOutcome::Referral(h) => h,
            ReferralOutcome::NoReferral => {
                return Result::Err(WhoisError::NoReferralError);
            },
        };
        let server = self.target.whois_server;
        let n = server.unicode_len();
        let k = find_char(server, ':', 0);
        if k == n {
            return Result::Err(WhoisError::MalformedServerSpecError);
        }
        let port = server.substring_char(k + 1, n);
        proof {
            reveal_strlit(":");
            assert(server@.subrange(k as int + 1, n as int) =~= server@.skip(k as int + 1));
        }
        let mut out = host;
        out.append(":");
        out.append(port);
        proof {
            assert(out@ =~= second_hop_of(self@.server, first_response@)->Ok_0);
        }
        Result::Ok(out)
    }
}

impl Whois {
    /// The server address of the first hop.
    pub fn server(&self) -> (r: &'static str)
        ensures
            r@ == self@.server,
    {
        self.target.whois_server
    }

    /// The domain under query.
    pub fn domain(&self) -> (r: &'static str)
        ensures
            r@ == self@.domain,
    {
        self.target.domain2lookup
    }
}

} // verus!
