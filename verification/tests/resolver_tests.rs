use whois_client::errors::WhoisError;
use whois_client::parser::Parser;
use whois_client::resolver::{
    decode_response, extract_referral, query_line, ReferralOutcome, Whois, WhoisOpt,
    WhoisResolver,
};

#[test]
fn query_line_appends_crlf() {
    assert_eq!(query_line("example.com"), String::from("example.com\r\n"));
}

#[test]
fn empty_response_is_a_hard_failure() {
    let r = decode_response(Vec::new());
    assert_eq!(r.unwrap_err(), WhoisError::EmptyResponseError);
}

#[test]
fn invalid_utf8_fails_with_encoding_error() {
    let r = decode_response(vec![0xffu8, 0xfe, 0xfd]);
    assert_eq!(r.unwrap_err(), WhoisError::EncodingError);
}

#[test]
fn valid_bytes_decode_to_text() {
    let r = decode_response("Domain Name: d\u{f6}m\u{e4}in.example\n".as_bytes().to_vec());
    assert_eq!(r.unwrap(), String::from("Domain Name: d\u{f6}m\u{e4}in.example\n"));
}

#[test]
fn referral_with_port_yields_bare_host() {
    let text = "refer info\nwhois: referral.example:43\nmore text\n";
    let r = extract_referral(text);
    assert_eq!(r, ReferralOutcome::Referral(String::from("referral.example")));
}

#[test]
fn referral_host_is_trimmed_up_to_the_newline() {
    let text = "domain: EXAMPLE.COM\nwhois:   whois.verisign-grs.com  \nstatus: ACTIVE\n";
    let r = extract_referral(text);
    assert_eq!(r, ReferralOutcome::Referral(String::from("whois.verisign-grs.com")));
}

#[test]
fn referral_token_matches_any_letter_case() {
    let text = "WHOIS: whois.nic.example\n";
    let r = extract_referral(text);
    assert_eq!(r, ReferralOutcome::Referral(String::from("whois.nic.example")));
}

#[test]
fn referral_at_end_of_text_needs_no_newline() {
    let text = "domain: EXAMPLE.ORG\nwhois: whois.example-registry.org";
    let r = extract_referral(text);
    assert_eq!(r, ReferralOutcome::Referral(String::from("whois.example-registry.org")));
}

#[test]
fn missing_referral_is_reported_as_such() {
    let text = "domain: EXAMPLE.COM\nstatus: ACTIVE\n";
    assert_eq!(extract_referral(text), ReferralOutcome::NoReferral);
}

#[test]
fn second_hop_reuses_the_root_port() {
    let client = Whois::new(WhoisOpt {
        whois_server: "whois.iana.org:43",
        domain2lookup: "example.com",
    });
    let first = "whois: whois.verisign-grs.com\n";
    assert_eq!(
        client.second_hop_server(first).unwrap(),
        String::from("whois.verisign-grs.com:43")
    );
}

#[test]
fn second_hop_without_referral_fails() {
    let client = Whois::new(WhoisOpt {
        whois_server: "whois.iana.org:43",
        domain2lookup: "example.com",
    });
    let first = "domain: EXAMPLE.COM\nstatus: ACTIVE\n";
    assert_eq!(client.second_hop_server(first).unwrap_err(), WhoisError::NoReferralError);
}

#[test]
fn root_server_without_port_separator_fails() {
    let client = Whois::new(WhoisOpt {
        whois_server: "whois.iana.org",
        domain2lookup: "example.com",
    });
    let first = "whois: whois.verisign-grs.com\n";
    assert_eq!(
        client.second_hop_server(first).unwrap_err(),
        WhoisError::MalformedServerSpecError
    );
}

#[test]
fn two_hop_resolution_end_to_end() {
    // Hop 1: the root registry answers with a referral.
    let client = Whois::new(WhoisOpt {
        whois_server: "whois.iana.org:43",
        domain2lookup: "example.com",
    });
    assert_eq!(client.server(), "whois.iana.org:43");
    assert_eq!(client.domain(), "example.com");
    assert_eq!(query_line(client.domain()), String::from("example.com\r\n"));

    let hop1 = "domain:      EXAMPLE.COM\nwhois: whois.verisign-grs.com\nstatus: ACTIVE\n";
    let second = client.second_hop_server(hop1).unwrap();
    assert_eq!(second, String::from("whois.verisign-grs.com:43"));

    // Hop 2: the registrar-level server answers with the full record.
    let hop2 = "Domain Name: EXAMPLE.COM\r\n\
                Registrar: RESERVED-Internet Assigned Numbers Authority\r\n\
                Name Server: A.IANA-SERVERS.NET\r\n\
                Name Server: B.IANA-SERVERS.NET\r\n";
    let raw = decode_response(hop2.as_bytes().to_vec()).unwrap();
    let info = Parser::new().parse(raw).unwrap();
    assert_eq!(info.domain_name.as_deref(), Some("EXAMPLE.COM"));
    assert_eq!(
        info.registrar.as_deref(),
        Some("RESERVED-Internet Assigned Numbers Authority")
    );
    let servers = info.nameservers.unwrap();
    assert!(servers.len() >= 1);
    assert_eq!(servers[0], String::from("A.IANA-SERVERS.NET"));
}
