use whois_client::errors::WhoisError;
use whois_client::parser::Parser;
use whois_client::record::{DateField, UtcInstant};

#[test]
fn domain_name_key_case_ignored_value_case_preserved() {
    let parser = Parser::new();
    let text = String::from("banner line\nDoMaIn NaMe: EXAMPLE.COM\nfooter\n");
    let info = parser.parse(text).unwrap();
    assert_eq!(info.domain_name.as_deref(), Some("EXAMPLE.COM"));
}

#[test]
fn domain_name_last_line_wins() {
    let parser = Parser::new();
    let text = String::from("Domain Name: FIRST.COM\nDomain Name: SECOND.COM\n");
    let info = parser.parse(text).unwrap();
    assert_eq!(info.domain_name.as_deref(), Some("SECOND.COM"));
}

#[test]
fn no_name_server_lines_leave_field_absent() {
    let parser = Parser::new();
    let text = String::from("Domain Name: EXAMPLE.COM\nRegistrar: Example Registrar\n");
    let info = parser.parse(text).unwrap();
    assert!(info.nameservers.is_none());
}

#[test]
fn name_server_lines_accumulate_in_order() {
    let parser = Parser::new();
    let text = String::from(
        "Name Server: NS1.EXAMPLE.NET\nRegistrar: R\nName Server: NS2.EXAMPLE.NET\nName Server: NS3.EXAMPLE.NET\n",
    );
    let info = parser.parse(text).unwrap();
    let servers = info.nameservers.unwrap();
    assert_eq!(
        servers,
        vec![
            String::from("NS1.EXAMPLE.NET"),
            String::from("NS2.EXAMPLE.NET"),
            String::from("NS3.EXAMPLE.NET"),
        ]
    );
}

#[test]
fn bad_creation_date_fails_with_field_and_value() {
    let parser = Parser::new();
    let text = String::from("Domain Name: EXAMPLE.COM\nCreation Date: not-a-date\n");
    let err = parser.parse(text).unwrap_err();
    match err {
        WhoisError::DateFormatError { field, value } => {
            assert_eq!(field, DateField::CreationDate);
            assert_eq!(value, String::from("not-a-date"));
        }
        other => panic!("expected a date format error, got {:?}", other),
    }
}

#[test]
fn bad_updated_date_names_updated_field() {
    let parser = Parser::new();
    let text = String::from("Updated Date: 2021-13-45T99:99:99Z\n");
    let err = parser.parse(text).unwrap_err();
    match err {
        WhoisError::DateFormatError { field, value } => {
            assert_eq!(field, DateField::UpdatedDate);
            assert_eq!(value, String::from("2021-13-45T99:99:99Z"));
        }
        other => panic!("expected a date format error, got {:?}", other),
    }
}

#[test]
fn first_bad_date_line_is_reported() {
    let parser = Parser::new();
    let text = String::from("Updated Date: nope\nCreation Date: also-nope\n");
    let err = parser.parse(text).unwrap_err();
    match err {
        WhoisError::DateFormatError { field, value } => {
            assert_eq!(field, DateField::UpdatedDate);
            assert_eq!(value, String::from("nope"));
        }
        other => panic!("expected a date format error, got {:?}", other),
    }
}

#[test]
fn creation_date_parses_to_utc_instant() {
    let parser = Parser::new();
    let text = String::from("Creation Date: 2021-01-01T00:00:00Z\n");
    let info = parser.parse(text).unwrap();
    assert_eq!(info.creation_date, Some(UtcInstant { secs: 1609459200, nanos: 0 }));
}

#[test]
fn offset_dates_are_normalized_to_utc() {
    let parser = Parser::new();
    let text = String::from("Creation Date: 2021-01-01T02:00:00+02:00\n");
    let info = parser.parse(text).unwrap();
    assert_eq!(info.creation_date, Some(UtcInstant { secs: 1609459200, nanos: 0 }));
}

#[test]
fn all_three_date_fields_parse() {
    let parser = Parser::new();
    let text = String::from(
        "Updated Date: 2020-06-15T12:30:00Z\nCreation Date: 1997-09-15T04:00:00Z\nRegistry Expiry Date: 2028-09-14T04:00:00Z\n",
    );
    let info = parser.parse(text).unwrap();
    assert_eq!(info.updated_date, Some(UtcInstant { secs: 1592224200, nanos: 0 }));
    assert_eq!(info.creation_date, Some(UtcInstant { secs: 874296000, nanos: 0 }));
    assert_eq!(info.registry_expiry_date, Some(UtcInstant { secs: 1852516800, nanos: 0 }));
}

#[test]
fn parsing_twice_yields_identical_records() {
    let parser = Parser::new();
    let text = "Domain Name: EXAMPLE.COM\nRegistrar: Example Registrar, Inc.\nName Server: NS1.EXAMPLE.NET\nCreation Date: 2021-01-01T00:00:00Z\nDNSSEC: signedDelegation\n";
    let first = parser.parse(String::from(text)).unwrap();
    let second = parser.parse(String::from(text)).unwrap();
    assert_eq!(first, second);
}

#[test]
fn unknown_keys_and_plain_lines_are_ignored() {
    let parser = Parser::new();
    let text = String::from(
        ">>> Last update of whois database <<<\nSome Unknown Key: some value\n\nDomain Name: EXAMPLE.COM\n",
    );
    let info = parser.parse(text).unwrap();
    assert_eq!(info.domain_name.as_deref(), Some("EXAMPLE.COM"));
    assert!(info.registrar.is_none());
}

#[test]
fn keys_and_values_are_trimmed() {
    let parser = Parser::new();
    let text = String::from("   Domain Name   :   EXAMPLE.COM   \r\n");
    let info = parser.parse(text).unwrap();
    assert_eq!(info.domain_name.as_deref(), Some("EXAMPLE.COM"));
}

#[test]
fn crlf_responses_lose_the_carriage_return() {
    let parser = Parser::new();
    let text = String::from("Registrar: Example Registrar\r\nDNSSEC: unsigned\r\n");
    let info = parser.parse(text).unwrap();
    assert_eq!(info.registrar.as_deref(), Some("Example Registrar"));
    assert_eq!(info.dnssec.as_deref(), Some("unsigned"));
}

#[test]
fn single_valued_fields_take_the_latest_line() {
    let parser = Parser::new();
    let text = String::from(
        "Domain Status: clientTransferProhibited\nDomain Status: clientDeleteProhibited\n",
    );
    let info = parser.parse(text).unwrap();
    assert_eq!(info.domain_status.as_deref(), Some("clientDeleteProhibited"));
}

#[test]
fn every_plain_field_is_filled() {
    let parser = Parser::new();
    let text = String::from(
        "Domain Name: EXAMPLE.COM\n\
         Registry Domain ID: 2336799_DOMAIN_COM-VRSN\n\
         Registrar WHOIS Server: whois.example-registrar.com\n\
         Registrar URL: http://www.example-registrar.com\n\
         Registrar: Example Registrar, Inc.\n\
         Registrar IANA ID: 376\n\
         Registrar Abuse Contact Email: abuse@example-registrar.com\n\
         Registrar Abuse Contact Phone: +1.2025551212\n\
         Domain Status: clientTransferProhibited\n\
         DNSSEC: signedDelegation\n",
    );
    let info = parser.parse(text).unwrap();
    assert_eq!(info.domain_name.as_deref(), Some("EXAMPLE.COM"));
    assert_eq!(info.registry_domain_id.as_deref(), Some("2336799_DOMAIN_COM-VRSN"));
    assert_eq!(info.registrar_whois_server.as_deref(), Some("whois.example-registrar.com"));
    assert_eq!(info.registrar_url.as_deref(), Some("http://www.example-registrar.com"));
    assert_eq!(info.registrar.as_deref(), Some("Example Registrar, Inc."));
    assert_eq!(info.registrar_iana_id.as_deref(), Some("376"));
    assert_eq!(
        info.registrar_abuse_email_contact.as_deref(),
        Some("abuse@example-registrar.com")
    );
    assert_eq!(info.registrar_abuse_phone_contact.as_deref(), Some("+1.2025551212"));
    assert_eq!(info.domain_status.as_deref(), Some("clientTransferProhibited"));
    assert_eq!(info.dnssec.as_deref(), Some("signedDelegation"));
    assert!(info.updated_date.is_none());
    assert!(info.nameservers.is_none());
}

#[test]
fn a_bad_date_aborts_even_after_good_fields() {
    let parser = Parser::new();
    let text = String::from(
        "Domain Name: EXAMPLE.COM\nName Server: NS1.EXAMPLE.NET\nRegistry Expiry Date: soon\n",
    );
    let err = parser.parse(text).unwrap_err();
    match err {
        WhoisError::DateFormatError { field, value } => {
            assert_eq!(field, DateField::RegistryExpiryDate);
            assert_eq!(value, String::from("soon"));
        }
        other => panic!("expected a date format error, got {:?}", other),
    }
}

#[test]
fn a_line_starting_with_a_colon_is_ignored() {
    let parser = Parser::new();
    let text = String::from(": stray value\nDomain Name: EXAMPLE.COM\n");
    let info = parser.parse(text).unwrap();
    assert_eq!(info.domain_name.as_deref(), Some("EXAMPLE.COM"));
}

#[test]
fn empty_text_yields_an_empty_record() {
    let parser = Parser::new();
    let info = parser.parse(String::new()).unwrap();
    assert!(info.domain_name.is_none());
    assert!(info.nameservers.is_none());
    assert!(info.creation_date.is_none());
}
