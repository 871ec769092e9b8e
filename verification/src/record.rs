//! The typed WHOIS record: a fixed set of optional fields filled in by the
//! parser. Absence of a field means the server did not report it.

use vstd::prelude::*;

verus! {

/// An instant in time, normalized to UTC: seconds since the Unix epoch plus
/// the nanoseconds within that second. WHOIS textual dates are always
/// expressed in UTC.
#[derive(Clone, Copy, Debug, PartialEq, Eq, Structural)]
pub struct UtcInstant {
    pub secs: i64,
    pub nanos: u32,
}

/// Which of the three date-bearing WHOIS fields a date error belongs to.
#[derive(Clone, Copy, Debug, PartialEq, Eq, Structural)]
pub enum DateField {
    UpdatedDate,
    CreationDate,
    RegistryExpiryDate,
}

/// The mathematical model of a [`WhoisInformation`] record: each field as a
/// character sequence or instant, present or absent.
#[verifier::ext_equal]
pub struct RecordModel {
    pub domain_name: Option<Seq<char>>,
    pub registry_domain_id: Option<Seq<char>>,
    pub registrar_whois_server: Option<Seq<char>>,
    pub registrar_url: Option<Seq<char>>,
    pub updated_date: Option<UtcInstant>,
    pub creation_date: Option<UtcInstant>,
    pub registry_expiry_date: Option<UtcInstant>,
    pub registrar: Option<Seq<char>>,
    pub registrar_iana_id: Option<Seq<char>>,
    pub registrar_abuse_email_contact: Option<Seq<char>>,
    pub registrar_abuse_phone_contact: Option<Seq<char>>,
    pub domain_status: Option<Seq<char>>,
    pub nameservers: Option<Seq<Seq<char>>>,
    pub dnssec: Option<Seq<char>>,
}

impl RecordModel {
    /// The record before any line has been consumed: every field absent.
    pub open spec fn empty() -> RecordModel {
        RecordModel {
            domain_name: None,
            registry_domain_id: None,
            registrar_whois_server: None,
            registrar_url: None,
            updated_date: None,
            creation_date: None,
            registry_expiry_date: None,
            registrar: None,
            registrar_iana_id: None,
            registrar_abuse_email_contact: None,
            registrar_abuse_phone_contact: None,
            domain_status: None,
            nameservers: None,
            dnssec: None,
        }
    }
}

/// Structured WHOIS registration data for one domain. Every field is
/// optional: a missing field means "not reported by this server", not an
/// error. The name-server list keeps the order in which the lines appeared,
/// and is absent (not empty) when no such line appeared.
#[derive(Clone, Debug, PartialEq)]
pub struct WhoisInformation {
    pub domain_name: Option<String>,
    pub registry_domain_id: Option<String>,
    pub registrar_whois_server: Option<String>,
    pub registrar_url: Option<String>,
    pub updated_date: Option<UtcInstant>,
    pub creation_date: Option<UtcInstant>,
    pub registry_expiry_date: Option<UtcInstant>,
    pub registrar: Option<String>,
    pub registrar_iana_id: Option<String>,
    pub registrar_abuse_email_contact: Option<String>,
    pub registrar_abuse_phone_contact: Option<String>,
    pub domain_status: Option<String>,
    pub nameservers: Option<Vec<String>>,
    pub dnssec: Option<String>,
}

impl View for WhoisInformation {
    type V = RecordModel;

    open spec fn view(&self) -> RecordModel {
        RecordModel {
            domain_name: self.domain_name.deep_view(),
            registry_domain_id: self.registry_domain_id.deep_view(),
            registrar_whois_server: self.registrar_whois_server.deep_view(),
            registrar_url: self.registrar_url.deep_view(),
            updated_date: self.updated_date,
            creation_date: self.creation_date,
            registry_expiry_date: self.registry_expiry_date,
            registrar: self.registrar.deep_view(),
            registrar_iana_id: self.registrar_iana_id.deep_view(),
            registrar_abuse_email_contact: self.registrar_abuse_email_contact.deep_view(),
            registrar_abuse_phone_contact: self.registrar_abuse_phone_contact.deep_view(),
            domain_status: self.domain_status.deep_view(),
            nameservers: self.nameservers.deep_view(),
            dnssec: self.dnssec.deep_view(),
        }
    }
}

impl Default for WhoisInformation {
    /// A record with every field absent.
    fn default() -> (r: Self)
        ensures
            r@ == RecordModel::empty(),
    {
        let r = WhoisInformation {
            domain_name: None,
            registry_domain_id: None,
            registrar_whois_server: None,
            registrar_url: None,
            updated_date: None,
            creation_date: None,
            registry_expiry_date: None,
            registrar: None,
            registrar_iana_id: None,
            registrar_abuse_email_contact: None,
            registrar_abuse_phone_contact: None,
            domain_status: None,
            nameservers: None,
            dnssec: None,
        };
        proof {
            assert(r@ == RecordModel::empty());
        }
        r
    }
}

} // verus!
