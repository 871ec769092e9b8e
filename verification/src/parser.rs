//! The WHOIS parser: turns the raw text of a WHOIS response into a
//! [`WhoisInformation`] record.
//!
//! The text is split into lines; each line is split once on its first colon
//! into a key and a value. Keys are trimmed and lower-cased, values only
//! trimmed. Known keys fill the corresponding record field; repeated
//! single-valued keys overwrite (last line wins); `name server` lines
//! accumulate in order; unknown keys and lines without a colon are ignored.
//! A date-bearing line whose value is not a well-formed timestamp aborts the
//! whole parse.

use vstd::prelude::*;

use crate::dates::{parse_utc_instant, rfc3339_utc};
use crate::errors::WhoisError;
use crate::record::{DateField, RecordModel, UtcInstant, WhoisInformation};
use crate::text::{
    ascii_lower, char_index_from, find_char, matches_lower, split_lines, split_text_lines, trim,
    trim_range,
};

verus! {

/// The key/value split of one line: everything before the first colon
/// (trimmed) and everything after it (trimmed). A line without a colon has
/// no key/value pair.
pub open spec fn key_value_of(l: Seq<char>) -> Option<(Seq<char>, Seq<char>)> {
    let i = char_index_from(l, ':', 0);
    if 0 <= i && i < l.len() {
        Some((trim(l.take(i)), trim(l.skip(i + 1))))
    } else {
        None
    }
}

/// The normalized (lower-cased) key of a line, when it has one.
pub open spec fn line_key(l: Seq<char>) -> Option<Seq<char>> {
    match key_value_of(l) {
        Some(kv) => Some(ascii_lower(kv.0)),
        None => None,
    }
}

/// The trimmed value of a line; meaningful only when the line has a key.
pub open spec fn line_value(l: Seq<char>) -> Seq<char> {
    key_value_of(l)->Some_0.1
}

/// Whether the normalized key of `l` is `k`.
pub open spec fn has_key(l: Seq<char>, k: Seq<char>) -> bool {
    line_key(l) == Some(k)
}

/// The values of all lines with normalized key `k`, in file order.
pub open spec fn values_of(ls: Seq<Seq<char>>, k: Seq<char>) -> Seq<Seq<char>>
    decreases ls.len(),
{
    if ls.len() == 0 {
        Seq::empty()
    } else {
        let rest = values_of(ls.drop_last(), k);
        if has_key(ls.last(), k) {
            rest.push(line_value(ls.last()))
        } else {
            rest
        }
    }
}

/// The value of the last line with normalized key `k`, when any exists.
pub open spec fn last_value(ls: Seq<Seq<char>>, k: Seq<char>) -> Option<Seq<char>> {
    let vs = values_of(ls, k);
    if vs.len() == 0 {
        None
    } else {
        Some(vs.last())
    }
}

/// The key under which each date field is reported.
pub open spec fn date_field_key(f: DateField) -> Seq<char> {
    match f {
        DateField::UpdatedDate => "updated date"@,
        DateField::CreationDate => "creation date"@,
        DateField::RegistryExpiryDate => "registry expiry date"@,
    }
}

/// The date field that a normalized key selects, when it is date-bearing.
pub open spec fn date_key_of(k: Seq<char>) -> Option<DateField> {
    if k == "updated date"@ {
        Some(DateField::UpdatedDate)
    } else if k == "creation date"@ {
        Some(DateField::CreationDate)
    } else if k == "registry expiry date"@ {
        Some(DateField::RegistryExpiryDate)
    } else {
        None
    }
}

/// Whether `l` is a date-bearing line whose value is not a well-formed
/// timestamp; such a line aborts the parse.
pub open spec fn is_bad_date_line(l: Seq<char>) -> bool {
    match line_key(l) {
        Some(k) => date_key_of(k) is Some && rfc3339_utc(line_value(l)) is None,
        None => false,
    }
}

/// The index of the first line that aborts the parse, when any does.
pub open spec fn first_bad_date(ls: Seq<Seq<char>>) -> Option<int>
    decreases ls.len(),
{
    if ls.len() == 0 {
        None
    } else {
        match first_bad_date(ls.drop_last()) {
            Some(i) => Some(i),
            None => if is_bad_date_line(ls.last()) {
                Some(ls.len() - 1)
            } else {
                None
            },
        }
    }
}

/// The parsed instant of a date field: that of the last line reporting it.
pub open spec fn date_value(ls: Seq<Seq<char>>, f: DateField) -> Option<UtcInstant> {
    match last_value(ls, date_field_key(f)) {
        None => None,
        Some(v) => rfc3339_utc(v),
    }
}

/// The name-server list: one entry per `name server` line, in file order;
/// absent (not empty) when no such line appears.
pub open spec fn ns_list(ls: Seq<Seq<char>>) -> Option<Seq<Seq<char>>> {
    let vs = values_of(ls, "name server"@);
    if vs.len() == 0 {
        None
    } else {
        Some(vs)
    }
}

/// The record that a successful parse of the lines `ls` produces.
pub open spec fn record_of_lines(ls: Seq<Seq<char>>) -> RecordModel {
    RecordModel {
        domain_name: last_value(ls, "domain name"@),
        registry_domain_id: last_value(ls, "registry domain id"@),
        registrar_whois_server: last_value(ls, "registrar whois server"@),
        registrar_url: last_value(ls, "registrar url"@),
        updated_date: date_value(ls, DateField::UpdatedDate),
        creation_date: date_value(ls, DateField::CreationDate),
        registry_expiry_date: date_value(ls, DateField::RegistryExpiryDate),
        registrar: last_value(ls, "registrar"@),
        registrar_iana_id: last_value(ls, "registrar iana id"@),
        registrar_abuse_email_contact: last_value(ls, "registrar abuse contact email"@),
        registrar_abuse_phone_contact: last_value(ls, "registrar abuse contact phone"@),
        domain_status: last_value(ls, "domain status"@),
        nameservers: ns_list(ls),
        dnssec: last_value(ls, "dnssec"@),
    }
}

/// Whether parsing `t` succeeds: no date-bearing line carries a value that
/// is not a well-formed timestamp.
pub open spec fn parse_ok(t: Seq<char>) -> bool {
    first_bad_date(split_lines(t)) is None
}

/// The record that a successful parse of `t` produces.
pub open spec fn record_of(t: Seq<char>) -> RecordModel {
    record_of_lines(split_lines(t))
}

/// The date field named by the first aborting line of `t`.
pub open spec fn parse_err_field(t: Seq<char>) -> DateField {
    let l = split_lines(t)[first_bad_date(split_lines(t))->Some_0];
    date_key_of(line_key(l)->Some_0)->Some_0
}

/// The offending value of the first aborting line of `t`.
pub open spec fn parse_err_value(t: Seq<char>) -> Seq<char> {
    line_value(split_lines(t)[first_bad_date(split_lines(t))->Some_0])
}

/// Appending one line extends the values of every key by that line's value
/// exactly when the line carries the key.
proof fn lemma_values_step(ls: Seq<Seq<char>>, i: int)
    requires
        0 <= i < ls.len(),
    ensures
        forall|k: Seq<char>| #[trigger] values_of(ls.take(i + 1), k) == (if has_key(ls[i], k) {
            values_of(ls.take(i), k).push(line_value(ls[i]))
        } else {
            values_of(ls.take(i), k)
        }),
{
    assert(ls.take(i + 1).drop_last() =~= ls.take(i));
    assert(ls.take(i + 1).last() == ls[i]);
}

/// Appending one line to a clean prefix aborts exactly when that line is a
/// bad date line.
proof fn lemma_first_bad_step(ls: Seq<Seq<char>>, i: int)
    requires
        0 <= i < ls.len(),
        first_bad_date(ls.take(i)) is None,
    ensures
        first_bad_date(ls.take(i + 1)) == (if is_bad_date_line(ls[i]) {
            Some(i)
        } else {
            None::<int>
        }),
{
    assert(ls.take(i + 1).drop_last() =~= ls.take(i));
    assert(ls.take(i + 1).last() == ls[i]);
}

/// Once a prefix has an aborting line, the whole sequence aborts at the same
/// line.
proof fn lemma_first_bad_extend(ls: Seq<Seq<char>>, j: int)
    requires
        0 <= j <= ls.len(),
        first_bad_date(ls.take(j)) is Some,
    ensures
        first_bad_date(ls) == first_bad_date(ls.take(j)),
    decreases ls.len() - j,
{
    if j == ls.len() {
        assert(ls.take(j) =~= ls);
    } else {
        assert(ls.take(j + 1).drop_last() =~= ls.take(j));
        lemma_first_bad_extend(ls, j + 1);
    }
}

/// The number of lines of `ls` whose normalized key is `k`.
pub open spec fn count_key(ls: Seq<Seq<char>>, k: Seq<char>) -> int
    decreases ls.len(),
{
    if ls.len() == 0 {
        0
    } else {
        count_key(ls.drop_last(), k) + if has_key(ls.last(), k) {
            1int
        } else {
            0int
        }
    }
}

/// There are as many collected values for `k` as lines carrying `k`.
proof fn lemma_values_count(ls: Seq<Seq<char>>, k: Seq<char>)
    ensures
        values_of(ls, k).len() == count_key(ls, k),
    decreases ls.len(),
{
    if ls.len() > 0 {
        lemma_values_count(ls.drop_last(), k);
    }
}

/// The value of the last line carrying `k` is the last collected value.
proof fn lemma_values_last(ls: Seq<Seq<char>>, k: Seq<char>, i: int)
    requires
        0 <= i < ls.len(),
        has_key(ls[i], k),
        forall|j: int| i < j < ls.len() ==> !has_key(#[trigger] ls[j], k),
    ensures
        values_of(ls, k).len() > 0,
        values_of(ls, k).last() == line_value(ls[i]),
    decreases ls.len(),
{
    if i == ls.len() - 1 {
        lemma_values_count(ls.drop_last(), k);
        lemma_count_key_bounds(ls.drop_last(), k);
    } else {
        let prev = ls.drop_last();
        assert(forall|j: int| i < j < prev.len() ==> !has_key(#[trigger] prev[j], k));
        lemma_values_last(prev, k, i);
    }
}

/// A count of lines is never negative.
proof fn lemma_count_key_bounds(ls: Seq<Seq<char>>, k: Seq<char>)
    ensures
        0 <= count_key(ls, k),
    decreases ls.len(),
{
    if ls.len() > 0 {
        lemma_count_key_bounds(ls.drop_last(), k);
    }
}

/// The value of the line at `i` carrying `k` stands among the collected
/// values at the position given by the number of carrying lines before `i`.
proof fn lemma_values_entry(ls: Seq<Seq<char>>, k: Seq<char>, i: int)
    requires
        0 <= i < ls.len(),
        has_key(ls[i], k),
    ensures
        0 <= count_key(ls.take(i), k) < values_of(ls, k).len(),
        values_of(ls, k)[count_key(ls.take(i), k)] == line_value(ls[i]),
    decreases ls.len(),
{
    lemma_count_key_bounds(ls.take(i), k);
    if i == ls.len() - 1 {
        assert(ls.take(i) =~= ls.drop_last());
        lemma_values_count(ls.drop_last(), k);
    } else {
        let prev = ls.drop_last();
        assert(prev.take(i) =~= ls.take(i));
        lemma_values_entry(prev, k, i);
    }
}

/// For any successfully parsed text, the domain-name field is exactly the
/// trimmed value of the last line keyed `domain name` — the key compared
/// without regard to letter case, the value's letter case preserved.
pub proof fn lemma_domain_name_line(t: Seq<char>, i: int)
    requires
        parse_ok(t),
        0 <= i < split_lines(t).len(),
        has_key(split_lines(t)[i], "domain name"@),
        forall|j: int|
            i < j < split_lines(t).len() ==> !has_key(#[trigger] split_lines(t)[j], "domain name"@),
    ensures
        record_of(t).domain_name == Some(line_value(split_lines(t)[i])),
{
    lemma_values_last(split_lines(t), "domain name"@, i);
}

/// For any text, the parsed name-server list has exactly one entry per
/// `name server` line, in file order: the list is absent exactly when no
/// line carries the key, its length is the number of such lines, and the
/// entry for the carrying line at `i` stands at the position given by the
/// number of carrying lines before `i`.
pub proof fn lemma_name_server_lines(t: Seq<char>)
    ensures
        record_of(t).nameservers is None <==> count_key(split_lines(t), "name server"@) == 0,
        record_of(t).nameservers matches Some(vs) ==> vs.len() == count_key(
            split_lines(t),
            "name server"@,
        ),
        forall|i: int|
            0 <= i < split_lines(t).len() && has_key(#[trigger] split_lines(t)[i], "name server"@)
                ==> record_of(t).nameservers->Some_0[count_key(split_lines(t).take(i), "name server"@)]
                == line_value(split_lines(t)[i]),
{
    let ls = split_lines(t);
    let k = "name server"@;
    lemma_values_count(ls, k);
    assert forall|i: int| 0 <= i < ls.len() && has_key(#[trigger] ls[i], k) implies record_of(
        t,
    ).nameservers->Some_0[count_key(ls.take(i), k)] == line_value(ls[i]) by {
        lemma_values_entry(ls, k, i);
    }
}

/// Splits one line on its first colon into a trimmed key and a trimmed
/// value; a line without a colon yields nothing.
pub fn split_key_value(line: &str) -> (r: Option<(String, String)>)
    ensures
        r is Some <==> key_value_of(line@) is Some,
        r matches Some(p) ==> key_value_of(line@) matches Some(kv) && p.0@ == kv.0 && p.1@
            == kv.1,
{
    let n = line.unicode_len();
    let i = find_char(line, ':', 0);
    if i == n {
        None
    } else {
        proof {
            assert(line@.subrange(0, i as int) =~= line@.take(i as int));
            assert(line@.subrange(i as int + 1, n as int) =~= line@.skip(i as int + 1));
        }
        let key = trim_range(line, 0, i);
        let value = trim_range(line, i + 1, n);
        Some((key, value))
    }
}

/// The WHOIS text parser. It holds no state: parsing is a pure function of
/// the text.
pub struct Parser;

impl Parser {
    /// Creates a parser.
    pub fn new() -> Parser {
        Parser
    }

    /// Parses raw WHOIS text into a record.
    ///
    /// The parse succeeds unless a date-bearing line carries a value that is
    /// not a well-formed timestamp; then it fails with `DateFormatError`
    /// naming the field and the offending value of the first such line. On
    /// success every field of the record is exactly what [`record_of`]
    /// prescribes, so parsing the same text twice yields identical records.
    #[verifier::rlimit(100)]
    pub fn parse(&self, content: String) -> (r: Result<WhoisInformation, WhoisError>)
        ensures
            r is Ok <==> parse_ok(content@),
            r matches Ok(rec) ==> rec@ == record_of(content@),
            r matches Err(e) ==> e matches WhoisError::DateFormatError { field, value }
                && field == parse_err_field(content@) && value@ == parse_err_value(content@),
    {
        let lines = split_text_lines(content.as_str());
        let ghost ls = split_lines(content@);
        let mut rec = WhoisInformation::default();
        let mut i: usize = 0;
        proof {
            assert(ls.take(0) =~= Seq::<Seq<char>>::empty());
            assert(rec@ =~= record_of_lines(ls.take(0)));
        }
        while i < lines.len()
            invariant
                i <= lines@.len(),
                lines.deep_view() == ls,
                ls == split_lines(content@),
                first_bad_date(ls.take(i as int)) is None,
                rec@ == record_of_lines(ls.take(i as int)),
            decreases lines@.len() - i,
        {
            proof {
                reveal_strlit("domain name");
                reveal_strlit("registry domain id");
                reveal_strlit("registrar whois server");
                reveal_strlit("registrar url");
                reveal_strlit("updated date");
                reveal_strlit("creation date");
                reveal_strlit("registry expiry date");
                reveal_strlit("registrar");
                reveal_strlit("registrar iana id");
                reveal_strlit("registrar abuse contact email");
                reveal_strlit("registrar abuse contact phone");
                reveal_strlit("domain status");
                reveal_strlit("name server");
                reveal_strlit("dnssec");
                // The known keys are pairwise distinct: their lengths differ,
                // or a character does.
                assert("domain name"@.len() == 11);
                assert("registry domain id"@.len() == 18);
                assert("registrar whois server"@.len() == 22);
                assert("registrar url"@.len() == 13);
                assert("updated date"@.len() == 12);
                assert("creation date"@.len() == 13);
                assert("registry expiry date"@.len() == 20);
                assert("registrar"@.len() == 9);
                assert("registrar iana id"@.len() == 17);
                assert("registrar abuse contact email"@.len() == 29);
                assert("registrar abuse contact phone"@.len() == 29);
                assert("domain status"@.len() == 13);
                assert("name server"@.len() == 11);
                assert("dnssec"@.len() == 6);
                assert("registrar url"@[0] != "creation date"@[0]);
                assert("registrar url"@[0] != "domain status"@[0]);
                assert("creation date"@[0] != "domain status"@[0]);
                assert("domain name"@[0] != "name server"@[0]);
                assert("registrar abuse contact email"@[24] != "registrar abuse contact phone"@[24]);
                lemma_values_step(ls, i as int);
                lemma_first_bad_step(ls, i as int);
                assert(lines.deep_view()[i as int] == lines@[i as int]@);
            }
            let kv_opt = split_key_value(lines[i].as_str());
            match kv_opt {
                None => {
                    proof {
                        assert(rec@ =~= record_of_lines(ls.take(i as int + 1)));
                    }
                },
                Some((key, value)) => {
                    if matches_lower(key.as_str(), "domain name") {
                        rec.domain_name = Some(value);
                        proof {
                            assert(rec@ =~= record_of_lines(ls.take(i as int + 1)));
                        }
                    } else if matches_lower(key.as_str(), "registry domain id") {
                        rec.registry_domain_id = Some(value);
                        proof {
                            assert(rec@ =~= record_of_lines(ls.take(i as int + 1)));
                        }
                    } else if matches_lower(key.as_str(), "registrar whois server") {
                        rec.registrar_whois_server = Some(value);
                        proof {
                            assert(rec@ =~= record_of_lines(ls.take(i as int + 1)));
                        }
                    } else if matches_lower(key.as_str(), "registrar url") {
                        rec.registrar_url = Some(value);
                        proof {
                            assert(rec@ =~= record_of_lines(ls.take(i as int + 1)));
                        }
                    } else if matches_lower(key.as_str(), "updated date") {
                        match parse_utc_instant(value.as_str()) {
                            Some(d) => {
                                rec.updated_date = Some(d);
                                proof {
                                    assert(rec@ =~= record_of_lines(ls.take(i as int + 1)));
                                }
                            },
                            None => {
                                proof {
                                    lemma_first_bad_extend(ls, i as int + 1);
                                }
                                return Result::Err(
                                    WhoisError::DateFormatError {
                                        field: DateField::UpdatedDate,
                                        value,
                                    },
                                );
                            },
                        }
                    } else if matches_lower(key.as_str(), "creation date") {
                        match parse_utc_instant(value.as_str()) {
                            Some(d) => {
                                rec.creation_date = Some(d);
                                proof {
                                    assert(rec@ =~= record_of_lines(ls.take(i as int + 1)));
                                }
                            },
                            None => {
                                proof {
                                    lemma_first_bad_extend(ls, i as int + 1);
                                }
                                return Result::Err(
                                    WhoisError::DateFormatError {
                                        field: DateField::CreationDate,
                                        value,
                                    },
                                );
                            },
                        }
                    } else if matches_lower(key.as_str(), "registry expiry date") {
                        match parse_utc_instant(value.as_str()) {
                            Some(d) => {
                                rec.registry_expiry_date = Some(d);
                                proof {
                                    assert(rec@ =~= record_of_lines(ls.take(i as int + 1)));
                                }
                            },
                            None => {
                                proof {
                                    lemma_first_bad_extend(ls, i as int + 1);
                                }
                                return Result::Err(
                                    WhoisError::DateFormatError {
                                        field: DateField::RegistryExpiryDate,
                                        value,
                                    },
                                );
                            },
                        }
                    } else if matches_lower(key.as_str(), "registrar") {
                        rec.registrar = Some(value);
                        proof {
                            assert(rec@ =~= record_of_lines(ls.take(i as int + 1)));
                        }
                    } else if matches_lower(key.as_str(), "registrar iana id") {
                        rec.registrar_iana_id = Some(value);
                        proof {
                            assert(rec@ =~= record_of_lines(ls.take(i as int + 1)));
                        }
                    } else if matches_lower(key.as_str(), "registrar abuse contact email") {
                        rec.registrar_abuse_email_contact = Some(value);
                        proof {
                            assert(rec@ =~= record_of_lines(ls.take(i as int + 1)));
                        }
                    } else if matches_lower(key.as_str(), "registrar abuse contact phone") {
                        rec.registrar_abuse_phone_contact = Some(value);
                        proof {
                            assert(rec@ =~= record_of_lines(ls.take(i as int + 1)));
                        }
                    } else if matches_lower(key.as_str(), "domain status") {
                        rec.domain_status = Some(value);
                        proof {
                            assert(rec@ =~= record_of_lines(ls.take(i as int + 1)));
                        }
                    } else if matches_lower(key.as_str(), "name server") {
                        let ghost before = values_of(ls.take(i as int), "name server"@);
                        match rec.nameservers.take() {
                            Some(mut list) => {
                                list.push(value);
                                rec.nameservers = Some(list);
                                proof {
                                    assert(list.deep_view() =~= before.push(
                                        line_value(ls[i as int]),
                                    ));
                                    assert(rec@ =~= record_of_lines(ls.take(i as int + 1)));
                                }
                            },
                            None => {
                                let mut list: Vec<String> = Vec::new();
                                list.push(value);
                                rec.nameservers = Some(list);
                                proof {
                                    assert(before =~= Seq::<Seq<char>>::empty());
                                    assert(list.deep_view() =~= before.push(
                                        line_value(ls[i as int]),
                                    ));
                                    assert(rec@ =~= record_of_lines(ls.take(i as int + 1)));
                                }
                            },
                        }
                    } else if matches_lower(key.as_str(), "dnssec") {
                        rec.dnssec = Some(value);
                        proof {
                            assert(rec@ =~= record_of_lines(ls.take(i as int + 1)));
                        }
                    } else {
                        proof {
                            assert(rec@ =~= record_of_lines(ls.take(i as int + 1)));
                        }
                    }
                },
            }
            i += 1;
        }
        proof {
            assert(ls.take(lines@.len() as int) =~= ls);
        }
        Result::Ok(rec)
    }
}

} // verus!
