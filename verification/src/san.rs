//! Extraction of Subject-Alternative-Name lists from raw comma-joined text.
//!
//! Each of the four categories (DNS names, URIs, IP addresses, email
//! addresses) is delivered as one raw string and split independently: an
//! empty raw string yields an empty list — never a list holding one empty
//! string — and otherwise the string is split on commas and each entry is
//! trimmed, keeping order and duplicates.

use vstd::prelude::*;

use crate::text::{is_space, split_comma, split_trim, trim, trimmed_segments,
    lemma_trim_no_edge_space};

verus! {

/// The entries extracted from one raw category string.
pub open spec fn san_list(raw: Seq<char>) -> Seq<Seq<char>> {
    if raw.len() == 0 {
        Seq::<Seq<char>>::empty()
    } else {
        trimmed_segments(raw)
    }
}

/// The mathematical value of the four extracted categories.
#[verifier::ext_equal]
pub ghost struct SanAttributesView {
    pub dns_names: Seq<Seq<char>>,
    pub ip_addresses: Seq<Seq<char>>,
    pub email_addresses: Seq<Seq<char>>,
    pub uri_sans: Seq<Seq<char>>,
}

/// The Subject-Alternative-Name lists of one certificate, one list per
/// category, each in input order with duplicates preserved.
pub struct SanAttributes {
    pub dns_names: Vec<String>,
    pub ip_addresses: Vec<String>,
    pub email_addresses: Vec<String>,
    pub uri_sans: Vec<String>,
}

impl View for SanAttributes {
    type V = SanAttributesView;

    open spec fn view(&self) -> SanAttributesView {
        SanAttributesView {
            dns_names: self.dns_names.deep_view(),
            ip_addresses: self.ip_addresses.deep_view(),
            email_addresses: self.email_addresses.deep_view(),
            uri_sans: self.uri_sans.deep_view(),
        }
    }
}

/// The four categories extracted from their raw strings.
pub open spec fn san_of(dns: Seq<char>, uri: Seq<char>, ip: Seq<char>, email: Seq<char>)
    -> SanAttributesView {
    SanAttributesView {
        dns_names: san_list(dns),
        ip_addresses: san_list(ip),
        email_addresses: san_list(email),
        uri_sans: san_list(uri),
    }
}

/// The entries of one raw category string: empty input gives no entries,
/// anything else splits on commas with each entry trimmed.
pub fn parse_san_list(raw: &str) -> (r: Vec<String>)
    ensures
        r.deep_view() == san_list(raw@),
{
    if raw.unicode_len() == 0 {
        let r: Vec<String> = Vec::new();
        proof {
            assert(r.deep_view() =~~= san_list(raw@));
        }
        r
    } else {
        split_trim(raw)
    }
}

/// Parses the four SAN categories from their raw strings, given in the
/// order the original properties are read: DNS, URI, IP, email.
pub fn parse_san_attributes(dns_raw: &str, uri_raw: &str, ip_raw: &str, email_raw: &str) -> (r:
    SanAttributes)
    ensures
        r@ == san_of(dns_raw@, uri_raw@, ip_raw@, email_raw@),
{
    let dns_names = parse_san_list(dns_raw);
    let uri_sans = parse_san_list(uri_raw);
    let ip_addresses = parse_san_list(ip_raw);
    let email_addresses = parse_san_list(email_raw);
    let r = SanAttributes { dns_names, ip_addresses, email_addresses, uri_sans };
    proof {
        assert(r@ =~~= san_of(dns_raw@, uri_raw@, ip_raw@, email_raw@));
    }
    r
}

/// An empty raw string yields an empty list for every category — never a
/// list holding one empty entry.
pub proof fn lemma_empty_raw_empty_list(raw: Seq<char>)
    ensures
        raw.len() == 0 ==> san_list(raw) == Seq::<Seq<char>>::empty(),
{
}

/// Splitting keeps the input order — entry `i` comes from piece `i` of the
/// raw string — and every entry is free of leading and trailing whitespace.
pub proof fn lemma_san_order_and_trim(raw: Seq<char>)
    requires
        raw.len() > 0,
    ensures
        san_list(raw).len() == split_comma(raw).len(),
        forall|i: int| 0 <= i < san_list(raw).len() ==> san_list(raw)[i] == trim(
            split_comma(raw)[i],
        ),
        forall|i: int|
            0 <= i < san_list(raw).len() && san_list(raw)[i].len() > 0 ==> !is_space(
                san_list(raw)[i].first(),
            ) && !is_space(san_list(raw)[i].last()),
{
    assert forall|i: int|
        0 <= i < san_list(raw).len() && san_list(raw)[i].len() > 0 implies !is_space(
        san_list(raw)[i].first(),
    ) && !is_space(san_list(raw)[i].last()) by {
        lemma_trim_no_edge_space(split_comma(raw)[i]);
    }
}

} // verus!
