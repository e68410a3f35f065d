//! Projection of the parsed certificate attributes onto request headers.
//!
//! The projector is a pure function from the five raw property strings to the
//! ordered sequence of header name/value pairs the filter emits.  A host
//! integration fetches the raw strings, calls [`request_filter`] and writes
//! each returned pair through its header sink; the filter itself never blocks
//! or rejects a request.

use vstd::prelude::*;

use crate::san::{parse_san_attributes, san_of, SanAttributes, SanAttributesView};
use crate::subject::{parse_subject, subject_of, Subject, SubjectView};
use crate::text::{join, join_strings};

verus! {

/// The mathematical value of one emitted header.
#[verifier::ext_equal]
pub ghost struct HeaderView {
    pub name: Seq<char>,
    pub value: Seq<char>,
}

/// One header to attach to the outgoing request.  Names are fixed literals,
/// never derived from input.
pub struct Header {
    pub name: String,
    pub value: String,
}

impl View for Header {
    type V = HeaderView;

    open spec fn view(&self) -> HeaderView {
        HeaderView { name: self.name@, value: self.value@ }
    }
}

impl DeepView for Header {
    type V = HeaderView;

    open spec fn deep_view(&self) -> HeaderView {
        self.view()
    }
}

pub open spec fn header(name: Seq<char>, value: Seq<char>) -> HeaderView {
    HeaderView { name, value }
}

/// A present attribute becomes one header; an absent one becomes nothing.
pub open spec fn opt_header(name: Seq<char>, value: Option<Seq<char>>) -> Seq<HeaderView> {
    match value {
        Some(v) => seq![header(name, v)],
        None => Seq::<HeaderView>::empty(),
    }
}

/// A non-empty list becomes one comma-joined header; an empty one nothing.
pub open spec fn list_header(name: Seq<char>, items: Seq<Seq<char>>) -> Seq<HeaderView> {
    if items.len() == 0 {
        Seq::<HeaderView>::empty()
    } else {
        seq![header(name, join(items, ","@))]
    }
}

/// A non-empty list also announces its first entry under a "primary" name.
pub open spec fn primary_header(name: Seq<char>, items: Seq<Seq<char>>) -> Seq<HeaderView> {
    if items.len() == 0 {
        Seq::<HeaderView>::empty()
    } else {
        seq![header(name, items[0])]
    }
}

/// The headers owed to the parsed subject: one per present attribute, then
/// the validation messages joined with `"; "` when there are any.
pub open spec fn subject_headers(sub: SubjectView) -> Seq<HeaderView> {
    opt_header("X-Peer-Name"@, sub.name) + opt_header("X-Peer-Email"@, sub.email) + opt_header(
        "X-Peer-Organization"@,
        sub.organization,
    ) + opt_header("X-Peer-OrganizationUnit"@, sub.organization_unit) + opt_header(
        "X-Peer-Country"@,
        sub.country,
    ) + opt_header("X-Peer-Locality"@, sub.locality) + opt_header("X-Peer-State"@, sub.state) + (
    if sub.errors.len() > 0 {
        seq![header("X-Peer-Certificate-Errors"@, join(sub.errors, "; "@))]
    } else {
        Seq::<HeaderView>::empty()
    })
}

/// The headers owed to the SAN lists: a joined header per non-empty
/// category, and for DNS and IP also the first entry under a "primary"
/// name.  Email and URI get no primary shortcut.
pub open spec fn san_headers(san: SanAttributesView) -> Seq<HeaderView> {
    list_header("X-Peer-SAN-DNS"@, san.dns_names) + primary_header(
        "X-Peer-Primary-DNS"@,
        san.dns_names,
    ) + list_header("X-Peer-SAN-IP"@, san.ip_addresses) + primary_header(
        "X-Peer-Primary-IP"@,
        san.ip_addresses,
    ) + list_header("X-Peer-SAN-Email"@, san.email_addresses) + list_header(
        "X-Peer-SAN-URI"@,
        san.uri_sans,
    )
}

/// Every header the filter emits for the given raw property strings, in
/// emission order.  An empty subject string short-circuits: the certificate
/// is reported absent and nothing else is emitted.
pub open spec fn headers_of(
    subject: Seq<char>,
    dns: Seq<char>,
    uri: Seq<char>,
    ip: Seq<char>,
    email: Seq<char>,
) -> Seq<HeaderView> {
    if subject.len() == 0 {
        seq![header("X-Peer-Certificate-Present"@, "false"@)]
    } else {
        seq![header("X-Peer-Certificate-Present"@, "true"@)] + subject_headers(
            subject_of(subject),
        ) + san_headers(san_of(dns, uri, ip, email))
    }
}

/// Appends one header.
fn push_header(out: &mut Vec<Header>, name: &str, value: String)
    ensures
        final(out).deep_view() == old(out).deep_view() + seq![header(name@, value@)],
{
    let ghost before = out.deep_view();
    let h = Header { name: name.to_owned(), value };
    out.push(h);
    proof {
        assert(out.deep_view() =~~= before + seq![header(name@, h.value@)]);
    }
}

/// Appends one header when the attribute is present, nothing when it is
/// absent.
fn push_opt_header(out: &mut Vec<Header>, name: &str, value: &Option<String>)
    ensures
        final(out).deep_view() == old(out).deep_view() + opt_header(name@, value.deep_view()),
{
    match value {
        Some(v) => {
            push_header(out, name, v.clone());
        },
        None => {
            proof {
                assert(out.deep_view() =~~= old(out).deep_view() + opt_header(
                    name@,
                    value.deep_view(),
                ));
            }
        },
    }
}

/// Appends the headers owed to the parsed subject.
fn push_subject_headers(out: &mut Vec<Header>, subject: &Subject)
    ensures
        final(out).deep_view() == old(out).deep_view() + subject_headers(subject@),
{
    let ghost base = out.deep_view();
    push_opt_header(out, "X-Peer-Name", &subject.name);
    let ghost acc1 = opt_header("X-Peer-Name"@, subject.name.deep_view());
    proof {
        assert(out.deep_view() =~~= base + acc1);
    }
    push_opt_header(out, "X-Peer-Email", &subject.email);
    let ghost acc2 = acc1 + opt_header("X-Peer-Email"@, subject.email.deep_view());
    proof {
        assert(out.deep_view() =~~= base + acc2);
    }
    push_opt_header(out, "X-Peer-Organization", &subject.organization);
    let ghost acc3 = acc2 + opt_header("X-Peer-Organization"@, subject.organization.deep_view());
    proof {
        assert(out.deep_view() =~~= base + acc3);
    }
    push_opt_header(out, "X-Peer-OrganizationUnit", &subject.organization_unit);
    let ghost acc4 = acc3 + opt_header(
        "X-Peer-OrganizationUnit"@,
        subject.organization_unit.deep_view(),
    );
    proof {
        assert(out.deep_view() =~~= base + acc4);
    }
    push_opt_header(out, "X-Peer-Country", &subject.country);
    let ghost acc5 = acc4 + opt_header("X-Peer-Country"@, subject.country.deep_view());
    proof {
        assert(out.deep_view() =~~= base + acc5);
    }
    push_opt_header(out, "X-Peer-Locality", &subject.locality);
    let ghost acc6 = acc5 + opt_header("X-Peer-Locality"@, subject.locality.deep_view());
    proof {
        assert(out.deep_view() =~~= base + acc6);
    }
    push_opt_header(out, "X-Peer-State", &subject.state);
    let ghost acc7 = acc6 + opt_header("X-Peer-State"@, subject.state.deep_view());
    proof {
        assert(out.deep_view() =~~= base + acc7);
    }
    if subject.errors.len() > 0 {
        let joined = join_strings(&subject.errors, "; ");
        push_header(out, "X-Peer-Certificate-Errors", joined);
    }
    proof {
        assert(out.deep_view() =~~= base + subject_headers(subject@));
    }
}

/// Appends the headers owed to the SAN lists.
fn push_san_headers(out: &mut Vec<Header>, san: &SanAttributes)
    ensures
        final(out).deep_view() == old(out).deep_view() + san_headers(san@),
{
    let ghost base = out.deep_view();
    if san.dns_names.len() > 0 {
        let joined = join_strings(&san.dns_names, ",");
        push_header(out, "X-Peer-SAN-DNS", joined);
        let primary = san.dns_names[0].clone();
        push_header(out, "X-Peer-Primary-DNS", primary);
    }
    let ghost acc1 = list_header("X-Peer-SAN-DNS"@, san.dns_names.deep_view()) + primary_header(
        "X-Peer-Primary-DNS"@,
        san.dns_names.deep_view(),
    );
    proof {
        assert(out.deep_view() =~~= base + acc1);
    }
    if san.ip_addresses.len() > 0 {
        let joined = join_strings(&san.ip_addresses, ",");
        push_header(out, "X-Peer-SAN-IP", joined);
        let primary = san.ip_addresses[0].clone();
        push_header(out, "X-Peer-Primary-IP", primary);
    }
    let ghost acc2 = acc1 + list_header("X-Peer-SAN-IP"@, san.ip_addresses.deep_view())
        + primary_header("X-Peer-Primary-IP"@, san.ip_addresses.deep_view());
    proof {
        assert(out.deep_view() =~~= base + acc2);
    }
    if san.email_addresses.len() > 0 {
        let joined = join_strings(&san.email_addresses, ",");
        push_header(out, "X-Peer-SAN-Email", joined);
    }
    let ghost acc3 = acc2 + list_header("X-Peer-SAN-Email"@, san.email_addresses.deep_view());
    proof {
        assert(out.deep_view() =~~= base + acc3);
    }
    if san.uri_sans.len() > 0 {
        let joined = join_strings(&san.uri_sans, ",");
        push_header(out, "X-Peer-SAN-URI", joined);
    }
    proof {
        assert(out.deep_view() =~~= base + san_headers(san@));
    }
}

/// Reads the subject and SAN raw strings as the host delivered them and
/// returns every header to attach, in order.  This filter only annotates:
/// the caller continues the request whatever the outcome, and an empty
/// subject string yields the single "not present" marker.
pub fn request_filter(
    subject_raw: &str,
    dns_raw: &str,
    uri_raw: &str,
    ip_raw: &str,
    email_raw: &str,
) -> (r: Vec<Header>)
    ensures
        r.deep_view() == headers_of(subject_raw@, dns_raw@, uri_raw@, ip_raw@, email_raw@),
{
    let mut out: Vec<Header> = Vec::new();
    proof {
        assert(out.deep_view() =~~= Seq::<HeaderView>::empty());
    }
    if subject_raw.unicode_len() == 0 {
        push_header(&mut out, "X-Peer-Certificate-Present", "false".to_owned());
        proof {
            assert(out.deep_view() =~~= headers_of(
                subject_raw@,
                dns_raw@,
                uri_raw@,
                ip_raw@,
                email_raw@,
            ));
        }
        return out;
    }
    push_header(&mut out, "X-Peer-Certificate-Present", "true".to_owned());
    let ghost present = seq![header("X-Peer-Certificate-Present"@, "true"@)];

    let subject = parse_subject(subject_raw);
    push_subject_headers(&mut out, &subject);
    proof {
        assert(out.deep_view() =~~= present + subject_headers(subject_of(subject_raw@)));
    }
    let ghost upto_subject = out.deep_view();

    let san = parse_san_attributes(dns_raw, uri_raw, ip_raw, email_raw);
    push_san_headers(&mut out, &san);
    proof {
        assert(out.deep_view() =~~= upto_subject + san_headers(
            san_of(dns_raw@, uri_raw@, ip_raw@, email_raw@),
        ));
        assert(out.deep_view() =~~= headers_of(
            subject_raw@,
            dns_raw@,
            uri_raw@,
            ip_raw@,
            email_raw@,
        ));
    }
    out
}

/// The fixed header names the filter may emit.
pub open spec fn is_emitted_name(n: Seq<char>) -> bool {
    n == "X-Peer-Certificate-Present"@ || n == "X-Peer-Name"@ || n == "X-Peer-Email"@ || n
        == "X-Peer-Organization"@ || n == "X-Peer-OrganizationUnit"@ || n == "X-Peer-Country"@
        || n == "X-Peer-Locality"@ || n == "X-Peer-State"@ || n == "X-Peer-Certificate-Errors"@
        || n == "X-Peer-SAN-DNS"@ || n == "X-Peer-Primary-DNS"@ || n == "X-Peer-SAN-IP"@ || n
        == "X-Peer-Primary-IP"@ || n == "X-Peer-SAN-Email"@ || n == "X-Peer-SAN-URI"@
}

/// Every emitted header name is one of the fixed literals: no name is ever
/// derived from the input.
pub proof fn lemma_names_fixed(
    subject: Seq<char>,
    dns: Seq<char>,
    uri: Seq<char>,
    ip: Seq<char>,
    email: Seq<char>,
)
    ensures
        forall|i: int|
            0 <= i < headers_of(subject, dns, uri, ip, email).len() ==> is_emitted_name(
                headers_of(subject, dns, uri, ip, email)[i].name,
            ),
{
    let hs = headers_of(subject, dns, uri, ip, email);
    if subject.len() != 0 {
        let sub = subject_headers(subject_of(subject));
        let san = san_headers(san_of(dns, uri, ip, email));
        assert forall|i: int| 0 <= i < sub.len() implies is_emitted_name(sub[i].name) by {}
        assert forall|i: int| 0 <= i < san.len() implies is_emitted_name(san[i].name) by {}
    }
}

/// Concatenation keeps names pairwise distinct when both halves are
/// pairwise distinct and no name crosses from one half to the other.
proof fn lemma_concat_names_unique(a: Seq<HeaderView>, b: Seq<HeaderView>)
    requires
        forall|i: int, j: int| 0 <= i < j < a.len() ==> a[i].name != a[j].name,
        forall|i: int, j: int| 0 <= i < j < b.len() ==> b[i].name != b[j].name,
        forall|i: int, j: int|
            0 <= i < a.len() && 0 <= j < b.len() ==> a[i].name != b[j].name,
    ensures
        forall|i: int, j: int| 0 <= i < j < (a + b).len() ==> (a + b)[i].name != (a
            + b)[j].name,
{
    assert forall|i: int, j: int| 0 <= i < j < (a + b).len() implies (a + b)[i].name != (a
        + b)[j].name by {
        if i < a.len() {
            assert((a + b)[i] == a[i]);
        } else {
            assert((a + b)[i] == b[i - a.len()]);
        }
        if j < a.len() {
            assert((a + b)[j] == a[j]);
        } else {
            assert((a + b)[j] == b[j - a.len()]);
        }
    }
}

/// The names the subject part may use.
spec fn is_subject_header_name(n: Seq<char>) -> bool {
    n == "X-Peer-Name"@ || n == "X-Peer-Email"@ || n == "X-Peer-Organization"@ || n
        == "X-Peer-OrganizationUnit"@ || n == "X-Peer-Country"@ || n == "X-Peer-Locality"@ || n
        == "X-Peer-State"@ || n == "X-Peer-Certificate-Errors"@
}

/// The names the SAN part may use.
spec fn is_san_header_name(n: Seq<char>) -> bool {
    n == "X-Peer-SAN-DNS"@ || n == "X-Peer-Primary-DNS"@ || n == "X-Peer-SAN-IP"@ || n
        == "X-Peer-Primary-IP"@ || n == "X-Peer-SAN-Email"@ || n == "X-Peer-SAN-URI"@
}

/// The subject part: every name is one of its eight fixed literals and no
/// name repeats.
#[verifier::rlimit(100)]
proof fn lemma_subject_names(sub: SubjectView)
    ensures
        forall|i: int|
            0 <= i < subject_headers(sub).len() ==> is_subject_header_name(
                subject_headers(sub)[i].name,
            ),
        forall|i: int, j: int|
            0 <= i < j < subject_headers(sub).len() ==> subject_headers(sub)[i].name
                != subject_headers(sub)[j].name,
{
    reveal_strlit("X-Peer-Name");
    reveal_strlit("X-Peer-Email");
    reveal_strlit("X-Peer-Organization");
    reveal_strlit("X-Peer-OrganizationUnit");
    reveal_strlit("X-Peer-Country");
    reveal_strlit("X-Peer-Locality");
    reveal_strlit("X-Peer-State");
    reveal_strlit("X-Peer-Certificate-Errors");
    assert("X-Peer-Name"@.len() == 11);
    assert("X-Peer-Email"@.len() == 12);
    assert("X-Peer-Organization"@.len() == 19);
    assert("X-Peer-OrganizationUnit"@.len() == 23);
    assert("X-Peer-Country"@.len() == 14);
    assert("X-Peer-Locality"@.len() == 15);
    assert("X-Peer-State"@.len() == 12);
    assert("X-Peer-Certificate-Errors"@.len() == 25);
    assert("X-Peer-Email"@[7] == 'E' && "X-Peer-State"@[7] == 'S');
    let p1 = opt_header("X-Peer-Name"@, sub.name);
    let p2 = opt_header("X-Peer-Email"@, sub.email);
    let p3 = opt_header("X-Peer-Organization"@, sub.organization);
    let p4 = opt_header("X-Peer-OrganizationUnit"@, sub.organization_unit);
    let p5 = opt_header("X-Peer-Country"@, sub.country);
    let p6 = opt_header("X-Peer-Locality"@, sub.locality);
    let p7 = opt_header("X-Peer-State"@, sub.state);
    let p8: Seq<HeaderView> = if sub.errors.len() > 0 {
        seq![header("X-Peer-Certificate-Errors"@, join(sub.errors, "; "@))]
    } else {
        Seq::<HeaderView>::empty()
    };
    lemma_concat_names_unique(p1, p2);
    lemma_concat_names_unique(p1 + p2, p3);
    lemma_concat_names_unique(p1 + p2 + p3, p4);
    lemma_concat_names_unique(p1 + p2 + p3 + p4, p5);
    lemma_concat_names_unique(p1 + p2 + p3 + p4 + p5, p6);
    lemma_concat_names_unique(p1 + p2 + p3 + p4 + p5 + p6, p7);
    lemma_concat_names_unique(p1 + p2 + p3 + p4 + p5 + p6 + p7, p8);
}

/// The SAN part: every name is one of its six fixed literals and no name
/// repeats.
proof fn lemma_san_names(san: SanAttributesView)
    ensures
        forall|i: int|
            0 <= i < san_headers(san).len() ==> is_san_header_name(san_headers(san)[i].name),
        forall|i: int, j: int|
            0 <= i < j < san_headers(san).len() ==> san_headers(san)[i].name != san_headers(
                san,
            )[j].name,
{
    reveal_strlit("X-Peer-SAN-DNS");
    reveal_strlit("X-Peer-Primary-DNS");
    reveal_strlit("X-Peer-SAN-IP");
    reveal_strlit("X-Peer-Primary-IP");
    reveal_strlit("X-Peer-SAN-Email");
    reveal_strlit("X-Peer-SAN-URI");
    let p1 = list_header("X-Peer-SAN-DNS"@, san.dns_names);
    let p2 = primary_header("X-Peer-Primary-DNS"@, san.dns_names);
    let p3 = list_header("X-Peer-SAN-IP"@, san.ip_addresses);
    let p4 = primary_header("X-Peer-Primary-IP"@, san.ip_addresses);
    let p5 = list_header("X-Peer-SAN-Email"@, san.email_addresses);
    let p6 = list_header("X-Peer-SAN-URI"@, san.uri_sans);
    assert("X-Peer-SAN-DNS"@.len() == 14);
    assert("X-Peer-Primary-DNS"@.len() == 18);
    assert("X-Peer-SAN-IP"@.len() == 13);
    assert("X-Peer-Primary-IP"@.len() == 17);
    assert("X-Peer-SAN-Email"@.len() == 16);
    assert("X-Peer-SAN-URI"@.len() == 14);
    assert("X-Peer-SAN-DNS"@[11] == 'D' && "X-Peer-SAN-URI"@[11] == 'U');
    lemma_concat_names_unique(p1, p2);
    lemma_concat_names_unique(p1 + p2, p3);
    lemma_concat_names_unique(p1 + p2 + p3, p4);
    lemma_concat_names_unique(p1 + p2 + p3 + p4, p5);
    lemma_concat_names_unique(p1 + p2 + p3 + p4 + p5, p6);
}

/// Each name appears at most once in an emitted header sequence.
#[verifier::rlimit(100)]
pub proof fn lemma_names_unique(
    subject: Seq<char>,
    dns: Seq<char>,
    uri: Seq<char>,
    ip: Seq<char>,
    email: Seq<char>,
)
    ensures
        forall|i: int, j: int|
            0 <= i < j < headers_of(subject, dns, uri, ip, email).len() ==> headers_of(
                subject,
                dns,
                uri,
                ip,
                email,
            )[i].name != headers_of(subject, dns, uri, ip, email)[j].name,
{
    reveal_strlit("X-Peer-Certificate-Present");
    reveal_strlit("X-Peer-Name");
    reveal_strlit("X-Peer-Email");
    reveal_strlit("X-Peer-Organization");
    reveal_strlit("X-Peer-OrganizationUnit");
    reveal_strlit("X-Peer-Country");
    reveal_strlit("X-Peer-Locality");
    reveal_strlit("X-Peer-State");
    reveal_strlit("X-Peer-Certificate-Errors");
    reveal_strlit("X-Peer-SAN-DNS");
    reveal_strlit("X-Peer-Primary-DNS");
    reveal_strlit("X-Peer-SAN-IP");
    reveal_strlit("X-Peer-Primary-IP");
    reveal_strlit("X-Peer-SAN-Email");
    reveal_strlit("X-Peer-SAN-URI");
    let hs = headers_of(subject, dns, uri, ip, email);
    if subject.len() != 0 {
        assert("X-Peer-Certificate-Present"@.len() == 26);
        assert("X-Peer-Name"@.len() == 11);
        assert("X-Peer-Email"@.len() == 12);
        assert("X-Peer-Organization"@.len() == 19);
        assert("X-Peer-OrganizationUnit"@.len() == 23);
        assert("X-Peer-Country"@.len() == 14);
        assert("X-Peer-Locality"@.len() == 15);
        assert("X-Peer-State"@.len() == 12);
        assert("X-Peer-Certificate-Errors"@.len() == 25);
        assert("X-Peer-SAN-DNS"@.len() == 14);
        assert("X-Peer-Primary-DNS"@.len() == 18);
        assert("X-Peer-SAN-IP"@.len() == 13);
        assert("X-Peer-Primary-IP"@.len() == 17);
        assert("X-Peer-SAN-Email"@.len() == 16);
        assert("X-Peer-SAN-URI"@.len() == 14);
        assert("X-Peer-Country"@[7] == 'C' && "X-Peer-SAN-DNS"@[7] == 'S' && "X-Peer-SAN-URI"@[7]
            == 'S');
        let present = seq![header("X-Peer-Certificate-Present"@, "true"@)];
        let sub = subject_headers(subject_of(subject));
        let san = san_headers(san_of(dns, uri, ip, email));
        lemma_subject_names(subject_of(subject));
        lemma_san_names(san_of(dns, uri, ip, email));
        assert forall|i: int, j: int|
            0 <= i < sub.len() && 0 <= j < san.len() implies sub[i].name != san[j].name by {
            assert(is_subject_header_name(sub[i].name));
            assert(is_san_header_name(san[j].name));
        }
        assert forall|i: int| 0 <= i < sub.len() implies sub[i].name
            != "X-Peer-Certificate-Present"@ by {
            assert(is_subject_header_name(sub[i].name));
        }
        assert forall|i: int| 0 <= i < san.len() implies san[i].name
            != "X-Peer-Certificate-Present"@ by {
            assert(is_san_header_name(san[i].name));
        }
        lemma_concat_names_unique(present, sub);
        assert forall|i: int, j: int|
            0 <= i < (present + sub).len() && 0 <= j < san.len() implies (present
            + sub)[i].name != san[j].name by {
            if i >= 1 {
                assert((present + sub)[i] == sub[i - 1]);
            }
        }
        lemma_concat_names_unique(present + sub, san);
        assert(hs == present + sub + san);
    }
}

/// With no certificate present, whatever the SAN properties hold, the only
/// header is the "not present" marker.
pub proof fn lemma_absent_certificate(dns: Seq<char>, uri: Seq<char>, ip: Seq<char>, email: Seq<
    char>)
    ensures
        headers_of(Seq::<char>::empty(), dns, uri, ip, email) == seq![header(
            "X-Peer-Certificate-Present"@,
            "false"@,
        )],
{
}

/// The projection is a function of its inputs alone: two runs over identical
/// raw property strings emit identical header sequences.
pub proof fn lemma_projection_deterministic(
    subject: Seq<char>,
    dns: Seq<char>,
    uri: Seq<char>,
    ip: Seq<char>,
    email: Seq<char>,
    h1: Seq<HeaderView>,
    h2: Seq<HeaderView>,
)
    requires
        h1 == headers_of(subject, dns, uri, ip, email),
        h2 == headers_of(subject, dns, uri, ip, email),
    ensures
        h1 == h2,
{
}

} // verus!

