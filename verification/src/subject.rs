//! Parsing of an X.509-style Subject Distinguished Name string into the
//! attributes the projection cares about.
//!
//! The input is split on literal commas (embedded commas in a value cannot be
//! told apart from separators; this is accepted, documented behaviour), each
//! segment is trimmed, and the recognized `KEY=` prefixes are tested in a
//! fixed precedence order.  Unrecognized segments are ignored and a repeated
//! key is overwritten, so the last occurrence wins.

use vstd::prelude::*;

use crate::text::{str_has_prefix, strip_prefix_owned, split_trim, trimmed_segments};

verus! {

/// The recognized attribute prefixes, in the precedence order the parser
/// tests them.
pub open spec fn email_prefix() -> Seq<char> {
    "emailAddress="@
}

pub open spec fn name_prefix() -> Seq<char> {
    "CN="@
}

pub open spec fn organization_prefix() -> Seq<char> {
    "O="@
}

pub open spec fn organization_unit_prefix() -> Seq<char> {
    "OU="@
}

pub open spec fn country_prefix() -> Seq<char> {
    "C="@
}

pub open spec fn locality_prefix() -> Seq<char> {
    "L="@
}

pub open spec fn state_prefix() -> Seq<char> {
    "ST="@
}

/// The validation message recorded when no segment carries a common name.
pub open spec fn name_error() -> Seq<char> {
    "Common name missing from peer cert"@
}

/// The validation message recorded when no segment carries an email address.
pub open spec fn email_error() -> Seq<char> {
    "Email address missing from peer cert"@
}

/// The mathematical value of a parsed subject: each attribute either absent
/// or the character sequence that followed its prefix, plus the validation
/// messages in the order they are recorded.
#[verifier::ext_equal]
pub ghost struct SubjectView {
    pub name: Option<Seq<char>>,
    pub email: Option<Seq<char>>,
    pub organization: Option<Seq<char>>,
    pub organization_unit: Option<Seq<char>>,
    pub country: Option<Seq<char>>,
    pub locality: Option<Seq<char>>,
    pub state: Option<Seq<char>>,
    pub errors: Seq<Seq<char>>,
}

/// The attributes extracted from one Distinguished Name string.  Absence is
/// an unset option, never an empty string.
pub struct Subject {
    pub name: Option<String>,
    pub email: Option<String>,
    pub organization: Option<String>,
    pub organization_unit: Option<String>,
    pub country: Option<String>,
    pub locality: Option<String>,
    pub state: Option<String>,
    pub errors: Vec<String>,
}

impl View for Subject {
    type V = SubjectView;

    open spec fn view(&self) -> SubjectView {
        SubjectView {
            name: self.name.deep_view(),
            email: self.email.deep_view(),
            organization: self.organization.deep_view(),
            organization_unit: self.organization_unit.deep_view(),
            country: self.country.deep_view(),
            locality: self.locality.deep_view(),
            state: self.state.deep_view(),
            errors: self.errors.deep_view(),
        }
    }
}

/// A subject with every attribute absent and no messages.
pub open spec fn empty_subject() -> SubjectView {
    SubjectView {
        name: None,
        email: None,
        organization: None,
        organization_unit: None,
        country: None,
        locality: None,
        state: None,
        errors: Seq::<Seq<char>>::empty(),
    }
}

/// One trimmed segment applied to the attributes gathered so far: the first
/// matching prefix claims the segment and its remainder overwrites that
/// attribute; a segment matching no prefix changes nothing.
pub open spec fn apply_segment(f: SubjectView, t: Seq<char>) -> SubjectView {
    if email_prefix().is_prefix_of(t) {
        SubjectView { email: Some(t.skip(email_prefix().len() as int)), ..f }
    } else if name_prefix().is_prefix_of(t) {
        SubjectView { name: Some(t.skip(name_prefix().len() as int)), ..f }
    } else if organization_prefix().is_prefix_of(t) {
        SubjectView { organization: Some(t.skip(organization_prefix().len() as int)), ..f }
    } else if organization_unit_prefix().is_prefix_of(t) {
        SubjectView {
            organization_unit: Some(t.skip(organization_unit_prefix().len() as int)),
            ..f
        }
    } else if country_prefix().is_prefix_of(t) {
        SubjectView { country: Some(t.skip(country_prefix().len() as int)), ..f }
    } else if locality_prefix().is_prefix_of(t) {
        SubjectView { locality: Some(t.skip(locality_prefix().len() as int)), ..f }
    } else if state_prefix().is_prefix_of(t) {
        SubjectView { state: Some(t.skip(state_prefix().len() as int)), ..f }
    } else {
        f
    }
}

/// The attributes after processing every trimmed segment in order.
pub open spec fn parse_fields(segs: Seq<Seq<char>>) -> SubjectView
    decreases segs.len(),
{
    if segs.len() == 0 {
        empty_subject()
    } else {
        apply_segment(parse_fields(segs.drop_last()), segs.last())
    }
}

/// The validation messages owed to a set of attributes: one for a missing
/// common name, then one for a missing email address.
pub open spec fn error_list(f: SubjectView) -> Seq<Seq<char>> {
    (if f.name is None {
        seq![name_error()]
    } else {
        Seq::<Seq<char>>::empty()
    }) + (if f.email is None {
        seq![email_error()]
    } else {
        Seq::<Seq<char>>::empty()
    })
}

/// The subject extracted from one Distinguished Name string.
pub open spec fn subject_of(s: Seq<char>) -> SubjectView {
    let f = parse_fields(trimmed_segments(s));
    SubjectView { errors: error_list(f), ..f }
}

/// Extracts the name, email, and additional attributes from the given
/// subject field.  Never fails: malformed input yields absent attributes and
/// the two standard validation messages.
pub fn parse_subject(subject_field: &str) -> (r: Subject)
    ensures
        r@ == subject_of(subject_field@),
{
    let segs = split_trim(subject_field);
    let ghost tsegs = trimmed_segments(subject_field@);
    let mut name: Option<String> = None;
    let mut email: Option<String> = None;
    let mut organization: Option<String> = None;
    let mut organization_unit: Option<String> = None;
    let mut country: Option<String> = None;
    let mut locality: Option<String> = None;
    let mut state: Option<String> = None;
    let mut i: usize = 0;
    proof {
        assert(tsegs.take(0) =~~= Seq::<Seq<char>>::empty());
    }
    while i < segs.len()
        invariant
            i <= segs.len(),
            segs.deep_view() == tsegs,
            (SubjectView {
                name: name.deep_view(),
                email: email.deep_view(),
                organization: organization.deep_view(),
                organization_unit: organization_unit.deep_view(),
                country: country.deep_view(),
                locality: locality.deep_view(),
                state: state.deep_view(),
                errors: Seq::<Seq<char>>::empty(),
            }) == parse_fields(tsegs.take(i as int)),
        decreases segs.len() - i,
    {
        let seg = &segs[i];
        assert(seg@ == tsegs[i as int]);
        if str_has_prefix(seg.as_str(), "emailAddress=") {
            email = Some(strip_prefix_owned(seg.as_str(), "emailAddress="));
        } else if str_has_prefix(seg.as_str(), "CN=") {
            name = Some(strip_prefix_owned(seg.as_str(), "CN="));
        } else if str_has_prefix(seg.as_str(), "O=") {
            organization = Some(strip_prefix_owned(seg.as_str(), "O="));
        } else if str_has_prefix(seg.as_str(), "OU=") {
            organization_unit = Some(strip_prefix_owned(seg.as_str(), "OU="));
        } else if str_has_prefix(seg.as_str(), "C=") {
            country = Some(strip_prefix_owned(seg.as_str(), "C="));
        } else if str_has_prefix(seg.as_str(), "L=") {
            locality = Some(strip_prefix_owned(seg.as_str(), "L="));
        } else if str_has_prefix(seg.as_str(), "ST=") {
            state = Some(strip_prefix_owned(seg.as_str(), "ST="));
        }
        proof {
            assert(tsegs.take(i + 1).drop_last() =~~= tsegs.take(i as int));
            assert(tsegs.take(i + 1).last() == tsegs[i as int]);
            assert((SubjectView {
                name: name.deep_view(),
                email: email.deep_view(),
                organization: organization.deep_view(),
                organization_unit: organization_unit.deep_view(),
                country: country.deep_view(),
                locality: locality.deep_view(),
                state: state.deep_view(),
                errors: Seq::<Seq<char>>::empty(),
            }) =~~= parse_fields(tsegs.take(i + 1)));
        }
        i = i + 1;
    }
    proof {
        assert(tsegs.take(segs.len() as int) =~~= tsegs);
    }
    let mut errors: Vec<String> = Vec::new();
    if name.is_none() {
        errors.push("Common name missing from peer cert".to_owned());
    }
    if email.is_none() {
        errors.push("Email address missing from peer cert".to_owned());
    }
    let r = Subject { name, email, organization, organization_unit, country, locality, state, errors };
    proof {
        assert(r@.errors =~~= error_list(parse_fields(tsegs)));
        assert(r@ =~~= subject_of(subject_field@));
    }
    r
}

/// A segment carrying the common-name prefix never carries the email prefix:
/// their first characters differ.
proof fn lemma_name_email_prefixes_disjoint(t: Seq<char>)
    ensures
        name_prefix().is_prefix_of(t) ==> !email_prefix().is_prefix_of(t),
{
    reveal_strlit("CN=");
    reveal_strlit("emailAddress=");
    if name_prefix().is_prefix_of(t) && email_prefix().is_prefix_of(t) {
        assert(t.subrange(0, 3)[0] == t[0]);
        assert(t.subrange(0, 13)[0] == t[0]);
        assert(t[0] == 'C' && t[0] == 'e');
    }
}

/// The name attribute is set exactly when some segment carries the
/// common-name prefix.
proof fn lemma_fields_name(segs: Seq<Seq<char>>)
    ensures
        parse_fields(segs).name is Some <==> exists|i: int|
            0 <= i < segs.len() && name_prefix().is_prefix_of(segs[i]),
    decreases segs.len(),
{
    if segs.len() > 0 {
        lemma_fields_name(segs.drop_last());
        let t = segs.last();
        lemma_name_email_prefixes_disjoint(t);
        if name_prefix().is_prefix_of(t) {
            assert(name_prefix().is_prefix_of(segs[segs.len() - 1]));
        } else {
            if parse_fields(segs.drop_last()).name is Some {
                let i = choose|i: int|
                    0 <= i < segs.drop_last().len() && name_prefix().is_prefix_of(
                        segs.drop_last()[i],
                    );
                assert(name_prefix().is_prefix_of(segs[i]));
            }
            if exists|i: int| 0 <= i < segs.len() && name_prefix().is_prefix_of(segs[i]) {
                let i = choose|i: int|
                    0 <= i < segs.len() && name_prefix().is_prefix_of(segs[i]);
                assert(i != segs.len() - 1);
                assert(name_prefix().is_prefix_of(segs.drop_last()[i]));
            }
        }
    }
}

/// The email attribute is set exactly when some segment carries the email
/// prefix.
proof fn lemma_fields_email(segs: Seq<Seq<char>>)
    ensures
        parse_fields(segs).email is Some <==> exists|i: int|
            0 <= i < segs.len() && email_prefix().is_prefix_of(segs[i]),
    decreases segs.len(),
{
    if segs.len() > 0 {
        lemma_fields_email(segs.drop_last());
        let t = segs.last();
        if email_prefix().is_prefix_of(t) {
            assert(email_prefix().is_prefix_of(segs[segs.len() - 1]));
        } else {
            if parse_fields(segs.drop_last()).email is Some {
                let i = choose|i: int|
                    0 <= i < segs.drop_last().len() && email_prefix().is_prefix_of(
                        segs.drop_last()[i],
                    );
                assert(email_prefix().is_prefix_of(segs[i]));
            }
            if exists|i: int| 0 <= i < segs.len() && email_prefix().is_prefix_of(segs[i]) {
                let i = choose|i: int|
                    0 <= i < segs.len() && email_prefix().is_prefix_of(segs[i]);
                assert(i != segs.len() - 1);
                assert(email_prefix().is_prefix_of(segs.drop_last()[i]));
            }
        }
    }
}

/// The two validation messages differ.
proof fn lemma_error_messages_differ()
    ensures
        name_error() != email_error(),
{
    reveal_strlit("Common name missing from peer cert");
    reveal_strlit("Email address missing from peer cert");
    assert(name_error().len() != email_error().len());
}

/// The subject's validation list carries the common-name message exactly
/// when no trimmed segment starts with the common-name prefix, and the
/// email message exactly when no trimmed segment starts with the email
/// prefix; a parsed subject never carries any other message.
pub proof fn lemma_required_attribute_errors(s: Seq<char>)
    ensures
        subject_of(s).errors.contains(name_error()) <==> !(exists|i: int|
            0 <= i < trimmed_segments(s).len() && name_prefix().is_prefix_of(
                trimmed_segments(s)[i],
            )),
        subject_of(s).errors.contains(email_error()) <==> !(exists|i: int|
            0 <= i < trimmed_segments(s).len() && email_prefix().is_prefix_of(
                trimmed_segments(s)[i],
            )),
        forall|m: Seq<char>|
            subject_of(s).errors.contains(m) ==> m == name_error() || m == email_error(),
{
    let segs = trimmed_segments(s);
    let f = parse_fields(segs);
    lemma_fields_name(segs);
    lemma_fields_email(segs);
    lemma_error_messages_differ();
    let errors = subject_of(s).errors;
    if f.name is None {
        assert(errors[0] == name_error());
    }
    if f.email is None {
        assert(errors[errors.len() - 1] == email_error());
    }
    assert forall|m: Seq<char>| errors.contains(m) implies m == name_error() || m
        == email_error() by {
        let i = choose|i: int| 0 <= i < errors.len() && errors[i] == m;
    }
    if errors.contains(name_error()) {
        let i = choose|i: int| 0 <= i < errors.len() && errors[i] == name_error();
        assert(f.name is None);
    }
    if errors.contains(email_error()) {
        let i = choose|i: int| 0 <= i < errors.len() && errors[i] == email_error();
        assert(f.email is None);
    }
}

/// When the last segment carrying the common-name prefix is segment `i`, the
/// extracted name is exactly the remainder of that segment: a repeated key is
/// overwritten, so the last occurrence wins.
pub proof fn lemma_last_name_wins(segs: Seq<Seq<char>>, i: int)
    requires
        0 <= i < segs.len(),
        name_prefix().is_prefix_of(segs[i]),
        forall|j: int| i < j < segs.len() ==> !name_prefix().is_prefix_of(segs[j]),
    ensures
        parse_fields(segs).name == Some(segs[i].skip(name_prefix().len() as int)),
    decreases segs.len(),
{
    let t = segs.last();
    lemma_name_email_prefixes_disjoint(t);
    if i == segs.len() - 1 {
    } else {
        lemma_last_name_wins(segs.drop_last(), i);
        assert(segs.drop_last()[i] == segs[i]);
    }
}

} // verus!
