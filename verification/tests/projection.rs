//! End-to-end scenarios for the subject parser, the SAN extractor and the
//! header projection.

use peer_cert_headers::config::Config;
use peer_cert_headers::headers::{request_filter, Header};
use peer_cert_headers::san::parse_san_attributes;
use peer_cert_headers::subject::parse_subject;

fn header_value(headers: &[Header], name: &str) -> Option<String> {
    headers.iter().find(|h| h.name == name).map(|h| h.value.clone())
}

fn run(subject: &str, dns: &str, uri: &str, ip: &str, email: &str) -> Vec<Header> {
    request_filter(subject, dns, uri, ip, email)
}

#[test]
fn parse_subject_extracts_attributes() {
    let s = parse_subject("CN=Alice,emailAddress=a@b.com,O=Acme");
    assert_eq!(s.name.as_deref(), Some("Alice"));
    assert_eq!(s.email.as_deref(), Some("a@b.com"));
    assert_eq!(s.organization.as_deref(), Some("Acme"));
    assert_eq!(s.organization_unit, None);
    assert_eq!(s.country, None);
    assert_eq!(s.locality, None);
    assert_eq!(s.state, None);
    assert!(s.errors.is_empty());
}

#[test]
fn parse_subject_reports_missing_required_fields_in_order() {
    let s = parse_subject("O=OnlyOrg");
    assert_eq!(s.organization.as_deref(), Some("OnlyOrg"));
    assert_eq!(
        s.errors,
        vec![
            "Common name missing from peer cert".to_string(),
            "Email address missing from peer cert".to_string(),
        ]
    );
}

#[test]
fn parse_subject_last_occurrence_wins() {
    let s = parse_subject("CN=First,CN=Second");
    assert_eq!(s.name.as_deref(), Some("Second"));
}

#[test]
fn parse_subject_ignores_unknown_segments() {
    let s = parse_subject("UID=u123,CN=Alice,emailAddress=a@b.com,DC=example");
    assert_eq!(s.name.as_deref(), Some("Alice"));
    assert_eq!(s.email.as_deref(), Some("a@b.com"));
    assert!(s.errors.is_empty());
}

#[test]
fn parse_subject_extracts_every_known_attribute() {
    let s = parse_subject("CN=n,emailAddress=e,O=o,OU=ou,C=c,L=l,ST=st");
    assert_eq!(s.name.as_deref(), Some("n"));
    assert_eq!(s.email.as_deref(), Some("e"));
    assert_eq!(s.organization.as_deref(), Some("o"));
    assert_eq!(s.organization_unit.as_deref(), Some("ou"));
    assert_eq!(s.country.as_deref(), Some("c"));
    assert_eq!(s.locality.as_deref(), Some("l"));
    assert_eq!(s.state.as_deref(), Some("st"));
    assert!(s.errors.is_empty());
}

#[test]
fn parse_subject_trims_segments_but_not_values() {
    let s = parse_subject("  CN= Alice \t, emailAddress=a@b.com ");
    assert_eq!(s.name.as_deref(), Some(" Alice"));
    assert_eq!(s.email.as_deref(), Some("a@b.com"));
}

#[test]
fn parse_subject_empty_input_yields_both_errors() {
    let s = parse_subject("");
    assert_eq!(s.name, None);
    assert_eq!(s.email, None);
    assert_eq!(s.errors.len(), 2);
}

#[test]
fn parse_subject_keeps_empty_value_distinct_from_absence() {
    let s = parse_subject("CN=,emailAddress=a@b.com");
    assert_eq!(s.name.as_deref(), Some(""));
    assert!(s.errors.is_empty());
}

#[test]
fn san_empty_raw_yields_empty_lists() {
    let san = parse_san_attributes("", "", "", "");
    assert!(san.dns_names.is_empty());
    assert!(san.uri_sans.is_empty());
    assert!(san.ip_addresses.is_empty());
    assert!(san.email_addresses.is_empty());
}

#[test]
fn san_splits_trims_and_preserves_order() {
    let san = parse_san_attributes(" a.com , b.com", "", "", "");
    assert_eq!(san.dns_names, vec!["a.com".to_string(), "b.com".to_string()]);
}

#[test]
fn san_preserves_duplicates() {
    let san = parse_san_attributes("a.com,a.com", "", "", "");
    assert_eq!(san.dns_names, vec!["a.com".to_string(), "a.com".to_string()]);
}

#[test]
fn san_categories_are_independent() {
    let san = parse_san_attributes("d.com", "spiffe://x", "10.0.0.1,10.0.0.2", "m@d.com");
    assert_eq!(san.dns_names, vec!["d.com".to_string()]);
    assert_eq!(san.uri_sans, vec!["spiffe://x".to_string()]);
    assert_eq!(san.ip_addresses, vec!["10.0.0.1".to_string(), "10.0.0.2".to_string()]);
    assert_eq!(san.email_addresses, vec!["m@d.com".to_string()]);
}

#[test]
fn filter_absent_certificate_sets_only_presence_marker() {
    let headers = run("", "x.com,y.com", "spiffe://x", "10.0.0.1", "m@x.com");
    assert_eq!(headers.len(), 1);
    assert_eq!(headers[0].name, "X-Peer-Certificate-Present");
    assert_eq!(headers[0].value, "false");
}

#[test]
fn filter_projects_subject_and_dns_sans() {
    let headers = run("CN=Bob,emailAddress=bob@x.com", "x.com,y.com", "", "", "");
    assert_eq!(
        header_value(&headers, "X-Peer-Certificate-Present").as_deref(),
        Some("true")
    );
    assert_eq!(header_value(&headers, "X-Peer-Name").as_deref(), Some("Bob"));
    assert_eq!(header_value(&headers, "X-Peer-Email").as_deref(), Some("bob@x.com"));
    assert_eq!(header_value(&headers, "X-Peer-SAN-DNS").as_deref(), Some("x.com,y.com"));
    assert_eq!(header_value(&headers, "X-Peer-Primary-DNS").as_deref(), Some("x.com"));
    assert_eq!(header_value(&headers, "X-Peer-Certificate-Errors"), None);
}

#[test]
fn filter_joins_validation_errors() {
    let headers = run("O=Acme", "", "", "", "");
    assert_eq!(
        header_value(&headers, "X-Peer-Certificate-Errors").as_deref(),
        Some("Common name missing from peer cert; Email address missing from peer cert")
    );
    assert_eq!(header_value(&headers, "X-Peer-Organization").as_deref(), Some("Acme"));
    assert_eq!(header_value(&headers, "X-Peer-Name"), None);
    assert_eq!(header_value(&headers, "X-Peer-Email"), None);
}

#[test]
fn filter_primary_headers_only_for_dns_and_ip() {
    let headers = run(
        "CN=Bob,emailAddress=bob@x.com",
        "d1.com,d2.com",
        "spiffe://a,spiffe://b",
        "10.0.0.1,10.0.0.2",
        "m1@x.com,m2@x.com",
    );
    assert_eq!(header_value(&headers, "X-Peer-SAN-DNS").as_deref(), Some("d1.com,d2.com"));
    assert_eq!(header_value(&headers, "X-Peer-Primary-DNS").as_deref(), Some("d1.com"));
    assert_eq!(
        header_value(&headers, "X-Peer-SAN-IP").as_deref(),
        Some("10.0.0.1,10.0.0.2")
    );
    assert_eq!(header_value(&headers, "X-Peer-Primary-IP").as_deref(), Some("10.0.0.1"));
    assert_eq!(
        header_value(&headers, "X-Peer-SAN-Email").as_deref(),
        Some("m1@x.com,m2@x.com")
    );
    assert_eq!(
        header_value(&headers, "X-Peer-SAN-URI").as_deref(),
        Some("spiffe://a,spiffe://b")
    );
    assert_eq!(header_value(&headers, "X-Peer-Primary-Email"), None);
    assert_eq!(header_value(&headers, "X-Peer-Primary-URI"), None);
}

#[test]
fn filter_emits_header_for_present_empty_attribute() {
    let headers = run("CN=,emailAddress=bob@x.com", "", "", "", "");
    assert_eq!(header_value(&headers, "X-Peer-Name").as_deref(), Some(""));
}

#[test]
fn filter_is_deterministic_across_runs() {
    let inputs = ("CN=Bob,emailAddress=bob@x.com", "x.com,y.com", "spiffe://x", "10.0.0.1", "");
    let first = run(inputs.0, inputs.1, inputs.2, inputs.3, inputs.4);
    let second = run(inputs.0, inputs.1, inputs.2, inputs.3, inputs.4);
    assert_eq!(first.len(), second.len());
    for (a, b) in first.iter().zip(second.iter()) {
        assert_eq!(a.name, b.name);
        assert_eq!(a.value, b.value);
    }
}

#[test]
fn filter_emission_order_is_fixed() {
    let headers = run("emailAddress=bob@x.com,CN=Bob", "x.com", "", "", "");
    let names: Vec<&str> = headers.iter().map(|h| h.name.as_str()).collect();
    assert_eq!(
        names,
        vec![
            "X-Peer-Certificate-Present",
            "X-Peer-Name",
            "X-Peer-Email",
            "X-Peer-SAN-DNS",
            "X-Peer-Primary-DNS",
        ]
    );
}

#[test]
fn config_carries_its_field_through() {
    let config = Config { string_property: "anything".to_string() };
    let copy = config.clone();
    assert_eq!(copy.string_property, "anything");
}
