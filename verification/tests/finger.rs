use std::collections::BTreeMap;

use smolweb::finger::client::{plan_fetch, query_from_url, ClientError, Response};
use smolweb::finger::server::parse_query;
use smolweb::finger::webfinger::{acct, percent_encode, request_url, Jrd, Link, MEDIA_TYPE};
use smolweb::finger::Query;
use smolweb::urls::UrlParts;

fn target(u: &str) -> Option<String> {
    plan_fetch(u).unwrap().query.user
}

fn finger_parts(username: &str, path: &str) -> UrlParts {
    UrlParts {
        scheme: "finger".to_string(),
        host: Some("example.org".to_string()),
        port: None,
        path: path.to_string(),
        query: None,
        username: username.to_string(),
        fragment: None,
    }
}

#[test]
fn the_query_is_read_from_the_parts_of_a_url() {
    assert_eq!(query_from_url(&finger_parts("", "/alice")).user.as_deref(), Some("alice"));
    assert_eq!(query_from_url(&finger_parts("bob", "")).user.as_deref(), Some("bob"));
    assert_eq!(query_from_url(&finger_parts("", "/")).user, None);
    assert_eq!(query_from_url(&finger_parts("bob", "//carol")).user.as_deref(), Some("carol"));
    assert!(!query_from_url(&finger_parts("", "/alice")).verbose);
}

#[test]
fn user_from_path_or_userinfo_or_listing() {
    assert_eq!(target("finger://example.org/alice").as_deref(), Some("alice"));
    assert_eq!(target("finger://bob@example.org").as_deref(), Some("bob"));
    assert_eq!(target("finger://example.org/"), None);
}

#[test]
fn the_verbose_switch_rides_before_the_user() {
    assert_eq!(Query::user("alice").verbose().wire(), "/W alice\r\n");
    assert_eq!(Query::default().verbose().wire(), "/W\r\n");
}

#[test]
fn the_documented_wire_forms() {
    assert_eq!(Query::user("alice").wire(), "alice\r\n");
    assert_eq!(Query::user("alice").verbose().wire(), "/W alice\r\n");
    assert_eq!(Query::default().wire(), "\r\n");
}

#[test]
fn a_url_without_a_host_is_refused_before_connecting() {
    let error = plan_fetch("finger:///alice").unwrap_err();
    assert!(matches!(error, ClientError::BadUrl(_)), "got {error:?}");
    assert!(error.to_string().starts_with("bad url: "));
}

#[test]
fn a_fetch_plan_names_host_port_and_user() {
    let plan = plan_fetch("finger://example.org/alice").unwrap();
    assert_eq!(plan.host, "example.org");
    assert_eq!(plan.port, 79);
    assert_eq!(plan.query, Query::user("alice"));
    let plan = plan_fetch("finger://bob@example.org:7979").unwrap();
    assert_eq!(plan.port, 7979);
    assert_eq!(plan.query.user.as_deref(), Some("bob"));
}

#[test]
fn a_reply_reads_as_text_with_replacements() {
    let r = Response { body: b"hi \xff".to_vec() };
    assert_eq!(r.text(), "hi \u{fffd}");
}

// ── Server ─────────────────────────────────────────────────────────────────

#[test]
fn a_bare_username_is_a_plain_query() {
    let q = parse_query(b"alice\r\n");
    assert_eq!(q.user.as_deref(), Some("alice"));
    assert!(!q.verbose);
}

#[test]
fn an_empty_line_is_a_listing_request() {
    assert_eq!(parse_query(b"\r\n").user, None);
    assert_eq!(parse_query(b"").user, None);
}

#[test]
fn the_verbose_switch_is_recognised_with_and_without_a_user() {
    let q = parse_query(b"/W alice\r\n");
    assert_eq!(q.user.as_deref(), Some("alice"));
    assert!(q.verbose);

    let q = parse_query(b"/W\r\n");
    assert_eq!(q.user, None);
    assert!(q.verbose);
}

#[test]
fn the_wire_form_and_the_parser_agree() {
    for query in [
        Query::user("alice"),
        Query::user("bob").verbose(),
        Query::default(),
        Query::default().verbose(),
    ] {
        assert_eq!(parse_query(query.wire().as_bytes()), query);
    }
}

#[test]
fn a_bare_lf_is_accepted_as_well_as_crlf() {
    assert_eq!(parse_query(b"alice\n").user.as_deref(), Some("alice"));
}

#[test]
fn surrounding_whitespace_does_not_become_part_of_the_name() {
    assert_eq!(parse_query(b"  alice  \r\n").user.as_deref(), Some("alice"));
}

#[test]
fn the_switch_needs_no_space_after_it() {
    let q = parse_query(b"/Walice\r\n");
    assert!(q.verbose);
    assert_eq!(q.user.as_deref(), Some("alice"));
}

// ── WebFinger ──────────────────────────────────────────────────────────────

#[test]
fn an_account_uri_is_built_per_rfc_7565() {
    assert_eq!(acct("bob", "example.com"), "acct:bob@example.com");
}

#[test]
fn the_resource_is_encoded_the_way_the_rfc_shows() {
    let url = request_url("example.com", &acct("carol", "example.com"), &[]);
    assert_eq!(url, "https://example.com/.well-known/webfinger?resource=acct%3Acarol%40example.com");
}

#[test]
fn rel_filters_append_in_order() {
    let url = request_url("example.com", "acct:a@b", &["self", "http://x/y"]);
    assert!(url.ends_with("&rel=self&rel=http%3A%2F%2Fx%2Fy"), "got {url}");
}

#[test]
fn the_documented_request_url() {
    let url = request_url("example.social", &acct("alice", "example.social"), &["self"]);
    assert_eq!(
        url,
        "https://example.social/.well-known/webfinger?resource=acct%3Aalice%40example.social&rel=self"
    );
    assert_eq!(MEDIA_TYPE, "application/jrd+json");
}

#[test]
fn unreserved_bytes_pass_and_others_become_upper_hex() {
    assert_eq!(percent_encode("a-Z._~9"), "a-Z._~9");
    assert_eq!(percent_encode(" é/"), "%20%C3%A9%2F");
    assert_eq!(percent_encode(""), "");
}

fn link(rel: &str, href: &str) -> Link {
    Link {
        rel: rel.into(),
        media_type: None,
        href: Some(href.into()),
        template: None,
        titles: BTreeMap::new(),
        properties: BTreeMap::new(),
    }
}

#[test]
fn a_link_is_found_by_relation_and_the_first_one_wins() {
    let jrd = Jrd {
        subject: Some("acct:carol@example.com".into()),
        aliases: vec![],
        properties: BTreeMap::new(),
        links: vec![
            link("http://webfinger.example/rel/profile-page", "https://www.example.com/~carol/"),
            link("self", "https://example.com/users/carol"),
            link("self", "https://example.com/second"),
        ],
    };
    assert_eq!(jrd.link("self").unwrap().href.as_deref(), Some("https://example.com/users/carol"));
    assert!(jrd.link("missing").is_none());
    let both: Vec<_> = jrd.links_with("self").into_iter().map(|l| l.href.clone().unwrap()).collect();
    assert_eq!(both, vec!["https://example.com/users/carol", "https://example.com/second"]);
}
