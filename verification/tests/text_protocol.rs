use smolweb::text_protocol::client::{plan_fetch, read_header, ClientError};
use smolweb::text_protocol::{
    parse_body, parse_header, request_line, Header, Line, LinkLine, Status, DEFAULT_PORT,
    DEFAULT_TLS_PORT, NOISE_PORT,
};

#[test]
fn the_three_statuses_parse_and_a_fourth_does_not() {
    assert_eq!(
        parse_header("20 text/plain;charset=utf-8"),
        Some(Header { status: Status::Success, meta: "text/plain;charset=utf-8".into() })
    );
    assert_eq!(parse_header("30 text://textprotocol.org/").unwrap().status, Status::Redirect);
    assert_eq!(parse_header("40 NOK").unwrap().status, Status::Nok);
    assert_eq!(parse_header("51 not found"), None, "the protocol has three codes");
    assert_eq!(parse_header("garbage"), None);
}

#[test]
fn the_request_is_an_iri_and_a_crlf_and_nothing_else() {
    assert_eq!(request_line("text://textprotocol.org/"), "text://textprotocol.org/\r\n");
}

#[test]
fn the_specs_own_link_example_parses() {
    let lines = parse_body("=> text://textprotocol.org/license.txt rel=license CC0-1.0\n");
    let Line::Link(link) = &lines[0] else {
        panic!("expected a link");
    };
    assert_eq!(link.url, "text://textprotocol.org/license.txt");
    assert_eq!(link.attributes, vec![("rel".to_string(), "license".to_string())]);
    assert_eq!(link.label.as_deref(), Some("CC0-1.0"));
}

#[test]
fn a_bare_link_has_no_attributes_and_no_label() {
    let Line::Link(link) = &parse_body("=> text://example.org/\n")[0] else {
        panic!();
    };
    assert!(link.attributes.is_empty());
    assert_eq!(link.label, None);
}

#[test]
fn an_equals_inside_a_label_stays_label_text() {
    let Line::Link(link) = &parse_body("=> text://x/ rel=next E = mc squared\n")[0] else {
        panic!();
    };
    assert_eq!(link.attributes.len(), 1);
    assert_eq!(link.label.as_deref(), Some("E = mc squared"));
}

#[test]
fn everything_else_is_verbatim_text() {
    let lines = parse_body("# not a heading\n* not a list\nplain\n");
    assert!(lines.iter().all(|l| matches!(l, Line::Text(_))));
}

#[test]
fn a_link_without_any_token_and_an_empty_key_are_handled() {
    assert_eq!(
        parse_body("=>\n")[0],
        Line::Link(LinkLine { url: String::new(), attributes: vec![], label: None })
    );
    let Line::Link(link) = &parse_body("=>u  =x   a=b  \n")[0] else {
        panic!();
    };
    assert_eq!(link.url, "u");
    assert!(link.attributes.is_empty(), "an empty key starts the label");
    assert_eq!(link.label.as_deref(), Some("=x a=b"));
    assert_eq!(parse_body("a\r\nb").len(), 2);
}

#[test]
fn the_ports_are_the_named_three() {
    assert_eq!((DEFAULT_PORT, DEFAULT_TLS_PORT, NOISE_PORT), (1961, 1965, 1968));
}

#[test]
fn lib_another_scheme_is_refused() {
    let error = plan_fetch("gemini://example.org/", false).unwrap_err();
    assert!(matches!(error, ClientError::BadUrl(_)), "got {error:?}");
    assert_eq!(error.to_string(), "bad url: scheme gemini is not text");
}

#[test]
fn an_iri_names_its_host_and_the_transports_port() {
    assert_eq!(plan_fetch("text://example.org/", false).unwrap(), ("example.org".to_string(), 1961));
    assert_eq!(plan_fetch("text://example.org/", true).unwrap(), ("example.org".to_string(), 1965));
    assert_eq!(plan_fetch("text://example.org:7/", true).unwrap().1, 7);
}

#[test]
fn a_header_line_must_be_utf8_and_a_known_status() {
    assert_eq!(
        read_header(b"20 text/plain\r"),
        Ok(Header { status: Status::Success, meta: "text/plain".into() })
    );
    assert_eq!(read_header(b"\xff"), Err(ClientError::Protocol("header is not UTF-8".into())));
    assert_eq!(
        read_header(b"99 x"),
        Err(ClientError::Protocol("not a text-protocol status: \"99 x\"".into()))
    );
}
