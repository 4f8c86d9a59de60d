use smolweb::gemini::client::{
    handshake_failure, parse_response, pin_to_record, plan_fetch, request_for, target, ClientError,
    Status,
};
use smolweb::gemini::gemtext::{parse, GemLine};
use smolweb::gemini::server::{
    check_request, parse_request, take_request_byte, too_long, Reply, RequestStep, PORT,
};
use smolweb::gemini::titan;
use smolweb::gemini::tofu::{
    check_leaf, fingerprint, hex, InMemoryTofu, PermissiveTofu, PinTable, TofuStore,
};
use smolweb::urls::UrlParts;

#[test]
fn headings_at_three_levels() {
    let lines = parse("# one\n## two\n### three\n");
    assert_eq!(
        lines,
        vec![
            GemLine::Heading { level: 1, text: "one".into() },
            GemLine::Heading { level: 2, text: "two".into() },
            GemLine::Heading { level: 3, text: "three".into() },
        ]
    );
}

#[test]
fn link_with_and_without_label() {
    let lines =
        parse("=> gemini://example.test/  Example capsule\n=> gemini://example.test/page\n");
    assert_eq!(
        lines,
        vec![
            GemLine::Link {
                url: "gemini://example.test/".into(),
                label: "Example capsule".into(),
            },
            GemLine::Link {
                url: "gemini://example.test/page".into(),
                label: String::new(),
            },
        ]
    );
}

#[test]
fn bare_arrow_is_dropped() {
    assert_eq!(parse("=>\n"), vec![]);
    assert_eq!(parse("=>   \n"), vec![]);
}

#[test]
fn items_and_quotes_stay_line_level() {
    let lines = parse("* one\n* two\n> q1\n> q2\n");
    assert_eq!(
        lines,
        vec![
            GemLine::Item("one".into()),
            GemLine::Item("two".into()),
            GemLine::Quote("q1".into()),
            GemLine::Quote("q2".into()),
        ]
    );
}

#[test]
fn preformatted_with_alt_captures_verbatim() {
    let lines = parse("```rust\nfn main() {}\n```\n");
    assert_eq!(
        lines,
        vec![GemLine::Pre { alt: Some("rust".into()), text: "fn main() {}\n".into() }]
    );
}

#[test]
fn preformatted_swallows_other_prefixes() {
    let lines = parse("```\n=> not-a-link\n# not-a-heading\n```\n");
    let GemLine::Pre { alt, text } = &lines[0] else {
        panic!("expected a preformatted block, got {:?}", lines);
    };
    assert_eq!(*alt, None);
    assert!(text.contains("=> not-a-link"));
    assert!(text.contains("# not-a-heading"));
}

#[test]
fn unterminated_fence_runs_to_end() {
    let lines = parse("```\nstill open\n");
    assert_eq!(lines, vec![GemLine::Pre { alt: None, text: "still open\n".into() }]);
}

#[test]
fn blank_lines_and_text_preserved_in_order() {
    let lines = parse("first\nsecond\n\nnext\n");
    assert_eq!(
        lines,
        vec![
            GemLine::Text("first".into()),
            GemLine::Text("second".into()),
            GemLine::Blank,
            GemLine::Text("next".into()),
        ]
    );
}

#[test]
fn a_crlf_document_parses_like_an_lf_one() {
    assert_eq!(parse("# one\r\n=> a b\r\n"), parse("# one\n=> a b\n"));
    assert_eq!(parse(""), vec![]);
}

#[test]
fn parses_success_header_and_body() {
    let r = parse_response(b"20 text/gemini; charset=utf-8\r\n# Hello\nworld\n").unwrap();
    assert_eq!(r.status, Status::Success);
    assert_eq!(r.code, 20);
    assert_eq!(r.mime(), Some("text/gemini"));
    assert_eq!(r.body, b"# Hello\nworld\n");
}

#[test]
fn redirect_meta_is_the_target_and_body_is_dropped() {
    let r = parse_response(b"31 gemini://example.org/moved\r\nignored").unwrap();
    assert_eq!(r.status, Status::Redirect);
    assert_eq!(r.meta, "gemini://example.org/moved");
    assert!(r.body.is_empty());
}

#[test]
fn temporary_and_permanent_failure_stay_apart() {
    let temporary = parse_response(b"44 slow down\r\n").unwrap();
    assert_eq!(temporary.status, Status::TemporaryFailure);
    assert_eq!(temporary.code, 44);

    let permanent = parse_response(b"51 not found\r\n").unwrap();
    assert_eq!(permanent.status, Status::PermanentFailure);
    assert_eq!(permanent.code, 51);
}

#[test]
fn cert_required_class() {
    let r = parse_response(b"60 client cert required\r\n").unwrap();
    assert_eq!(r.status, Status::CertificateRequired);
}

#[test]
fn empty_meta_is_fine() {
    let r = parse_response(b"20 \r\nbody").unwrap();
    assert_eq!(r.mime(), None);
    assert_eq!(r.body, b"body");
}

#[test]
fn a_non_success_has_no_mime_even_with_a_meta() {
    let r = parse_response(b"31 gemini://example.org/\r\n").unwrap();
    assert_eq!(r.mime(), None);
}

#[test]
fn missing_crlf_is_a_protocol_error() {
    assert!(matches!(parse_response(b"20 text/gemini"), Err(ClientError::Protocol(_))));
}

#[test]
fn non_numeric_status_is_a_protocol_error() {
    assert!(matches!(parse_response(b"xx nope\r\n"), Err(ClientError::Protocol(_))));
}

#[test]
fn an_undefined_status_class_is_refused() {
    assert!(matches!(parse_response(b"90 what\r\n"), Err(ClientError::Protocol(_))));
}

#[test]
fn a_header_that_is_not_utf8_is_a_protocol_error() {
    assert_eq!(
        parse_response(&[b'2', b'0', b' ', 0xFF, b'\r', b'\n']),
        Err(ClientError::Protocol("response header is not UTF-8".to_string()))
    );
    assert_eq!(
        parse_response(b"90 what\r\n").unwrap_err().to_string(),
        "protocol: unknown gemini status class: 90"
    );
}

#[test]
fn reply_constructors_carry_the_right_codes() {
    assert_eq!(Reply::gemtext("hi").code, 20);
    assert_eq!(Reply::gemtext("hi").meta, "text/gemini");
    assert_eq!(Reply::input("name?").code, 10);
    assert_eq!(Reply::redirect("gemini://x/").code, 30);
    assert_eq!(Reply::not_found("gone").code, 51);
}

#[test]
fn the_header_line_is_the_spec_shape() {
    assert_eq!(Reply::gemtext("body").header_line(), "20 text/gemini\r\n");
    assert_eq!(Reply::not_found("no such page").header_line(), "51 no such page\r\n");
}

#[test]
fn what_the_server_writes_the_client_parses_back() {
    let reply = Reply::gemtext("# Hello\n");
    let mut raw = reply.header_line().into_bytes();
    raw.extend_from_slice(&reply.body);

    let parsed = parse_response(&raw).unwrap();
    assert_eq!(parsed.status, Status::Success);
    assert_eq!(parsed.code, 20);
    assert_eq!(parsed.mime(), Some("text/gemini"));
    assert_eq!(parsed.body, b"# Hello\n");
}

#[test]
fn a_non_success_round_trips_without_a_body() {
    let reply = Reply::redirect("gemini://example.org/moved");
    let parsed = parse_response(reply.header_line().as_bytes()).unwrap();
    assert_eq!(parsed.status, Status::Redirect);
    assert_eq!(parsed.meta, "gemini://example.org/moved");
    assert!(parsed.body.is_empty());
}

#[test]
fn an_undefined_code_has_no_status_class() {
    assert_eq!(Reply::header(90, "?").status(), None);
}

#[test]
fn permissive_never_pins() {
    let tofu = PermissiveTofu;
    tofu.pin("a.example", [1u8; 32]);
    assert!(
        tofu.fingerprint("a.example").is_none(),
        "permissive store treats every visit as first contact"
    );
}

#[test]
fn fingerprint_is_stable_and_hex_round_trips() {
    assert_eq!(fingerprint(b"cert"), fingerprint(b"cert"));
    assert_ne!(fingerprint(b"cert"), fingerprint(b"other"));
    assert_eq!(hex(&[0xde, 0xad, 0x01]), "dead01");
}

#[test]
fn a_fingerprint_is_the_sha256_of_the_certificate() {
    assert_eq!(
        hex(&fingerprint(b"abc")),
        "ba7816bf8f01cfea414140de5dae2223b00361a396177a9cb410ff61f20015ad"
    );
}

#[test]
fn an_absolute_gemini_url_parses() {
    let url = parse_request(b"gemini://example.org/path?q\r\n").unwrap();
    assert_eq!(url.host.as_deref(), Some("example.org"));
    assert_eq!(url.path, "/path");
    assert_eq!(url.query.as_deref(), Some("q"));
}

#[test]
fn a_relative_request_is_refused() {
    assert!(parse_request(b"/path\r\n").is_err());
}

#[test]
fn server_another_scheme_is_refused() {
    assert!(parse_request(b"https://example.org/\r\n").is_err());
    assert!(parse_request(b"spartan://example.org/\r\n").is_err());
}

#[test]
fn a_fragment_never_belongs_on_the_wire() {
    assert!(parse_request(b"gemini://example.org/p#frag\r\n").is_err());
}

#[test]
fn invalid_utf8_is_refused_rather_than_lossily_accepted() {
    assert!(parse_request(&[0xFF, 0xFE, b'\r', b'\n']).is_err());
}

#[test]
fn each_refusal_names_its_reason() {
    assert_eq!(parse_request(&[0xFF, b'\n']).unwrap_err(), "request is not UTF-8");
    assert_eq!(parse_request(b"spartan://h/\r\n").unwrap_err(), "scheme spartan is not gemini");
    assert_eq!(parse_request(b"gemini://h/p#f\r\n").unwrap_err(), "request carries a fragment");
    let hostless = UrlParts {
        scheme: "gemini".into(),
        host: None,
        port: None,
        path: "/".into(),
        query: None,
        username: String::new(),
        fragment: None,
    };
    assert_eq!(check_request(hostless).unwrap_err(), "request has no host");
}

#[test]
fn the_request_line_is_capped_and_a_line_feed_ends_it() {
    let mut line = Vec::new();
    assert_eq!(take_request_byte(&mut line, Some(b'a'), 2), RequestStep::More);
    assert_eq!(take_request_byte(&mut line, Some(b'b'), 2), RequestStep::More);
    assert_eq!(take_request_byte(&mut line, Some(b'c'), 2), RequestStep::TooLong);
    let mut line = Vec::new();
    assert_eq!(take_request_byte(&mut line, Some(b'\n'), 2), RequestStep::Done);
    assert_eq!(take_request_byte(&mut line, None, 2), RequestStep::Done);
    assert!(line.is_empty());
    let reply = too_long();
    assert_eq!((reply.code, reply.meta.as_str()), (59, "request exceeds 1024 bytes"));
    assert_eq!(PORT, 1965);
}

#[test]
fn only_a_success_puts_its_body_on_the_wire() {
    assert_eq!(Reply::gemtext("hi").wire(), b"20 text/gemini\r\nhi".to_vec());
    let mut failure = Reply::not_found("gone");
    failure.body = b"ignored".to_vec();
    assert_eq!(failure.wire(), b"51 gone\r\n".to_vec());
}

#[test]
fn titan_shares_gemini_port() {
    assert_eq!(titan::DEFAULT_PORT, smolweb::gemini::client::DEFAULT_PORT);
}

#[test]
fn the_request_line_carries_size_mime_and_token_in_order() {
    assert_eq!(
        titan::request_line("titan://example.org/raw/page", 12, "text/gemini", Some("hunter2")),
        "titan://example.org/raw/page;size=12;mime=text/gemini;token=hunter2\r\n"
    );
}

#[test]
fn an_empty_mime_and_no_token_leave_only_the_size() {
    assert_eq!(
        titan::request_line("titan://example.org/raw/page", 0, "", None),
        "titan://example.org/raw/page;size=0\r\n"
    );
}

#[test]
fn in_memory_pins_and_recalls_per_host() {
    let tofu = InMemoryTofu::new();
    assert!(tofu.fingerprint("a.example").is_none());
    tofu.pin("a.example", [1u8; 32]);
    assert_eq!(tofu.fingerprint("a.example"), Some([1u8; 32]));
    assert!(tofu.fingerprint("b.example").is_none(), "pins are per host");
}

#[test]
fn a_later_pin_replaces_the_earlier_one() {
    let mut table = PinTable::new();
    table.set("a", [1u8; 32]);
    table.set("b", [2u8; 32]);
    table.set("a", [3u8; 32]);
    assert_eq!(table.get("a"), Some([3u8; 32]));
    assert_eq!(table.get("b"), Some([2u8; 32]));
    assert_eq!(table.get("c"), None);
}

#[test]
fn first_contact_accepts_and_records() {
    let (seen, accepted) = check_leaf(None, b"leaf");
    assert!(accepted);
    assert_eq!(seen, fingerprint(b"leaf"));
    assert_eq!(pin_to_record(None, Some(seen)), Some(seen));
}

#[test]
fn a_matching_pin_accepts() {
    let (_, accepted) = check_leaf(Some(fingerprint(b"leaf")), b"leaf");
    assert!(accepted);
    assert_eq!(pin_to_record(Some(fingerprint(b"leaf")), Some(fingerprint(b"leaf"))), None);
}

#[test]
fn a_changed_cert_is_rejected_but_still_recorded() {
    let (seen, accepted) = check_leaf(Some(fingerprint(b"old")), b"new");
    assert!(!accepted);
    assert_eq!(seen, fingerprint(b"new"));
    match handshake_failure("x.test", Some(fingerprint(b"old")), Some(seen), "refused") {
        ClientError::CertificateChanged { host, pinned, seen: saw } => {
            assert_eq!(host, "x.test");
            assert_eq!(pinned, hex(&fingerprint(b"old")));
            assert_eq!(saw, hex(&fingerprint(b"new")));
        },
        other => panic!("got {other:?}"),
    }
    assert_eq!(
        handshake_failure("x.test", None, Some(seen), "eof"),
        ClientError::Connect("tls handshake: eof".to_string())
    );
}

#[test]
fn a_request_fits_the_cap_or_is_refused() {
    assert_eq!(request_for("gemini://h/").unwrap(), "gemini://h/\r\n");
    let long = format!("gemini://h/{}", "a".repeat(1011));
    assert_eq!(long.len() + 2, 1024);
    assert!(request_for(&long).is_ok());
    let longer = format!("{long}a");
    assert_eq!(
        request_for(&longer),
        Err(ClientError::Protocol("request exceeds 1024 bytes".to_string()))
    );
    let parts = UrlParts {
        scheme: "gemini".into(),
        host: Some("h".into()),
        port: None,
        path: "/".into(),
        query: None,
        username: String::new(),
        fragment: None,
    };
    assert_eq!(target(&parts).unwrap(), ("h".to_string(), 1965));
    assert_eq!(
        titan::target(&UrlParts { host: None, ..parts.clone() }),
        Err(ClientError::BadUrl("titan URL has no host".to_string()))
    );
    assert_eq!(ClientError::Io("x".into()).to_string(), "io: x");
}

#[test]
fn a_bad_response_header_names_its_fault() {
    assert_eq!(
        parse_response(b"20 text/gemini"),
        Err(ClientError::Protocol("response header has no CRLF".to_string()))
    );
    assert_eq!(
        parse_response(b"x1 hm\r\n"),
        Err(ClientError::Protocol("bad gemini status: \"x1 hm\"".to_string()))
    );
    assert_eq!(
        parse_response(b"90 ?\r\n"),
        Err(ClientError::Protocol("unknown gemini status class: 90".to_string()))
    );
}

#[test]
fn a_fetch_is_planned_from_the_text_of_its_url() {
    assert_eq!(plan_fetch("gemini://example.org/x").unwrap(), ("example.org".to_string(), 1965));
    assert_eq!(plan_fetch("gemini://example.org:1966/").unwrap(), ("example.org".to_string(), 1966));
    assert_eq!(
        plan_fetch("gemini:nowhere"),
        Err(ClientError::BadUrl("gemini URL has no host".into()))
    );
    assert_eq!(
        plan_fetch("no scheme here"),
        Err(ClientError::BadUrl("relative URL without a base".into()))
    );
}

#[test]
fn an_upload_is_planned_from_the_text_of_its_url() {
    assert_eq!(titan::plan_upload("titan://example.org/up").unwrap(), ("example.org".to_string(), 1965));
    assert_eq!(titan::plan_upload("titan://example.org:2000/up").unwrap(), ("example.org".to_string(), 2000));
    assert_eq!(
        titan::plan_upload("titan:nowhere"),
        Err(ClientError::BadUrl("titan URL has no host".into()))
    );
}
