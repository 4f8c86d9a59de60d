use smolweb::scorpion::client::{authority, plan_body, truncated, BodyPlan, ClientError, Limits};
use smolweb::scorpion::request::{Parameter, Range, Request, RequestError, Subprotocol};
use smolweb::scorpion::response::{Header, ResponseError, RetryAfter, ScopeMatch, Size};
use smolweb::scorpion::server::{line_text, operation, refusal, take_line_byte, LineStep, Operation, Reply};
use smolweb::scorpion::status::Status;

#[test]
fn a_plain_receive_round_trips() {
    let request = Request::receive("scorpion://example.com/");
    assert_eq!(request.to_wire(), b"R scorpion://example.com/\r\n");
    assert_eq!(
        Request::parse("R scorpion://example.com/\r\n").unwrap(),
        request
    );
}

#[test]
fn a_range_end_is_exclusive() {
    let range = Range::parse("3-9").unwrap();
    assert_eq!(range.start, 3);
    assert_eq!(range.end, Some(9));
    assert_eq!(range.len(), Some(6));
}

#[test]
fn an_open_ended_range_round_trips() {
    let request = Request::receive_range("scorpion://example.com/big", Range::from(4096));
    assert_eq!(request.to_wire(), b"R4096- scorpion://example.com/big\r\n");
    let parsed = Request::parse("R4096- scorpion://example.com/big").unwrap();
    assert_eq!(parsed.parameter, Parameter::Range(Range::from(4096)));
}

#[test]
fn a_send_parameter_splits_hmac_from_version() {
    let parsed = Request::parse("Sabc123@v7 scorpion://example.com/page").unwrap();
    assert_eq!(
        parsed.parameter,
        Parameter::Hmac {
            hmac: "abc123".into(),
            version: "v7".into()
        }
    );
    let empty = Request::parse("Sabc123@ scorpion://example.com/page").unwrap();
    assert_eq!(
        empty.parameter,
        Parameter::Hmac {
            hmac: "abc123".into(),
            version: String::new()
        }
    );
}

#[test]
fn a_send_without_an_at_sign_is_a_bare_version() {
    let parsed = Request::parse("Sv7 scorpion://example.com/page").unwrap();
    assert_eq!(parsed.parameter, Parameter::Version("v7".into()));
}

#[test]
fn the_same_bytes_mean_different_things_per_subprotocol() {
    assert_eq!(
        Parameter::parse(Subprotocol::Receive, "3-9").unwrap(),
        Parameter::Range(Range::new(3, 9))
    );
    assert_eq!(
        Parameter::parse(Subprotocol::Meta, "3-9").unwrap(),
        Parameter::DesiredType("3-9".into())
    );
}

#[test]
fn a_relative_url_is_refused() {
    assert_eq!(
        Request::parse("R /just/a/path"),
        Err(RequestError::RelativeUrl)
    );
    assert_eq!(
        Request::parse("R example.com/path"),
        Err(RequestError::RelativeUrl)
    );
}

#[test]
fn the_fragment_never_reaches_the_server() {
    let request = Request::receive("scorpion://example.com/doc#section-3");
    assert_eq!(request.to_wire(), b"R scorpion://example.com/doc\r\n");
}

#[test]
fn an_unknown_subprotocol_is_named_as_such() {
    assert_eq!(
        Request::parse("G scorpion://example.com/"),
        Err(RequestError::UnknownSubprotocol)
    );
}

#[test]
fn a_malformed_range_is_refused_rather_than_silently_dropped() {
    assert_eq!(
        Request::parse("Rbanana scorpion://example.com/"),
        Err(RequestError::MalformedRange)
    );
}

#[test]
fn interactive_capabilities_are_carried_verbatim() {
    let parsed = Request::parse("IL1x80;24 scorpion://example.com/shell").unwrap();
    assert_eq!(parsed.parameter, Parameter::Capabilities("L1x80;24".into()));
    assert_eq!(parsed.to_wire(), b"IL1x80;24 scorpion://example.com/shell\r\n");
}

#[test]
fn ranges_render_with_and_without_an_end() {
    assert_eq!(Range::new(3, 9).to_string(), "3-9");
    assert_eq!(Range::from(4096).to_string(), "4096-");
    assert_eq!(Range::new(9, 3).len(), Some(0));
    assert!(Range::new(5, 5).is_empty());
    assert!(!Range::from(5).is_empty());
    assert_eq!(Range::parse("-3"), None);
    assert_eq!(Range::parse("3"), None);
    assert_eq!(
        Parameter::Hmac { hmac: "h".into(), version: "v".into() }.render(),
        "h@v"
    );
}

#[test]
fn a_request_without_a_url_is_malformed() {
    assert_eq!(Request::parse(""), Err(RequestError::Malformed));
    assert_eq!(Request::parse("R"), Err(RequestError::Malformed));
    assert_eq!(Request::parse("R "), Err(RequestError::Malformed));
    assert_eq!(Request::meta("a:b").to_wire(), b"M a:b\r\n");
    assert_eq!(
        Request::send("a:b", Some("v2".to_string())).to_wire(),
        b"Sv2 a:b\r\n"
    );
    assert_eq!(Request::interactive("a:b", None).to_wire(), b"I a:b\r\n");
}

#[test]
fn a_success_line_parses_size_type_and_version() {
    let header = Header::parse("20 1234 text/plain;charset=utf-8 v7\r\n").unwrap();
    assert_eq!(header.status, Status::OK());
    let success = header.success().unwrap().unwrap();
    assert_eq!(success.size, Size::Known(1234));
    assert_eq!(success.media_type, "text/plain;charset=utf-8");
    assert_eq!(success.version, Some("v7"));
}

#[test]
fn a_dynamic_file_may_decline_to_state_its_size() {
    let header = Header::parse("20 ? text/scorpion").unwrap();
    let success = header.success().unwrap().unwrap();
    assert_eq!(success.size, Size::Unknown);
    assert_eq!(success.size.known(), None);
}

#[test]
fn a_partial_response_reports_the_whole_file_size() {
    let header = Header::parse("21 100000 application/octet-stream").unwrap();
    assert_eq!(header.status, Status::PARTIAL());
    assert_eq!(header.success().unwrap().unwrap().size, Size::Known(100000));
}

#[test]
fn a_deleted_file_accepts_with_no_parameters_at_all() {
    let header = Header::parse("81").unwrap();
    assert_eq!(header.parameters, Vec::<String>::new());
    assert!(header.success().unwrap().is_ok());
}

#[test]
fn typed_accessors_refuse_to_read_the_wrong_class() {
    let header = Header::parse("44 30 slow down").unwrap();
    assert!(header.success().is_none());
    assert!(header.redirect().is_none());
    let (retry, message) = header.temporary_error().unwrap();
    assert_eq!(retry, RetryAfter::Seconds(30));
    assert_eq!(message, Some("slow down"));
}

#[test]
fn a_retry_estimate_beyond_31_bits_is_out_of_spec() {
    let header = Header::parse("40 4294967295 too big").unwrap();
    let (retry, _) = header.temporary_error().unwrap();
    assert_eq!(
        retry,
        RetryAfter::Unknown,
        "a value the spec forbids degrades to 'no estimate', not to a wrong one"
    );
}

#[test]
fn a_certificate_scope_splits_its_match_character() {
    let header = Header::parse("60 */private/ a member certificate is needed").unwrap();
    let (scope, explanation) = header.certificate_request().unwrap();
    let scope = scope.unwrap();
    assert_eq!(scope.match_kind, ScopeMatch::Prefix);
    assert_eq!(scope.url, "/private/");
    assert_eq!(explanation, Some("a member certificate is needed"));
}

#[test]
fn an_empty_scope_url_means_the_current_url() {
    let header = Header::parse("60 = this exact page only").unwrap();
    let (scope, _) = header.certificate_request().unwrap();
    let scope = scope.unwrap();
    assert_eq!(scope.match_kind, ScopeMatch::Exact);
    assert_eq!(scope.url, "", "empty means the current URL");
}

#[test]
fn a_redirect_carries_its_target() {
    let header = Header::parse("31 scorpion://example.com/moved").unwrap();
    assert_eq!(header.redirect(), Some("scorpion://example.com/moved"));
}

#[test]
fn an_error_message_keeps_its_spaces() {
    let header = Header::parse("51 no such file, maybe it is at Area 51").unwrap();
    assert_eq!(
        header.message(),
        Some("no such file, maybe it is at Area 51")
    );
}

#[test]
fn headers_round_trip() {
    for line in [
        "20 1234 text/plain",
        "31 scorpion://example.com/moved",
        "44 30 slow down",
        "60 */private/ certificate needed",
        "00",
    ] {
        let header = Header::parse(line).unwrap();
        let rendered = header.to_wire();
        assert_eq!(
            String::from_utf8(rendered).unwrap(),
            format!("{line}\r\n"),
            "round trip of {line:?}"
        );
    }
}

#[test]
fn class_nine_is_refused() {
    assert_eq!(
        Header::parse("90 whatever"),
        Err(ResponseError::UnknownStatusClass)
    );
}

#[test]
fn every_header_error_has_its_input() {
    assert_eq!(Header::parse("2"), Err(ResponseError::Malformed));
    assert_eq!(Header::parse("2x"), Err(ResponseError::Malformed));
    assert_eq!(Header::parse("20x"), Err(ResponseError::Malformed));
    let missing = Header::parse("20 12").unwrap();
    assert_eq!(missing.success(), Some(Err(ResponseError::MissingParameters)));
    let bad_size = Header::parse("20 twelve text/plain").unwrap();
    assert_eq!(bad_size.success(), Some(Err(ResponseError::MalformedSize)));
    assert_eq!(Header::parse("10 name?").unwrap().prompt(), Some("name?"));
    assert_eq!(Header::parse("41 ? back soon").unwrap().message(), Some("back soon"));
    let (retry, _) = Header::parse("41 ? back soon").unwrap().temporary_error().unwrap();
    assert_eq!(retry.seconds(), None);
}

#[test]
fn a_reply_renders_its_header_and_body() {
    let content = Reply::Content {
        body: b"0123456789".to_vec(),
        media_type: "text/plain".into(),
        version: Some("v2".into()),
    };
    assert_eq!(content.to_wire(), b"20 10 text/plain v2\r\n0123456789".to_vec());
    let partial = Reply::Partial { body: b"234".to_vec(), total: 10, media_type: "text/plain".into() };
    let (header, body) = partial.render();
    assert_eq!(header.status.code(), 21);
    assert_eq!(header.parameters, vec!["10".to_string(), "text/plain".to_string()]);
    assert_eq!(body, b"234");
    assert_eq!(
        Reply::Redirect { url: "scorpion://h/new".into(), permanent: true }.to_wire(),
        b"31 scorpion://h/new\r\n".to_vec()
    );
    assert_eq!(
        Reply::Redirect { url: "/x".into(), permanent: false }.to_wire(),
        b"30 /x\r\n".to_vec()
    );
    assert_eq!(Reply::Input("name?".into()).to_wire(), b"10 name?\r\n".to_vec());
    assert_eq!(Reply::not_found().to_wire(), b"51 not found\r\n".to_vec());
    assert_eq!(
        Reply::Status(Status::BAD_REQUEST(), String::new()).to_wire(),
        b"59\r\n".to_vec()
    );
    assert_eq!(Reply::not_implemented("meta").to_wire(), b"59 meta is not implemented\r\n".to_vec());
    match Reply::text("hi") {
        Reply::Content { body, media_type, version } => {
            assert_eq!((body.as_slice(), media_type.as_str(), version), (&b"hi"[..], "text/plain;charset=utf-8", None));
        },
        other => panic!("got {other:?}"),
    }
}

#[test]
fn a_request_is_read_and_routed_to_its_operation() {
    let mut line = Vec::new();
    assert_eq!(take_line_byte(&mut line, None, 4), LineStep::Eof);
    assert_eq!(take_line_byte(&mut line, Some(b'R'), 4), LineStep::More);
    assert_eq!(take_line_byte(&mut line, Some(b'\r'), 4), LineStep::More);
    assert_eq!(take_line_byte(&mut line, None, 4), LineStep::Done);
    assert_eq!(take_line_byte(&mut line, Some(b'\n'), 4), LineStep::Done);
    assert_eq!(line_text(&line), Some("R".to_string()));
    assert_eq!(line_text(&[0xff]), None);
    let mut full = b"abcd".to_vec();
    assert_eq!(take_line_byte(&mut full, Some(b'e'), 4), LineStep::TooLong);
    assert_eq!(full, b"abcd");

    let request = Request::parse("R5-9 scorpion://h/f\r\n").unwrap();
    assert_eq!(
        operation(&request),
        Operation::Receive { url: "scorpion://h/f".into(), range: Some(Range::new(5, 9)) }
    );
    let meta = Request { subprotocol: Subprotocol::Meta, parameter: Parameter::Empty, url: "scorpion://h/".into() };
    assert_eq!(operation(&meta), Operation::Meta { url: "scorpion://h/".into(), desired_type: None });
    match refusal(RequestError::RelativeUrl) {
        Reply::Status(status, message) => {
            assert_eq!(status.code(), 59);
            assert_eq!(message, "request URL has no scheme, and the scheme is mandatory");
        },
        other => panic!("got {other:?}"),
    }
}

#[test]
fn a_header_decides_how_much_body_follows() {
    let limits = Limits { max_body: 100, max_header: 8192 };
    let plan = |line: &str, range: Option<Range>| plan_body(&Header::parse(line).unwrap(), limits, range);
    assert!(matches!(plan("20 10 text/plain\r\n", None), Ok(BodyPlan::Exact(10))));
    assert!(matches!(plan("20 ? text/plain\r\n", None), Ok(BodyPlan::UpTo(100))));
    assert!(matches!(
        plan("20 500 text/plain\r\n", None),
        Err(ClientError::BodyTooLarge { declared: 500, limit: 100 })
    ));
    assert!(matches!(plan("21 5000 text/plain\r\n", Some(Range::new(3, 9))), Ok(BodyPlan::UpTo(6))));
    assert!(matches!(plan("21 5000 text/plain\r\n", Some(Range::from(3))), Ok(BodyPlan::UpTo(100))));
    assert!(matches!(plan("21 5000 text/plain\r\n", Some(Range::new(0, 1000))), Ok(BodyPlan::UpTo(100))));
    assert!(matches!(plan("51 not found\r\n", None), Ok(BodyPlan::Empty)));
    assert!(matches!(
        plan("20 text/plain\r\n", None),
        Err(ClientError::Response(ResponseError::MissingParameters))
    ));
    assert!(matches!(
        plan("20 x text/plain\r\n", None),
        Err(ClientError::Response(ResponseError::MalformedSize))
    ));
    assert_eq!(truncated(10).to_string(), "scorpion: server declared 10 bytes but sent 0");
    assert_eq!(
        ClientError::BodyTooLarge { declared: 500, limit: 100 }.to_string(),
        "scorpion: server declared 500 bytes, over the 100-byte limit"
    );
    assert_eq!(
        ClientError::Response(ResponseError::Malformed).to_string(),
        "scorpion: status line is malformed"
    );
    let defaults = Limits::default();
    assert_eq!((defaults.max_body, defaults.max_header), (32 * 1024 * 1024, 8192));
}

#[test]
fn the_default_port_applies_when_a_url_omits_one() {
    assert_eq!(
        authority("scorpion://example.com/page").unwrap(),
        ("example.com".to_string(), 1517)
    );
    assert_eq!(
        authority("scorpion://example.com:1234/page").unwrap(),
        ("example.com".to_string(), 1234)
    );
}

#[test]
fn a_trailing_space_adds_no_empty_parameter() {
    let header = Header::parse("20 3 text/plain").unwrap();
    let again = Header::parse(std::str::from_utf8(&header.to_wire()).unwrap()).unwrap();
    assert_eq!(again, header);
    assert!(Header::parse("40  ").unwrap().parameters.is_empty());
    assert!(Header::parse("44  ").unwrap().parameters.is_empty());
    assert!(Header::parse("20   ").unwrap().parameters.is_empty());
    assert_eq!(Header::parse("20 3  ").unwrap().parameters, vec!["3".to_string()]);
    assert_eq!(
        Header::parse("20  x").unwrap().parameters,
        vec![String::new(), "x".to_string()]
    );
    // A class without leading fields keeps its whole remainder.
    assert_eq!(Header::parse("50  ").unwrap().parameters, vec![" ".to_string()]);
    for line in ["40  ", "44  ", "20   ", "20 3  ", "20  x", "50  ", "31 a b c "] {
        let header = Header::parse(line).unwrap();
        let again = Header::parse(std::str::from_utf8(&header.to_wire()).unwrap()).unwrap();
        assert_eq!(again, header, "round trip of {line:?}");
    }
}
