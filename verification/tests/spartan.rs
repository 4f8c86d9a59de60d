use smolweb::spartan::client::{parse_response, request_line, split_url, ClientError, Response};
use smolweb::spartan::files::{mime_for, resolve};
use smolweb::spartan::server::{line_progress, parse_request_line, LineProgress, SpartanResponse};
use smolweb::spartan::{parse_prompt_line, Status, SPARTAN_PORT};

#[test]
fn statuses_round_trip() {
    for code in [2u8, 3, 4, 5] {
        assert_eq!(Status::from_code(code).unwrap().code(), code);
    }
    assert!(Status::from_code(6).is_none());
}

#[test]
fn prompt_lines_parse_with_and_without_labels() {
    assert_eq!(
        parse_prompt_line("=: /guestbook/submit Sign the guestbook"),
        Some(("/guestbook/submit", Some("Sign the guestbook")))
    );
    assert_eq!(parse_prompt_line("=:/upload"), Some(("/upload", None)));
    assert_eq!(parse_prompt_line("=> /link"), None);
    assert_eq!(parse_prompt_line("=:"), None);
}

#[test]
fn a_prompt_label_of_only_whitespace_is_none() {
    assert_eq!(parse_prompt_line("=:  /x   "), Some(("/x", None)));
    assert_eq!(parse_prompt_line("=: /x\t  a b  "), Some(("/x", Some("a b"))));
}

#[test]
fn statuses_print_digit_and_name() {
    assert_eq!(Status::Success.to_string(), "2 (success)");
    assert_eq!(Status::ServerError.to_string(), "5 (server error)");
}

#[test]
fn urls_map_to_request_components_per_spec_table() {
    let (host, port, path, data) = split_url("spartan://example.com").unwrap();
    assert_eq!((host.as_str(), port, path.as_str()), ("example.com", 300, "/"));
    assert!(data.is_none());

    let (_, port, ..) = split_url("spartan://example.com:3000/").unwrap();
    assert_eq!(port, 3000);

    let (host, ..) = split_url("spartan://examplé.com/").unwrap();
    assert_eq!(host, "xn--exampl-gva.com", "IDN hosts convert to punycode");

    let (_, _, path, _) = split_url("spartan://example.com/my%20file.txt").unwrap();
    assert_eq!(path, "/my%20file.txt", "paths stay %-encoded");

    let (_, _, _, data) = split_url("spartan://example.com?a=1&b=2").unwrap();
    assert_eq!(data.unwrap(), b"a=1&b=2");

    let (_, _, _, data) = split_url("spartan://example.com?hello%20world").unwrap();
    assert_eq!(data.unwrap(), b"hello world", "query %-decodes into the data block");
}

#[test]
fn another_scheme_or_no_url_is_a_bad_url() {
    match split_url("gemini://example.com/") {
        Err(ClientError::BadUrl(m)) => assert_eq!(m, "expected spartan:// scheme, got gemini://"),
        other => panic!("got {other:?}"),
    }
    assert!(matches!(split_url("nonsense"), Err(ClientError::BadUrl(_))));
    assert_eq!(SPARTAN_PORT, 300);
}

#[test]
fn a_request_line_names_host_path_and_length() {
    assert_eq!(request_line("example.com", "/", 0), "example.com / 0\r\n");
    assert_eq!(
        parse_request_line(request_line("example.com", "/up", 12).as_bytes(), 100),
        Ok(("example.com".to_string(), "/up".to_string(), 12))
    );
}

#[test]
fn responses_parse_all_four_statuses() {
    let success = parse_response(b"2 text/gemini\r\n# Hi\n").unwrap();
    assert_eq!(success.status, Status::Success);
    assert_eq!(success.meta, "text/gemini");
    assert_eq!(success.body, b"# Hi\n");

    let redirect = parse_response(b"3 /new/path/\r\n").unwrap();
    assert_eq!(redirect.redirect_path(), Some("/new/path/"));
    assert!(redirect.body.is_empty());

    assert_eq!(parse_response(b"4 not found\r\n").unwrap().status, Status::ClientError);
    assert_eq!(parse_response(b"5 boom\r\n").unwrap().status, Status::ServerError);
}

#[test]
fn malformed_responses_are_protocol_errors() {
    assert!(parse_response(b"2 text/plain").is_err(), "no CRLF");
    assert!(parse_response(b"9 what\r\n").is_err(), "unknown digit");
    assert!(parse_response(b"abc\r\n").is_err(), "non-numeric");
}

#[test]
fn protocol_errors_say_what_was_wrong() {
    let message = |raw: &[u8]| match parse_response(raw) {
        Err(ClientError::Protocol(m)) => m,
        other => panic!("got {other:?}"),
    };
    assert_eq!(message(b"2 text/plain"), "status line has no CRLF");
    assert_eq!(message(b"\xff\r\n"), "status line is not UTF-8");
    assert_eq!(message(b"9 what\r\n"), "unknown status digit: 9");
    assert_eq!(message(b"ab\"c\r\n"), "bad status line: \"ab\\\"c\"");
    let e = ClientError::BodyTooLarge { max: 16 };
    assert_eq!(e.to_string(), "spartan response body exceeds 16 bytes");
    assert_eq!(ClientError::Timeout("connect").to_string(), "spartan connect timed out");
    let r = Response { status: Status::Success, meta: "x".into(), body: vec![] };
    assert_eq!(r.redirect_path(), None);
}

#[test]
fn responses_encode_as_digit_meta_and_body() {
    let ok = SpartanResponse::Success { mime: "text/gemini".into(), body: b"# Hi\n".to_vec() };
    assert_eq!(ok.encode(), b"2 text/gemini\r\n# Hi\n".to_vec());
    let parsed = parse_response(&ok.encode()).unwrap();
    assert_eq!(parsed.body, b"# Hi\n");
    let moved = SpartanResponse::Redirect { path: "/new/".into() };
    assert_eq!(moved.encode(), b"3 /new/\r\n".to_vec());
    assert_eq!(moved.status(), Status::Redirect);
}

#[test]
fn request_lines_are_refused_with_the_servers_messages() {
    assert_eq!(parse_request_line(b"\xff / 0\r\n", 10), Err("Request line is not ASCII.".into()));
    assert_eq!(parse_request_line(b"h /\r\n", 10), Err("Malformed request line.".into()));
    assert_eq!(parse_request_line(b"h:70 / 0\r\n", 10), Err("Malformed host.".into()));
    assert_eq!(parse_request_line(b" / 0\r\n", 10), Err("Malformed host.".into()));
    assert_eq!(
        parse_request_line(b"[::1] / 0\r\n", 10),
        Ok(("[::1]".to_string(), "/".to_string(), 0))
    );
    assert_eq!(parse_request_line(b"h x 0\r\n", 10), Err("Path must be absolute.".into()));
    assert_eq!(parse_request_line(b"h / ten\r\n", 10), Err("Malformed content-length.".into()));
    assert_eq!(
        parse_request_line(b"h / 11\r\n", 10),
        Err("Data block exceeds this server's limit of 10 bytes.".into())
    );
}

#[test]
fn reading_a_request_line_stops_at_crlf_or_the_cap() {
    assert_eq!(line_progress(b"h / 0\r\n", 4096), LineProgress::Complete);
    assert_eq!(line_progress(b"h / 0\r", 4096), LineProgress::More);
    assert_eq!(line_progress(b"abcd", 4), LineProgress::TooLong);
}

#[test]
fn resolve_maps_paths_and_refuses_escapes() {
    assert_eq!(resolve("/notes.txt").unwrap(), vec!["notes.txt".to_string()]);
    assert_eq!(resolve("/").unwrap(), vec!["index.gmi".to_string()]);
    assert_eq!(resolve("/sub/").unwrap(), vec!["sub".to_string(), "index.gmi".to_string()]);
    assert!(resolve("/../etc/passwd").is_none());
    assert!(resolve("/%2e%2e/etc/passwd").is_none(), "encoded dots");
    assert!(resolve("/a%5Cb").is_none(), "backslash segments");
}

#[test]
fn dot_segments_and_an_empty_path_resolve_to_the_index() {
    assert_eq!(resolve("").unwrap(), vec!["index.gmi".to_string()]);
    assert_eq!(resolve("/./a//b").unwrap(), vec!["a".to_string(), "b".to_string()]);
    assert!(resolve("/c:d").is_none());
    assert!(resolve("/%ff").is_none(), "not UTF-8");
}

#[test]
fn mime_table_prefers_gemtext() {
    assert_eq!(mime_for("index.gmi"), "text/gemini");
    assert_eq!(mime_for("a.txt"), "text/plain");
    assert_eq!(mime_for("README"), "text/plain");
    assert_eq!(mime_for("x.bin"), "application/octet-stream");
}

#[test]
fn extensions_ignore_case_and_a_leading_dot() {
    assert_eq!(mime_for("PHOTO.JPG"), "image/jpeg");
    assert_eq!(mime_for(".gmi"), "text/plain");
    assert_eq!(mime_for("a.tar.GZ"), "application/octet-stream");
}
