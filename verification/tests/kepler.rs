use smolweb::kepler::wire::{
    format_header, parse_header, parse_request, request_line, CacheInfo, Header, MalformedHeader,
    Request, Status, MAX_URI,
};

#[test]
fn the_specifications_own_success_example_parses() {
    let header = parse_header("20 1548 1777745482 1777759482 text/markdown").unwrap();
    assert_eq!(
        header,
        Header::Success {
            code: 20,
            cache: CacheInfo {
                length: 1548,
                last_updated: 1_777_745_482,
                expires: 1_777_759_482,
            },
            mimetype: "text/markdown".into(),
        }
    );
}

#[test]
fn minus_one_is_unknown_and_survives_the_round_trip() {
    let header = parse_header("20 -1 -1 -1 text/gemini").unwrap();
    let Header::Success { cache, .. } = &header else {
        panic!("expected success");
    };
    assert!(!cache.has_length(), "-1 length means read to end of stream");
    assert_eq!(format_header(&header), "20 -1 -1 -1 text/gemini\r\n");
}

#[test]
fn a_mimetype_keeps_its_parameters() {
    let header = parse_header("20 5 -1 -1 text/gemini; charset=utf-8").unwrap();
    let Header::Success { mimetype, .. } = header else {
        panic!("expected success");
    };
    assert_eq!(mimetype, "text/gemini; charset=utf-8");
}

#[test]
fn the_cache_hit_class_carries_only_an_expiry() {
    let header = parse_header("70 1777759482").unwrap();
    assert_eq!(
        header,
        Header::Unchanged {
            code: 70,
            expires: 1_777_759_482
        }
    );
    assert_eq!(header.status(), Status::Unchanged);
}

#[test]
fn every_other_class_is_a_code_and_a_message() {
    for (line, code, status) in [
        ("10 Your name?", 10, Status::Input),
        ("31 kepler://example.net/moved", 31, Status::Redirect),
        ("44 slow down", 44, Status::TemporaryFailure),
        ("51 not found", 51, Status::PermanentFailure),
        ("61 certificate required", 61, Status::AuthRequired),
    ] {
        let header = parse_header(line).unwrap();
        assert_eq!(header.code(), code);
        assert_eq!(header.status(), status);
    }
}

#[test]
fn a_message_is_optional() {
    let header = parse_header("44").unwrap();
    assert_eq!(header.code(), 44);
    assert_eq!(format_header(&header), "44\r\n");
}

#[test]
fn codes_outside_ten_to_seventy_nine_are_refused() {
    assert!(parse_header("09 nope").is_err());
    assert!(parse_header("80 nope").is_err());
    assert!(parse_header("99 nope").is_err());
}

#[test]
fn a_success_missing_its_metadata_is_refused() {
    assert!(parse_header("20 text/gemini").is_err());
    assert!(parse_header("20 1548 1777745482 text/gemini").is_err());
    assert!(parse_header("20 1548 1777745482 1777759482").is_err());
}

#[test]
fn a_non_numeric_status_is_refused() {
    assert!(parse_header("xx nope").is_err());
    assert!(parse_header("").is_err());
}

#[test]
fn the_request_line_matches_the_specifications_example() {
    assert_eq!(
        request_line("keplers://example.net/index.md", 0, "en"),
        "keplers://example.net/index.md 0 en\r\n"
    );
}

#[test]
fn what_the_client_writes_the_server_reads_back() {
    let line = request_line("kepler://example.net/a", 1_777_745_482, "en-GB");
    assert_eq!(
        parse_request(&line).unwrap(),
        Request {
            uri: "kepler://example.net/a".into(),
            last_cached: 1_777_745_482,
            language: "en-GB".into(),
        }
    );
}

#[test]
fn a_bare_uri_is_still_a_request() {
    let request = parse_request("kepler://example.net/a\r\n").unwrap();
    assert_eq!(request.last_cached, 0);
    assert_eq!(request.language, "");
}

#[test]
fn an_over_long_request_is_refused_at_the_specifications_cap() {
    let long = format!("kepler://example.net/{}", "x".repeat(MAX_URI));
    assert!(parse_request(&long).is_err());
}

#[test]
fn headers_round_trip_through_both_directions() {
    for line in [
        "20 1548 1777745482 1777759482 text/markdown",
        "70 1777759482",
        "31 kepler://example.net/moved",
        "51 not found",
    ] {
        let header = parse_header(line).unwrap();
        let rendered = format_header(&header);
        assert_eq!(rendered, format!("{line}\r\n"));
        assert_eq!(parse_header(&rendered).unwrap(), header);
    }
}

// ── Further cases ──────────────────────────────────────────────────────────────────────────────────────────────────

#[test]
fn the_documented_success_example_reads_field_by_field() {
    match parse_header("20 1548 1777745482 1777759482 text/markdown").unwrap() {
        Header::Success { code, cache, mimetype } => {
            assert_eq!(code, 20);
            assert_eq!(cache.length, 1548);
            assert_eq!(cache.expires, 1777759482);
            assert_eq!(mimetype, "text/markdown");
            assert!(cache.has_length());
        },
        other => panic!("expected a success, got {other:?}"),
    }
}

#[test]
fn a_malformed_header_keeps_its_line() {
    assert_eq!(parse_header("20 x 1 2 text/plain\r\n"), Err(MalformedHeader("20 x 1 2 text/plain".into())));
    assert_eq!(parse_header("70 soon"), Err(MalformedHeader("70 soon".into())));
    assert_eq!(parse_header("20 1 2 3  "), Err(MalformedHeader("20 1 2 3  ".into())));
    assert_eq!(MalformedHeader("q".into()).to_string(), "malformed kepler header: q");
}

#[test]
fn signed_extremes_and_a_negative_cache_time_round_trip() {
    let header = Header::Success {
        code: 29,
        cache: CacheInfo { length: i64::MAX, last_updated: i64::MIN, expires: 0 },
        mimetype: "a b".into(),
    };
    let line = format_header(&header);
    assert_eq!(line, format!("29 {} {} 0 a b\r\n", i64::MAX, i64::MIN));
    assert_eq!(parse_header(&line).unwrap(), header);
    let line = request_line("kepler://x/", -5, "");
    assert_eq!(line, "kepler://x/ -5 \r\n");
    assert_eq!(
        parse_request(&line).unwrap(),
        Request { uri: "kepler://x/".into(), last_cached: -5, language: String::new() }
    );
}

#[test]
fn a_request_with_a_bad_time_or_no_uri_is_refused() {
    assert_eq!(parse_request("kepler://x/ soon en"), Err(MalformedHeader("kepler://x/ soon en".into())));
    assert_eq!(parse_request(" 0 en\r\n"), Err(MalformedHeader(" 0 en".into())));
    let long = format!("kepler://example.net/{}", "x".repeat(MAX_URI));
    assert_eq!(parse_request(&long), Err(MalformedHeader("request exceeds 1024 bytes".into())));
    let exact = "k".repeat(MAX_URI);
    assert!(parse_request(&format!("{exact}\r\n")).is_ok());
    assert_eq!(Status::from_code(80), None);
}
