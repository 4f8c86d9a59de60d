use smolweb::gemini::client::ClientError as GeminiError;
use smolweb::scroll::client::{line_text, plan_fetch, take_line_byte, target, ClientError, Response};
use smolweb::scroll::wire::{finish_success, parse_status_line, request_line, Header, Status, UdcClass};
use smolweb::urls::UrlParts;

/// Reads one line before the body from `raw` at `at`.
fn read_line(raw: &[u8], at: &mut usize) -> String {
    let mut line = Vec::new();
    loop {
        let byte = raw.get(*at).copied();
        *at += 1;
        if take_line_byte(&mut line, byte).unwrap() {
            break;
        }
    }
    line_text(&line).unwrap()
}

/// Reads a response the way a client does.
fn read(raw: &[u8]) -> Response {
    let mut at = 0;
    let status_line = read_line(raw, &mut at);
    let (code, status, meta) = parse_status_line(&status_line).unwrap();
    if status != Status::Success {
        return Response { header: Header::Meta { code, status, meta }, body: Vec::new() };
    }
    let author = read_line(raw, &mut at);
    let published = read_line(raw, &mut at);
    let modified = read_line(raw, &mut at);
    let body = raw[at.min(raw.len())..].to_vec();
    Response {
        header: Header::Success(finish_success(code, meta, &author, &published, &modified)),
        body,
    }
}

#[test]
fn a_success_reads_its_three_metadata_lines_then_the_body() {
    assert_eq!(
        request_line("scroll://example.net/spec.scroll", &["en-US", "en"], false),
        "scroll://example.net/spec.scroll en-US,en\r\n"
    );
    let response = read(
        b"20 text/scroll\r\n\
          Christian Lee Seibold\r\n\
          2025-07-23T20:50:51Z\r\n\
          2024-08-03T14:11:29Z\r\n\
          # Scroll Protocol Speculative Specification\n",
    );
    let Header::Success(header) = &response.header else {
        panic!("expected success, got {:?}", response.header);
    };
    assert_eq!(header.mimetype, "text/scroll");
    assert_eq!(header.author.as_deref(), Some("Christian Lee Seibold"));
    assert_eq!(header.published.as_deref(), Some("2025-07-23T20:50:51Z"));
    assert_eq!(header.modified.as_deref(), Some("2024-08-03T14:11:29Z"));
    assert_eq!(header.class(), Some(UdcClass::Science));
    assert_eq!(response.body, b"# Scroll Protocol Speculative Specification\n");
}

#[test]
fn blank_metadata_lines_arrive_as_none() {
    let response = read(b"24 text/plain\r\n\r\n\r\n\r\nhello\n");
    let Header::Success(header) = &response.header else {
        panic!("expected success");
    };
    assert_eq!(header.author, None);
    assert_eq!(header.published, None);
    assert_eq!(header.modified, None);
    assert_eq!(header.class(), Some(UdcClass::General));
    assert_eq!(response.body, b"hello\n");
}

#[test]
fn a_metadata_request_carries_the_plus_flag() {
    assert_eq!(request_line("scroll://x/doc", &["en"], true), "scroll://x/doc +en\r\n");
    let response = read(b"20 text/scroll\r\nAuthor\r\n\r\n\r\n# Title\n");
    assert_eq!(response.body, b"# Title\n", "the abstract is the body");
}

#[test]
fn an_input_status_carries_its_prompt_and_no_metadata_lines() {
    let response = read(b"11 Passphrase?\r\n");
    assert_eq!(
        response.header,
        Header::Meta { code: 11, status: Status::Input, meta: "Passphrase?".into() }
    );
    assert!(response.body.is_empty());
}

#[test]
fn a_scroll_url_leads_to_its_host_and_port() {
    let mut parts = UrlParts {
        scheme: "scroll".into(),
        host: Some("x".into()),
        port: None,
        path: "/".into(),
        query: None,
        username: String::new(),
        fragment: None,
    };
    assert_eq!(target(&parts).unwrap(), ("x".to_string(), 5699));
    parts.scheme = "gemini".into();
    assert_eq!(
        target(&parts).unwrap_err(),
        ClientError::BadUrl("scheme gemini is not scroll".to_string())
    );
    assert_eq!(
        ClientError::from_gemini(GeminiError::Io("eof".into())).to_string(),
        "io: eof"
    );
    let mut long = vec![b'a'; 4096];
    assert!(take_line_byte(&mut long, Some(b'a')).is_err());
    assert!(line_text(&[0xc3]).is_err());
}

#[test]
fn a_scroll_fetch_is_planned_from_the_text_of_its_url() {
    assert_eq!(plan_fetch("scroll://example.net/doc").unwrap(), ("example.net".to_string(), 5699));
    assert_eq!(plan_fetch("scroll://example.net:7000/").unwrap(), ("example.net".to_string(), 7000));
    assert_eq!(
        plan_fetch("gemini://example.net/"),
        Err(ClientError::BadUrl("scheme gemini is not scroll".into()))
    );
    assert_eq!(plan_fetch("scroll:nowhere"), Err(ClientError::BadUrl("scroll URL has no host".into())));
}
