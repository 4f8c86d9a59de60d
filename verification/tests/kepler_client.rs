use smolweb::kepler::client::{
    header_of, plan_body, plan_fetch, take_header_byte, BodyPlan, ClientError, Response,
    DEFAULT_PORT, DEFAULT_TLS_PORT,
};
use smolweb::kepler::wire::Status;

/// Reads a response the way a client does: the header line byte by byte,
/// then as much body as the header calls for.
fn read(raw: &[u8]) -> Response {
    let mut line = Vec::new();
    let mut at = 0;
    loop {
        let byte = raw.get(at).copied();
        at += 1;
        if take_header_byte(&mut line, byte).unwrap() {
            break;
        }
    }
    let header = header_of(&line).unwrap();
    let rest = &raw[at.min(raw.len())..];
    let body = match plan_body(&header) {
        BodyPlan::Exact(n) => rest[..(n as usize).min(rest.len())].to_vec(),
        BodyPlan::ToEnd => rest.to_vec(),
        BodyPlan::Empty => Vec::new(),
    };
    Response { header, body }
}

#[test]
fn client_a_declared_length_is_read_exactly() {
    let response = read(b"20 5 -1 -1 text/plain\r\nhellotrailing-garbage");
    assert_eq!(response.body, b"hello", "stopped at the declared length");
    assert_eq!(response.mime(), Some("text/plain"));
}

#[test]
fn an_unknown_length_reads_to_the_end_of_the_stream() {
    let response = read(b"20 -1 -1 -1 text/gemini\r\n# All of it\n");
    assert_eq!(response.body, b"# All of it\n");
}

#[test]
fn a_cache_hit_carries_no_body() {
    let response = read(b"70 1777759482\r\n");
    assert_eq!(response.header.status(), Status::Unchanged);
    assert!(response.body.is_empty());
    assert_eq!(response.cache(), None, "a 7x carries no cache block");
}

#[test]
fn a_failure_carries_its_message_and_no_body() {
    let response = read(b"51 not found\r\nignored");
    assert_eq!(response.header.status(), Status::PermanentFailure);
    assert!(response.body.is_empty());
}

#[test]
fn a_fragment_is_refused_before_connecting() {
    let error = plan_fetch("kepler://example.net/a#frag", 0, "en").unwrap_err();
    assert!(matches!(error, ClientError::BadUrl(_)), "got {error:?}");
}

#[test]
fn client_another_scheme_is_refused() {
    let error = plan_fetch("gemini://example.net/", 0, "en").unwrap_err();
    assert!(matches!(error, ClientError::BadUrl(_)), "got {error:?}");
    assert_eq!(error.to_string(), "bad url: scheme gemini is not kepler");
}

#[test]
fn the_scheme_picks_the_port_and_tls() {
    let (target, line) = plan_fetch("kepler://example.net/a", 100, "en").unwrap();
    assert_eq!((target.host.as_str(), target.port, target.secure), ("example.net", DEFAULT_PORT, false));
    assert_eq!(line, "kepler://example.net/a 100 en\r\n");
    let (target, _) = plan_fetch("keplers://example.net/", 0, "en").unwrap();
    assert_eq!((target.port, target.secure), (DEFAULT_TLS_PORT, true));
    let long = format!("kepler://example.net/{}", "a".repeat(1024));
    assert_eq!(
        plan_fetch(&long, 0, "en").unwrap_err(),
        ClientError::BadUrl("URI exceeds 1024 bytes".to_string())
    );
    let mut line = vec![b'a'; 1024];
    assert_eq!(
        take_header_byte(&mut line, Some(b'b')).unwrap_err(),
        ClientError::Protocol("header line is unreasonable".to_string())
    );
    assert_eq!(
        header_of(&[0xff]).unwrap_err(),
        ClientError::Protocol("header is not UTF-8".to_string())
    );
}
