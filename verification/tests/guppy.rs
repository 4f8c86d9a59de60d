use smolweb::guppy::client::{on_datagram, on_silence, plan_fetch, settle, ClientError};
use smolweb::guppy::files::{mime_for, resolve};
use smolweb::guppy::packet::{
    encode_ack, encode_continuation, encode_first, parse_client_datagram, parse_packet,
    ClientDatagram, Packet,
};
use smolweb::guppy::server::{
    admission, build_session, first_seq_from, parse_request, random_seq, session_fits,
    special_packet, Admission, SessionTimes, MALFORMED_REQUEST_REPLY,
};
use smolweb::guppy::{GuppyResponse, MAX_SEQ, MIN_SEQ};

#[test]
fn spec_example_packets_parse() {
    assert_eq!(
        parse_packet(b"566837578 text/gemini\r\n# Title 1\n").unwrap(),
        Packet::First { seq: 566_837_578, mime: "text/gemini".to_string(), data: b"# Title 1\n".to_vec() }
    );
    assert_eq!(
        parse_packet(b"566837579\r\nParagraph 1").unwrap(),
        Packet::Continuation { seq: 566_837_579, data: b"Paragraph 1".to_vec() }
    );
    assert_eq!(
        parse_packet(b"566837581\r\n").unwrap(),
        Packet::Continuation { seq: 566_837_581, data: Vec::new() }
    );
    assert_eq!(parse_packet(b"1 Your name\r\n").unwrap(), Packet::Prompt { text: "Your name".to_string() });
    assert_eq!(parse_packet(b"3 /b\r\n").unwrap(), Packet::Redirect { target: "/b".to_string() });
    assert_eq!(
        parse_packet(b"4 No search keywords specified\r\n").unwrap(),
        Packet::Error { message: "No search keywords specified".to_string() }
    );
}

#[test]
fn low_sequence_numbers_with_mime_are_success_not_special() {
    assert!(matches!(parse_packet(b"39 text/plain\r\nhi").unwrap(), Packet::First { seq: 39, .. }));
    assert!(matches!(parse_packet(b"41 text/plain\r\nhi").unwrap(), Packet::First { seq: 41, .. }));
}

#[test]
fn client_datagrams_split_into_acks_and_requests() {
    assert!(matches!(
        parse_client_datagram(b"566837578\r\n").unwrap(),
        ClientDatagram::Ack(566_837_578)
    ));
    assert!(matches!(
        parse_client_datagram(b"guppy://localhost/a\r\n").unwrap(),
        ClientDatagram::Request(url) if url == "guppy://localhost/a"
    ));
}

#[test]
fn encodings_round_trip() {
    let first = encode_first(42, "text/gemini", b"body");
    assert!(matches!(parse_packet(&first).unwrap(), Packet::First { seq: 42, .. }));
    let eof = encode_continuation(43, b"");
    assert_eq!(parse_packet(&eof).unwrap(), Packet::Continuation { seq: 43, data: Vec::new() });
    assert_eq!(encode_ack(42), b"42\r\n");
}

#[test]
fn malformed_packets_say_why() {
    assert_eq!(parse_packet(b"no crlf"), Err("packet has no CRLF".to_string()));
    assert_eq!(parse_packet(b"\xff\r\n"), Err("packet header is not UTF-8".to_string()));
    assert_eq!(parse_packet(b"x1 text/plain\r\n"), Err("bad sequence number: \"x1\"".to_string()));
    assert_eq!(parse_packet(b"7  \r\n"), Err("first packet has an empty MIME type".to_string()));
    assert_eq!(parse_packet(b"seven\r\n"), Err("bad packet header: \"seven\"".to_string()));
    assert_eq!(parse_client_datagram(b"12"), Err("datagram has no CRLF".to_string()));
    assert!(matches!(
        parse_client_datagram(b"12\r\nmore").unwrap(),
        ClientDatagram::Request(line) if line == "12"
    ));
}

#[test]
fn build_session_chunks_and_terminates() {
    let session = build_session("text/plain", b"0123456789", 4);
    assert_eq!(session.packets.len(), 4, "3 data chunks + EOF");
    let seqs: Vec<u32> = session.packets.iter().map(|(seq, _)| *seq).collect();
    assert!(seqs.windows(2).all(|pair| pair[1] == pair[0] + 1));
    assert!(seqs[0] >= MIN_SEQ);
    let (_, eof_wire) = session.packets.last().unwrap();
    assert!(eof_wire.ends_with(b"\r\n"));
}

#[test]
fn random_seq_stays_in_range() {
    for _ in 0..100 {
        let seq = random_seq(1000);
        assert!(seq >= MIN_SEQ && seq <= MAX_SEQ - 1000);
    }
}

#[test]
fn a_session_carries_the_body_in_its_packets() {
    let session = build_session("text/plain", b"0123456789", 4);
    let first = session.packets[0].0;
    assert_eq!(session.packets[0].1, format!("{first} text/plain\r\n0123").into_bytes());
    assert_eq!(session.packets[1].1, format!("{}\r\n4567", first + 1).into_bytes());
    assert_eq!(session.packets[2].1, format!("{}\r\n89", first + 2).into_bytes());
    let empty = build_session("text/plain", b"", 0);
    assert_eq!(empty.packets.len(), 2);
}

#[test]
fn the_window_bounds_what_is_in_flight() {
    let mut session = build_session("text/plain", b"abcdefgh", 2);
    assert_eq!(session.packets.len(), 5);
    let mut sent = Vec::new();
    while let Some(i) = session.next_to_send(2) {
        sent.push(i);
        session.mark_sent();
    }
    assert_eq!(sent, vec![0, 1]);
    let first = session.packets[0].0;
    assert_eq!(session.to_retransmit(), vec![0, 1]);
    assert!(!session.acknowledge(first));
    assert!(!session.acknowledge(first), "a duplicate changes nothing");
    assert_eq!(session.to_retransmit(), vec![1]);
    while let Some(_) = session.next_to_send(2) {
        session.mark_sent();
    }
    for seq in first + 1..first + 5 {
        session.acknowledge(seq);
    }
    while let Some(_) = session.next_to_send(8) {
        session.mark_sent();
    }
    let mut done = false;
    for seq in first..first + 5 {
        done = session.acknowledge(seq);
    }
    assert!(done);
}

#[test]
fn requests_need_a_guppy_url() {
    assert_eq!(parse_request(" guppy://x/a?hello%20world \r\n"), Some(("/a".to_string(), Some("hello world".to_string()))));
    assert_eq!(parse_request("guppy://x"), Some(("/".to_string(), None)));
    assert_eq!(parse_request("gemini://x/"), None);
    assert_eq!(parse_request("nonsense"), None);
    assert_eq!(MALFORMED_REQUEST_REPLY, "4 Malformed request URL.\r\n");
}

#[test]
fn special_responses_are_single_packets() {
    assert_eq!(special_packet(&GuppyResponse::Prompt { text: "Name?".into() }), Some(b"1 Name?\r\n".to_vec()));
    assert_eq!(special_packet(&GuppyResponse::Redirect { target: "/b".into() }), Some(b"3 /b\r\n".to_vec()));
    assert_eq!(special_packet(&GuppyResponse::Error { message: "no".into() }), Some(b"4 no\r\n".to_vec()));
    assert_eq!(special_packet(&GuppyResponse::Success { mime: "a".into(), body: vec![] }), None);
}

#[test]
fn client_survives_out_of_order_and_duplicate_delivery() {
    let first = encode_first(100, "text/plain", b"AA");
    let second = encode_continuation(101, b"BB");
    let eof = encode_continuation(102, b"");
    let mut state = None;
    let mut acks = Vec::new();
    let mut handled = 0;
    for wire in [&second, &first, &second, &eof, &first] {
        if settle(&state, 1 << 20).is_some() {
            break;
        }
        let turn = on_datagram(&mut state, wire);
        assert!(turn.done.is_none());
        acks.extend(turn.send);
        handled += 1;
    }
    assert_eq!(handled, 4, "the client stops once the body is complete");
    assert_eq!(acks, vec![b"100\r\n".to_vec(), b"101\r\n".to_vec(), b"102\r\n".to_vec()]);
    match settle(&state, 1 << 20) {
        Some(Ok(response)) => assert_eq!(
            response,
            GuppyResponse::Success { mime: "text/plain".to_string(), body: b"AABB".to_vec() }
        ),
        other => panic!("got {other:?}"),
    }
}

#[test]
fn silence_resends_the_request_or_the_stall_point() {
    let mut state = None;
    assert_eq!(on_silence(&state, "guppy://x/\r\n"), vec![b"guppy://x/\r\n".to_vec()]);
    on_datagram(&mut state, &encode_first(7, "text/plain", b"a"));
    on_datagram(&mut state, &encode_continuation(9, b""));
    assert_eq!(on_silence(&state, "guppy://x/\r\n"), vec![b"7\r\n".to_vec(), b"9\r\n".to_vec()]);
    assert!(settle(&state, 1 << 20).is_none(), "seq 8 is missing");
    assert!(matches!(settle(&state, 0), Some(Err(ClientError::BodyTooLarge { max: 0 }))));
}

#[test]
fn special_packets_end_a_fresh_exchange_but_not_a_begun_one() {
    let mut state = None;
    let turn = on_datagram(&mut state, b"3 /elsewhere\r\n");
    assert_eq!(turn.done, Some(GuppyResponse::Redirect { target: "/elsewhere".into() }));
    on_datagram(&mut state, &encode_first(50, "text/plain", b"x"));
    let turn = on_datagram(&mut state, b"4 late\r\n");
    assert!(turn.done.is_none() && turn.send.is_empty());
    let turn = on_datagram(&mut state, &encode_continuation(50, b"dup"));
    assert!(turn.send.is_empty(), "a continuation at the first number is ignored");
}

#[test]
fn a_fetch_plan_checks_scheme_host_and_size() {
    assert_eq!(
        plan_fetch("guppy://example.test/x").unwrap(),
        ("example.test".to_string(), 6775, "guppy://example.test/x\r\n".to_string())
    );
    assert!(matches!(plan_fetch("gemini://x/"), Err(ClientError::BadUrl(_))));
    let long = format!("guppy://x/{}", "a".repeat(2100));
    assert!(matches!(plan_fetch(&long), Err(ClientError::RequestTooLong { max: 2048, .. })));
    assert_eq!(ClientError::Timeout.to_string(), "guppy transaction timed out");
}

#[test]
fn guppy_files_resolve_and_pick_a_type() {
    assert_eq!(resolve("/").unwrap(), vec!["index.gmi".to_string()]);
    assert_eq!(resolve("").unwrap(), Vec::<String>::new());
    assert!(resolve("/%2e%2e/secret").is_none());
    assert_eq!(mime_for("a.gmi"), "text/gemini");
    assert_eq!(mime_for("a.html"), "application/octet-stream");
    assert_eq!(mime_for("A.JPEG"), "image/jpeg");
}

#[test]
fn a_draw_folds_into_the_room_below_max_seq() {
    // Two packets leave MAX_SEQ - 2 - MIN_SEQ = 2147483639 possible firsts.
    assert_eq!(first_seq_from(0, 2), MIN_SEQ);
    assert_eq!(first_seq_from(10, 2), MIN_SEQ + 10);
    assert_eq!(first_seq_from(2_147_483_639, 2), MIN_SEQ);
    assert_eq!(first_seq_from(2_147_483_640, 2), MIN_SEQ + 1);
    assert_eq!(first_seq_from(u64::MAX, 2), 329);
    assert_eq!(first_seq_from(u64::MAX, MAX_SEQ - MIN_SEQ - 1), MIN_SEQ);
}

#[test]
fn a_session_leaves_after_its_timeout_or_its_linger() {
    let mut times = SessionTimes::start(100);
    assert!(!times.expired(130, 30, 5));
    assert!(times.expired(131, 30, 5));
    assert!(times.retransmit_due(110, 10));
    assert!(!times.retransmit_due(109, 10));
    times.sent(120);
    assert!(!times.retransmit_due(125, 10));
    times.finished(122);
    times.finished(125);
    assert_eq!(times.done_at, Some(122));
    assert!(!times.retransmit_due(200, 10));
    assert!(!times.expired(127, 30, 5));
    assert!(times.expired(128, 30, 5));
    // A clock reading before a recorded time counts as no time passed.
    assert!(!times.expired(50, 30, 5));
}

#[test]
fn requests_are_admitted_once_per_peer_and_up_to_the_limit() {
    assert_eq!(admission(true, 0, 10), Admission::Duplicate);
    assert_eq!(admission(false, 10, 10), Admission::Full);
    assert_eq!(admission(false, 9, 10), Admission::Admit);
    assert_eq!(admission(false, 0, 0), Admission::Full);
}

#[test]
fn a_session_fits_while_its_packets_number_within_the_space() {
    assert!(session_fits(0, 0));
    assert!(session_fits(1_000_000, 512));
    // 2147483639 continuations plus two packets would need more numbers
    // than there are.
    assert!(!session_fits(usize::MAX, 1));
    assert!(session_fits(2_147_483_639, 1));
    assert!(!session_fits(2_147_483_640, 1));
}
