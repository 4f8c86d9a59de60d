use smolweb::scorpion::document::{self, encode, parse, Block, BlockType, Blocks, DocumentError, Encoding};
use smolweb::scorpion::request::Request;
use smolweb::scorpion::response::Header;

#[test]
fn the_first_byte_packs_encoding_over_type() {
    let block = Block {
        block_type: BlockType::Heading(3),
        encoding: Encoding::Iso2022Rtl,
        attribute: b"sec-3".to_vec(),
        body: b"a heading".to_vec(),
    };
    assert_eq!(block.tag(), 0xA3);

    let round = parse(&encode(std::slice::from_ref(&block)).unwrap()).unwrap();
    assert_eq!(round, vec![block]);
}

#[test]
fn a_non_ascii_encoding_does_not_disguise_the_block_type() {
    let blocks = parse(&[0xA3, 0, 0, 0, 0, 0]).unwrap();
    assert_eq!(blocks[0].block_type, BlockType::Heading(3));
    assert_eq!(blocks[0].encoding, Encoding::Iso2022Rtl);
    assert!(blocks[0].encoding.is_rtl());
}

#[test]
fn a_body_length_is_twenty_four_bits_big_endian() {
    let body = vec![b'x'; 65536];
    let block = Block::new(BlockType::Paragraph, Encoding::Pc, body.clone());
    let encoded = encode(&[block]).unwrap();
    assert_eq!(&encoded[3..6], &[0x01, 0x00, 0x00]);
    assert_eq!(parse(&encoded).unwrap()[0].body, body);
}

#[test]
fn a_link_url_stops_at_a_null() {
    let block = Block::link(
        b"scorpion://example.com/page\0ignored".to_vec(),
        b"click".to_vec(),
        Encoding::Pc,
    );
    assert_eq!(block.url(), Some("scorpion://example.com/page"));
}

#[test]
fn a_non_ascii_link_url_is_refused_rather_than_guessed() {
    let block = Block::link(vec![0xFF, 0xFE], b"click".to_vec(), Encoding::Pc);
    assert_eq!(block.url(), None);
}

#[test]
fn only_link_blocks_have_urls() {
    let paragraph = Block::new(BlockType::Paragraph, Encoding::Pc, b"text".to_vec());
    assert_eq!(paragraph.url(), None);
    assert!(BlockType::AlternateService.is_link());
    assert!(!BlockType::Preformatted.is_link());
}

#[test]
fn an_unknown_block_type_is_carried_not_dropped() {
    let blocks = parse(&[0x0E, 0, 0, 0, 0, 1, b'?']).unwrap();
    assert_eq!(blocks[0].block_type, BlockType::Unknown(0x0E));
    assert_eq!(blocks[0].body, b"?");
}

/// Every item a reader yields, read to its end.
fn drain(mut blocks: Blocks<'_>) -> Vec<Result<Block, DocumentError>> {
    let mut out = Vec::new();
    while let Some(item) = blocks.next() {
        out.push(item);
    }
    out
}

#[test]
fn a_truncated_document_reports_truncation_and_stops() {
    let mut bytes = vec![0x00, 0, 0];
    bytes.extend_from_slice(&[0x00, 0x01, 0x2C]);
    bytes.extend_from_slice(b"ab");
    assert_eq!(parse(&bytes), Err(DocumentError::Truncated));

    let errors: Vec<_> = drain(Blocks::new(&bytes));
    assert_eq!(errors.len(), 1);
}

#[test]
fn several_blocks_round_trip_in_order() {
    let blocks = vec![
        Block {
            block_type: BlockType::Heading(1),
            encoding: Encoding::Pc,
            attribute: b"top".to_vec(),
            body: b"Title".to_vec(),
        },
        Block::new(BlockType::Paragraph, Encoding::Pc, b"Some text.".to_vec()),
        Block::link(
            b"scorpion://example.com/next".to_vec(),
            b"Next".to_vec(),
            Encoding::Pc,
        ),
        Block::new(
            BlockType::Preformatted,
            Encoding::Pc,
            b"line one\nline two".to_vec(),
        ),
    ];
    assert_eq!(parse(&encode(&blocks).unwrap()).unwrap(), blocks);
}

#[test]
fn an_empty_document_holds_no_blocks() {
    assert_eq!(parse(&[]).unwrap(), Vec::new());
}

#[test]
fn an_attribute_too_long_is_refused_at_encode_time() {
    let block = Block {
        block_type: BlockType::Link,
        encoding: Encoding::Pc,
        attribute: vec![b'x'; 65536],
        body: Vec::new(),
    };
    assert_eq!(encode(&[block]), Err(DocumentError::AttributeTooLong));
}

#[test]
fn a_heading_level_outside_one_to_six_is_clamped() {
    assert_eq!(BlockType::Heading(0).value(), 1);
    assert_eq!(BlockType::Heading(9).value(), 6);
    assert_eq!(BlockType::Unknown(0x3E).value(), 0x0E);
    assert_eq!(Encoding::Unknown(0x3E).value(), 0x30);
}

#[test]
fn a_body_too_long_is_refused_at_encode_time() {
    let block = Block::new(BlockType::Paragraph, Encoding::Pc, vec![0u8; 0x100_0000]);
    assert_eq!(encode(&[block]), Err(DocumentError::BodyTooLong));
}

// ── Malformed input must fail, never panic ─────────────────────────────────

fn noise(seed: u32, len: usize) -> Vec<u8> {
    (0..len as u32)
        .map(|i| {
            (seed
                .wrapping_mul(2_654_435_761)
                .wrapping_add(i.wrapping_mul(40_503))
                >> 8) as u8
        })
        .collect()
}

#[test]
fn arbitrary_bytes_never_panic_the_document_parser() {
    for seed in 0..4096u32 {
        for len in [0usize, 1, 2, 3, 5, 6, 7, 9, 17, 64] {
            let _ = document::parse(&noise(seed, len));
        }
    }
}

#[test]
fn a_declared_body_larger_than_the_input_allocates_nothing() {
    let bytes = [0x00u8, 0x00, 0x00, 0xFF, 0xFF, 0xFF, 0x41];
    assert_eq!(document::parse(&bytes), Err(document::DocumentError::Truncated));

    let bytes = [0x00u8, 0xFF, 0xFF, 0x41];
    assert_eq!(document::parse(&bytes), Err(document::DocumentError::Truncated));
}

#[test]
fn a_truncated_document_iterator_terminates() {
    for seed in 0..256u32 {
        let bytes = noise(seed, 9);
        let mut blocks = document::Blocks::new(&bytes);
        let mut count = 0;
        while count < 1000 && blocks.next().is_some() {
            count += 1;
        }
        assert!(count < 1000, "iterator did not terminate on seed {seed}");
    }
}

#[test]
fn every_truncation_of_a_valid_document_is_survivable() {
    let blocks = vec![
        Block {
            block_type: BlockType::Heading(1),
            encoding: Encoding::Pc,
            attribute: b"top".to_vec(),
            body: b"Title".to_vec(),
        },
        Block::link(
            b"scorpion://example.com/x".to_vec(),
            b"Next".to_vec(),
            Encoding::Pc,
        ),
    ];
    let encoded = document::encode(&blocks).unwrap();
    for length in 0..encoded.len() {
        let _ = document::parse(&encoded[..length]);
    }
}

#[test]
fn a_link_url_of_arbitrary_bytes_never_panics() {
    for seed in 0..512u32 {
        let block = Block::link(noise(seed, 24), noise(seed ^ 0xFF, 8), Encoding::Iso2022);
        let _ = block.url();
    }
}

#[test]
fn arbitrary_text_never_panics_the_request_parser() {
    let cases = [
        "", " ", "R", "R ", "R  ", "\r\n", "\n", "R\r\n", " \r\n",
        "\u{e9} scorpion://x/", "\u{1F600} scorpion://x/", "R\u{1F600} scorpion://x/",
        "R\u{0}scorpion://x/", "R scorpion://\u{1F600}/",
        "S@ scorpion://x/", "S@@@ scorpion://x/", "R- scorpion://x/",
        "R-1- scorpion://x/", "R99999999999999999999- scorpion://x/",
        "M\u{e9} scorpion://x/", "I\u{7f} scorpion://x/",
        ":// scorpion://x/", "R :", "R ::::",
    ];
    for case in cases {
        let _ = Request::parse(case);
    }
    for seed in 0..1024u32 {
        let bytes = noise(seed, 24);
        if let Ok(text) = core::str::from_utf8(&bytes) {
            let _ = Request::parse(text);
        }
        let _ = Request::parse(&String::from_utf8_lossy(&bytes));
    }
}

#[test]
fn arbitrary_text_never_panics_the_response_parser() {
    let cases = [
        "", "2", "20", "20 ", "2\u{e9}", "\u{1F600}0 x", "20\u{1F600}",
        "90 nine is not a class", "99", "0", "  ", "20  ", "\r\n", "20\r\n",
        "20 ? ", "20 ?", "44 99999999999999999999 msg", "60", "60 ", "60 =",
        "60 \u{1F600}/path text", "81", "82 ",
    ];
    for case in cases {
        let _ = Header::parse(case);
    }
    for seed in 0..1024u32 {
        let bytes = noise(seed, 24);
        let _ = Header::parse(&String::from_utf8_lossy(&bytes));
    }
}

#[test]
fn a_status_line_with_a_multibyte_char_after_the_code_is_handled() {
    let header = Header::parse("20\u{e9}nonsense");
    assert!(
        header.is_err(),
        "a status code not followed by a space is malformed, not parameterless"
    );
}

#[test]
fn every_request_round_trips_through_its_own_wire_form() {
    for seed in 0..2048u32 {
        let text = String::from_utf8_lossy(&noise(seed, 32)).into_owned();
        let Ok(request) = Request::parse(&text) else {
            continue;
        };
        let wire = request.to_wire();
        let Ok(rendered) = String::from_utf8(wire) else {
            panic!("a parsed request rendered to invalid UTF-8: {request:?}");
        };
        let reparsed = Request::parse(&rendered).expect("a rendered request must reparse");
        assert_eq!(
            reparsed.subprotocol, request.subprotocol,
            "subprotocol changed across a round trip of {text:?}"
        );
        assert_eq!(
            reparsed.parameter, request.parameter,
            "parameter changed across a round trip of {text:?}"
        );
    }
}

#[test]
fn a_header_round_trips_through_its_own_wire_form() {
    for seed in 0..2048u32 {
        let text = String::from_utf8_lossy(&noise(seed, 32)).into_owned();
        let Ok(header) = Header::parse(&text) else {
            continue;
        };
        let rendered = String::from_utf8(header.to_wire()).expect("valid UTF-8");
        let reparsed = Header::parse(&rendered).expect("a rendered header must reparse");
        assert_eq!(
            reparsed.status, header.status,
            "status changed across a round trip of {text:?}"
        );
        assert_eq!(
            reparsed.parameters, header.parameters,
            "parameters changed across a round trip of {text:?}"
        );
    }
}

#[test]
fn reading_block_by_block_gathers_to_what_parse_gives() {
    let blocks = vec![
        Block::new(BlockType::Paragraph, Encoding::Pc, b"one".to_vec()),
        Block::link(b"scorpion://example.com/x".to_vec(), b"two".to_vec(), Encoding::Pc),
    ];
    let bytes = encode(&blocks).unwrap();
    for cut in 0..=bytes.len() {
        let part = &bytes[..cut];
        let items = drain(Blocks::new(part));
        assert!(items.len() <= part.len());
        for item in items.iter().take(items.len().saturating_sub(1)) {
            assert!(item.is_ok());
        }
        let gathered: Result<Vec<Block>, DocumentError> = items.into_iter().collect();
        assert_eq!(gathered, parse(part), "cut at {cut}");
    }
}
