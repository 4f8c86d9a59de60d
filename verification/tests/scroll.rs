use smolweb::scroll::scrolltext::{parse, spans, Polarity, Relation, ScrollLine, Span, SpanKind};
use smolweb::scroll::wire::{
    finish_success, parse_request, parse_status_line, request_line, MalformedHeader, Status,
    UdcClass,
};

#[test]
fn headings_carry_their_level_and_five_is_the_ceiling() {
    assert_eq!(
        parse("# Title\n##### textual\n###### not a heading\n"),
        vec![
            ScrollLine::Heading { level: 1, text: "Title".into() },
            ScrollLine::Heading { level: 5, text: "textual".into() },
            ScrollLine::Text("###### not a heading".into()),
        ]
    );
}

#[test]
fn a_thematic_break_is_exactly_three_hyphens() {
    assert_eq!(parse("---\n")[0], ScrollLine::ThematicBreak);
    assert_eq!(parse("----\n")[0], ScrollLine::Text("----".into()));
}

#[test]
fn quotes_nest_by_marker_count() {
    assert_eq!(
        parse("> outer\n>> inner\n"),
        vec![
            ScrollLine::Quote { depth: 1, text: "outer".into() },
            ScrollLine::Quote { depth: 2, text: "inner".into() },
        ]
    );
}

#[test]
fn the_specs_own_nested_list_example_parses() {
    // Verbatim from the protocol text.
    let doc = "* Unordered list item 1\n** 1. Ordered sub-list item 1\n** 2. Ordered sub-list item 2\n* Unordered list item 2\n";
    assert_eq!(
        parse(doc),
        vec![
            ScrollLine::ListItem { depth: 1, ordinal: None, text: "Unordered list item 1".into() },
            ScrollLine::ListItem { depth: 2, ordinal: Some("1.".into()), text: "Ordered sub-list item 1".into() },
            ScrollLine::ListItem { depth: 2, ordinal: Some("2.".into()), text: "Ordered sub-list item 2".into() },
            ScrollLine::ListItem { depth: 1, ordinal: None, text: "Unordered list item 2".into() },
        ]
    );
}

#[test]
fn a_list_needs_its_required_whitespace() {
    // Without the space this is bold inline markup, not a list: the protocol
    // calls the required whitespace the disambiguator.
    assert!(matches!(parse("*bold start*\n")[0], ScrollLine::Text(_)));
    assert!(matches!(parse("* item\n")[0], ScrollLine::ListItem { .. }));
    assert!(matches!(parse("*\ttabbed item\n")[0], ScrollLine::ListItem { .. }));
    // Five stars exceeds the nesting limit.
    assert!(matches!(parse("***** too deep\n")[0], ScrollLine::Text(_)));
}

#[test]
fn ordinals_are_kept_verbatim_and_never_renumbered() {
    let ScrollLine::ListItem { ordinal, text, .. } = &parse("* 7. seventh\n")[0] else {
        panic!("expected a list item");
    };
    assert_eq!(ordinal.as_deref(), Some("7."));
    assert_eq!(text, "seventh");

    let ScrollLine::ListItem { ordinal, .. } = &parse("* a. lettered\n")[0] else {
        panic!("expected a list item");
    };
    assert_eq!(ordinal.as_deref(), Some("a."));
}

#[test]
fn links_split_url_label_and_relation() {
    // The protocol's own relation examples.
    assert_eq!(
        parse("=> scroll://example.net/sub/cited_text_name.txt Cited Text Name [Citation]\n")[0],
        ScrollLine::Link {
            url: "scroll://example.net/sub/cited_text_name.txt".into(),
            label: "Cited Text Name".into(),
            relation: Some(Relation { polarity: Polarity::Neutral, tag: Some("Citation".into()) }),
        }
    );
    assert_eq!(
        parse("=> scroll://example.net/x.txt Name [-Citation]\n")[0],
        ScrollLine::Link {
            url: "scroll://example.net/x.txt".into(),
            label: "Name".into(),
            relation: Some(Relation { polarity: Polarity::Negative, tag: Some("Citation".into()) }),
        }
    );
    assert_eq!(
        parse("=> scroll://example.net/cited.pdf Cited Text Name [+]\n")[0],
        ScrollLine::Link {
            url: "scroll://example.net/cited.pdf".into(),
            label: "Cited Text Name".into(),
            relation: Some(Relation { polarity: Polarity::Positive, tag: None }),
        }
    );
    // No relation at all.
    assert_eq!(
        parse("=> gemini://misfin.org Misfin Protocol\n")[0],
        ScrollLine::Link {
            url: "gemini://misfin.org".into(),
            label: "Misfin Protocol".into(),
            relation: None,
        }
    );
}

#[test]
fn a_hash_url_links_within_the_document() {
    assert_eq!(
        parse("=>#3.2 The second level-3 heading\n")[0],
        ScrollLine::Link {
            url: "#3.2".into(),
            label: "The second level-3 heading".into(),
            relation: None,
        }
    );
}

#[test]
fn input_links_carry_their_prompt() {
    assert_eq!(
        parse("=: scroll://example.net/search Search terms\n")[0],
        ScrollLine::InputLink {
            url: "scroll://example.net/search".into(),
            prompt: "Search terms".into(),
        }
    );
}

#[test]
fn code_blocks_group_with_their_tag_and_the_text_prefix_stays_off() {
    let doc = "```rust\nfn main() {}\n```\nafter\n";
    assert_eq!(
        parse(doc),
        vec![
            ScrollLine::CodeBlock {
                tag: Some("rust".into()),
                lines: vec!["fn main() {}".into()],
            },
            ScrollLine::Text("after".into()),
        ]
    );
}

#[test]
fn linetypes_inside_a_code_block_stay_verbatim() {
    let doc = "```\n# not a heading\n=> not/a/link nope\n```\n";
    let ScrollLine::CodeBlock { lines, .. } = &parse(doc)[0] else {
        panic!("expected a code block");
    };
    assert_eq!(lines, &["# not a heading", "=> not/a/link nope"]);
}

#[test]
fn an_unclosed_fence_still_yields_its_content() {
    let ScrollLine::CodeBlock { lines, .. } = &parse("```\ntrailing\n")[0] else {
        panic!("expected a code block");
    };
    assert_eq!(lines, &["trailing"]);
}

#[test]
fn escaping_turns_a_linetype_into_a_paragraph() {
    assert_eq!(parse("\\# not a heading\n")[0], ScrollLine::Text("# not a heading".into()));
    assert_eq!(parse("\\=> not a link\n")[0], ScrollLine::Text("=> not a link".into()));
    assert_eq!(parse("\\---\n")[0], ScrollLine::Text("---".into()));
    // A backslash anywhere else is just a character.
    assert_eq!(parse("\\ordinary\n")[0], ScrollLine::Text("\\ordinary".into()));
}

#[test]
fn blank_lines_survive_because_they_separate_lists() {
    assert_eq!(
        parse("* one\n\n* two\n"),
        vec![
            ScrollLine::ListItem { depth: 1, ordinal: None, text: "one".into() },
            ScrollLine::Blank,
            ScrollLine::ListItem { depth: 1, ordinal: None, text: "two".into() },
        ]
    );
}

// ── Inline markup ──────────────────────────────────────────────────

#[test]
fn strong_emphasis_and_code_toggle() {
    assert_eq!(
        spans("a *b* c"),
        vec![
            Span { kind: SpanKind::Plain, text: "a ".into() },
            Span { kind: SpanKind::Strong, text: "b".into() },
            Span { kind: SpanKind::Plain, text: " c".into() },
        ]
    );
    assert_eq!(spans("_e_")[0].kind, SpanKind::Emphasis);
    assert_eq!(spans("`x`")[0].kind, SpanKind::Code);
}

#[test]
fn an_isolated_toggle_between_whitespace_does_not_toggle() {
    // Neither neighbour qualifies, so the star is literal.
    assert_eq!(
        spans("a * b"),
        vec![Span { kind: SpanKind::Plain, text: "a * b".into() }]
    );
}

#[test]
fn a_zero_width_space_counts_as_whitespace_for_toggles() {
    let line = format!("a\u{200B}*\u{200B}b");
    assert_eq!(spans(&line).len(), 1, "the star must stay literal");
}

#[test]
fn inline_markup_closes_at_the_end_of_the_line() {
    // An unclosed toggle styles the rest of the line and stops there.
    let out = spans("start *unclosed");
    assert_eq!(out[1].kind, SpanKind::Strong);
    assert_eq!(out[1].text, "unclosed");
}

#[test]
fn other_toggles_are_inert_inside_code() {
    let out = spans("`a *not strong* b`");
    assert_eq!(out.len(), 1);
    assert_eq!(out[0].kind, SpanKind::Code);
    assert_eq!(out[0].text, "a *not strong* b");
}

#[test]
fn a_toggle_between_two_symbols_is_literal() {
    // "(*)" — both neighbours are symbols, so no toggle.
    assert_eq!(
        spans("(*)"),
        vec![Span { kind: SpanKind::Plain, text: "(*)".into() }]
    );
}

#[test]
fn a_request_carries_its_languages_in_order() {
    let request = parse_request("scroll://example.net/ en-US,en,de-CH\r\n").unwrap();
    assert_eq!(request.uri, "scroll://example.net/");
    assert_eq!(request.languages, vec!["en-US", "en", "de-CH"]);
    assert!(!request.metadata);
}

#[test]
fn the_plus_prefix_is_a_metadata_request() {
    let request = parse_request("scroll://example.net/doc.scroll +en\r\n").unwrap();
    assert!(request.metadata);
    assert_eq!(request.languages, vec!["en"]);
}

#[test]
fn wire_what_the_client_writes_the_server_reads_back() {
    for (languages, metadata) in [(vec!["en-US", "en"], false), (vec!["fr"], true)] {
        let refs: Vec<&str> = languages.iter().map(|s| &**s).collect();
        let line = request_line("scroll://x/", &refs, metadata);
        let parsed = parse_request(&line).unwrap();
        assert_eq!(parsed.languages, languages);
        assert_eq!(parsed.metadata, metadata);
    }
}

#[test]
fn a_byte_order_mark_is_refused_as_the_spec_requires() {
    assert!(parse_request("\u{FEFF}scroll://x/ en\r\n").is_none());
}

#[test]
fn a_bare_uri_is_a_request_with_no_language_preference() {
    let request = parse_request("scroll://example.net/\r\n").unwrap();
    assert!(request.languages.is_empty());
    assert!(!request.metadata);
}

#[test]
fn status_codes_are_geminis() {
    assert_eq!(parse_status_line("10 Name?").unwrap().1, Status::Input);
    assert_eq!(parse_status_line("31 scroll://x/moved").unwrap().1, Status::Redirect);
    assert_eq!(parse_status_line("44 slow down").unwrap().1, Status::TemporaryFailure);
    assert_eq!(parse_status_line("51 gone").unwrap().1, Status::PermanentFailure);
    assert_eq!(parse_status_line("60 cert").unwrap().1, Status::CertificateRequired);
    assert!(parse_status_line("70 nope").is_err(), "scroll has no 7x");
    assert!(parse_status_line("xx nope").is_err());
}

#[test]
fn the_second_success_digit_is_a_udc_class() {
    // The protocol's own examples: 24 is the unclassed default, 27 is arts
    // and entertainment.
    assert_eq!(UdcClass::from_code(24), Some(UdcClass::General));
    assert_eq!(UdcClass::from_code(27), Some(UdcClass::Arts));
    assert_eq!(UdcClass::from_code(20), Some(UdcClass::Science));
    assert_eq!(UdcClass::from_code(29), Some(UdcClass::History));
    assert_eq!(UdcClass::from_code(31), None, "not a success code");
}

#[test]
fn a_success_header_assembles_with_blanks_as_none() {
    // The protocol's sample document is the fixture: author present,
    // both dates present.
    let header = finish_success(
        20,
        "text/scroll".into(),
        "Christian Lee Seibold",
        "2025-07-23T20:50:51Z",
        "",
    );
    assert_eq!(header.author.as_deref(), Some("Christian Lee Seibold"));
    assert_eq!(header.published.as_deref(), Some("2025-07-23T20:50:51Z"));
    assert_eq!(header.modified, None, "a blank line is unspecified");
    assert_eq!(header.class(), Some(UdcClass::Science));
}

// ── Further cases ──────────────────────────────────────────────────────────────────────────────────────────────────

#[test]
fn the_documented_request_lines_are_built_exactly() {
    assert_eq!(
        request_line("scroll://example.net/page.scroll", &["en-US", "en"], false),
        "scroll://example.net/page.scroll en-US,en\r\n"
    );
    assert_eq!(
        request_line("scroll://example.net/page.scroll", &["en"], true),
        "scroll://example.net/page.scroll +en\r\n"
    );
    assert_eq!(request_line("scroll://x/", &[], false), "scroll://x/ \r\n");
}

#[test]
fn languages_are_trimmed_and_empty_ones_dropped() {
    let request = parse_request("scroll://x/ en , ,de\r\n").unwrap();
    assert_eq!(request.languages, vec!["en", "de"]);
    assert!(parse_request(" en\r\n").is_none(), "an empty URI is no request");
    assert!(parse_request("").is_none());
}

#[test]
fn a_malformed_status_line_keeps_its_text() {
    assert_eq!(parse_status_line("7\r\n"), Err(MalformedHeader("7".into())));
    assert_eq!(
        MalformedHeader("x".into()).to_string(),
        "malformed scroll header: x"
    );
    assert_eq!(
        parse_status_line("20   text/scroll\r\n"),
        Ok((20, Status::Success, "text/scroll".to_string()))
    );
    assert_eq!(Status::from_code(9), None);
    assert_eq!(Status::from_code(65), Some(Status::CertificateRequired));
}

#[test]
fn metadata_lines_lose_their_line_endings_and_padding() {
    let header = finish_success(27, "text/scroll".into(), "  Ann \r\n", "\r\n", "x\n");
    assert_eq!(header.author.as_deref(), Some("Ann"));
    assert_eq!(header.published, None);
    assert_eq!(header.modified.as_deref(), Some("x"));
    assert_eq!(header.class(), Some(UdcClass::Arts));
}

#[test]
fn relations_need_closing_brackets_and_content() {
    assert_eq!(
        parse("=> u Name []\n")[0],
        ScrollLine::Link { url: "u".into(), label: "Name []".into(), relation: None }
    );
    assert_eq!(
        parse("=> u Name [open\n")[0],
        ScrollLine::Link { url: "u".into(), label: "Name [open".into(), relation: None }
    );
    assert_eq!(
        parse("=> u\n")[0],
        ScrollLine::Link { url: "u".into(), label: String::new(), relation: None }
    );
    assert_eq!(
        parse("=> u A [x] [-]\n")[0],
        ScrollLine::Link {
            url: "u".into(),
            label: "A [x]".into(),
            relation: Some(Relation { polarity: Polarity::Negative, tag: None }),
        }
    );
}

#[test]
fn quotes_and_headings_drop_the_space_after_their_markers() {
    assert_eq!(
        parse(">>>deep\n")[0],
        ScrollLine::Quote { depth: 3, text: "deep".into() }
    );
    assert_eq!(parse("#\n")[0], ScrollLine::Heading { level: 1, text: String::new() });
    assert_eq!(parse("   \n")[0], ScrollLine::Blank);
    assert_eq!(
        parse("* x.y\n")[0],
        ScrollLine::ListItem { depth: 1, ordinal: Some("x.".into()), text: "y".into() }
    );
    assert_eq!(
        parse("* x y\n")[0],
        ScrollLine::ListItem { depth: 1, ordinal: None, text: "x y".into() }
    );
    assert_eq!(
        parse("**** 12.twelve\n")[0],
        ScrollLine::ListItem { depth: 4, ordinal: Some("12.".into()), text: "twelve".into() }
    );
}

#[test]
fn a_doubled_toggle_character_does_not_count_as_its_own_neighbour() {
    assert_eq!(spans("**"), vec![Span { kind: SpanKind::Plain, text: "**".into() }]);
    assert_eq!(
        spans("a_b_"),
        vec![
            Span { kind: SpanKind::Plain, text: "a".into() },
            Span { kind: SpanKind::Emphasis, text: "b".into() },
        ]
    );
    assert!(spans("").is_empty());
}
