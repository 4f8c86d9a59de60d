use smolweb::gopher::client::{
    finish_plus, mime_for_item_type, plan_fetch, plan_fetch_plus, plus_request_line,
    read_plus_header, reply_attributes, request_line, split_path, strip_period_terminator,
    ClientError, PlusReply,
};
use smolweb::gopher::menu::{parse, GopherItem, GopherKind, GopherPlus};
use smolweb::gopher::plus::{
    parse_ask, parse_attributes, parse_header, parse_views, AskDirective, PlusHeader, PlusRequest,
};
use smolweb::gopher::server::{parse_request, plus_reply_header};

fn line(t: char, display: &str, selector: &str, host: &str, port: &str) -> String {
    format!("{t}{display}\t{selector}\t{host}\t{port}\r\n")
}

// ── Menus ──────────────────────────────────────────────────────────────────

#[test]
fn standard_item_synthesises_url_with_type_and_selector() {
    let items = parse(&line('0', "Welcome text", "/welcome.txt", "example.test", "70"));
    assert_eq!(
        items,
        vec![GopherItem {
            kind: GopherKind::Text,
            display: "Welcome text".into(),
            url: Some("gopher://example.test/0/welcome.txt".into()),
            plus: None,
        }]
    );
}

#[test]
fn non_default_port_appears_in_url() {
    let items = parse(&line('1', "Sub", "/sub", "example.test", "7070"));
    assert_eq!(items[0].url.as_deref(), Some("gopher://example.test:7070/1/sub"));
    assert_eq!(items[0].kind, GopherKind::Submenu);
}

#[test]
fn url_item_extracts_target() {
    let items = parse(&line('h', "External", "URL:https://example.test/", ".", "70"));
    assert_eq!(items[0].kind, GopherKind::Url);
    assert_eq!(items[0].url.as_deref(), Some("https://example.test/"));
}

#[test]
fn info_and_error_carry_no_url() {
    let items = parse(&format!(
        "{}{}",
        line('i', "hello", "", "example.test", "70"),
        line('3', "boom", "", "example.test", "70"),
    ));
    assert_eq!(
        items[0],
        GopherItem { kind: GopherKind::Info, display: "hello".into(), url: None, plus: None }
    );
    assert_eq!(
        items[1],
        GopherItem { kind: GopherKind::Error, display: "boom".into(), url: None, plus: None }
    );
}

#[test]
fn period_terminator_stops_parsing() {
    let items = parse(&format!(
        "{}{}{}",
        line('i', "before", "", "example.test", "70"),
        ".\r\n",
        line('1', "after", "/x", "example.test", "70"),
    ));
    assert_eq!(items.len(), 1);
}

#[test]
fn resource_with_missing_host_is_skipped() {
    assert!(parse("1Bad item\t/sel\t\t70\r\n").is_empty());
}

#[test]
fn a_gopher_plus_marker_is_read_from_the_fifth_field() {
    let items = parse("1Archive\t/arc\texample.test\t70\t+\r\n");
    assert_eq!(items[0].plus, Some(GopherPlus::Supported));

    let items = parse("7Search\t/find\texample.test\t70\t?\r\n");
    assert_eq!(items[0].plus, Some(GopherPlus::Form));
    assert_eq!(items[0].kind, GopherKind::Search);
}

#[test]
fn a_plus_field_does_not_leak_into_the_port() {
    let items = parse("1Archive\t/arc\texample.test\t70\t+\r\n");
    assert_eq!(items[0].url.as_deref(), Some("gopher://example.test/1/arc"));

    let items = parse("1Archive\t/arc\texample.test\t7070\t+\r\n");
    assert_eq!(items[0].url.as_deref(), Some("gopher://example.test:7070/1/arc"));
}

#[test]
fn an_unrecognised_fifth_field_is_not_a_marker() {
    let items = parse("1Thing\t/t\texample.test\t70\tsomething else\r\n");
    assert_eq!(items[0].plus, None);
    assert_eq!(items[0].url.as_deref(), Some("gopher://example.test/1/t"));
}

#[test]
fn a_plain_rfc1436_menu_has_no_markers() {
    let items = parse(&line('0', "Plain", "/p", "example.test", "70"));
    assert_eq!(items[0].plus, None);
}

#[test]
fn unknown_type_stays_navigable() {
    let items = parse(&line('X', "weird", "/sel", "example.test", "70"));
    assert_eq!(items[0].kind, GopherKind::Other('X'));
    assert_eq!(items[0].url.as_deref(), Some("gopher://example.test/X/sel"));
}

#[test]
fn the_documented_menu_example_reads_as_documented() {
    let menu = "1Software\t/software\tgopher.example\t70\r\niA note\t\t\t\r\n";
    let items = parse(menu);
    assert_eq!(items[0].url.as_deref(), Some("gopher://gopher.example/1/software"));
    assert_eq!(items[1].kind, GopherKind::Info);
    assert!(items[1].url.is_none());
}

#[test]
fn blank_lines_and_a_url_item_without_target_are_skipped() {
    let items = parse("\r\nhNothing\tURL:  \thost\t70\r\n0Four fields short\r\n");
    assert!(items.is_empty());
    let items = parse("0Short\t/s\thost\r\n");
    assert_eq!(items[0].url.as_deref(), Some("gopher://host/0/s"));
}

// ── Gopher+ ────────────────────────────────────────────────────────────────

const SAMPLE: &str = "+INFO: 0Some file or other\tmoo selector\thost2\tport2\t+\n\
                      +ADMIN:\n\
                      \x20Admin: Frodo Gophermeister <fng@bogus.edu>\n\
                      \x20Mod-Date: Wed Jul 28 17:02:01 1993 <19930728170201>\n\
                      +VIEWS:\n\
                      \x20Text/plain: <10k>\n\
                      \x20application/postscript: <100k>\n";

#[test]
fn header_forms() {
    assert_eq!(parse_header("+5340"), Ok(PlusHeader::Length(5340)));
    assert_eq!(parse_header("+-1"), Ok(PlusHeader::PeriodTerminated));
    assert_eq!(parse_header("+-2"), Ok(PlusHeader::UntilClose));
    assert_eq!(parse_header("--1"), Ok(PlusHeader::Error));
}

#[test]
fn a_header_without_a_sign_is_malformed() {
    assert!(parse_header("5340").is_err());
    assert!(parse_header("").is_err());
    assert!(parse_header("+banana").is_err());
}

#[test]
fn a_trailing_crlf_does_not_defeat_the_count() {
    assert_eq!(parse_header("+5340\r\n"), Ok(PlusHeader::Length(5340)));
}

#[test]
fn a_malformed_header_keeps_its_line_and_says_so() {
    let e = parse_header("+banana split\r\n").unwrap_err();
    assert_eq!(e.0, "+banana split");
    assert_eq!(e.to_string(), "malformed gopher+ header: +banana split");
    assert_eq!(parse_header("+12 trailing words"), Ok(PlusHeader::Length(12)));
}

#[test]
fn blocks_split_on_the_leading_plus() {
    let blocks = parse_attributes(SAMPLE);
    assert_eq!(
        blocks.iter().map(|b| b.name.as_str()).collect::<Vec<_>>(),
        vec!["INFO", "ADMIN", "VIEWS"]
    );
}

#[test]
fn info_carries_its_descriptor_on_the_block_line() {
    let blocks = parse_attributes(SAMPLE);
    assert!(blocks[0].head.as_deref().unwrap().starts_with("0Some file"));
    assert!(blocks[0].lines.is_empty(), "INFO is a one-line block");
}

#[test]
fn continuation_lines_lose_their_leading_space_and_pair_up() {
    let blocks = parse_attributes(SAMPLE);
    let admin = &blocks[1];
    assert_eq!(admin.lines.len(), 2);
    assert_eq!(admin.pairs()[0], ("Admin", "Frodo Gophermeister <fng@bogus.edu>"));
}

#[test]
fn views_split_mime_language_and_size() {
    let blocks = parse_attributes(SAMPLE);
    let views = parse_views(&blocks[2]);
    assert_eq!(views.len(), 2);
    assert_eq!(views[0].mime, "Text/plain");
    assert_eq!(views[0].size.as_deref(), Some("<10k>"));
    assert_eq!(views[1].mime, "application/postscript");
}

#[test]
fn a_language_tag_is_split_off_the_mime_type() {
    let blocks = parse_attributes("+VIEWS:\n Text/plain De_DE: <15k>\n");
    let views = parse_views(&blocks[0]);
    assert_eq!(views[0].mime, "Text/plain");
    assert_eq!(views[0].language.as_deref(), Some("De_DE"));
}

#[test]
fn ask_directives_keep_their_order_and_kind() {
    let blocks = parse_attributes(
        "+ASK:\n\
         \x20Ask: How many volts?\tdefault volts\n\
         \x20AskP: Password?\n\
         \x20Choose: Deliver shock?\tYes\tNo\n\
         \x20Note: be careful\n",
    );
    let form = parse_ask(&blocks[0]);

    assert_eq!(
        form[0],
        AskDirective::Ask { prompt: "How many volts?".into(), default: Some("default volts".into()) }
    );
    assert_eq!(form[1], AskDirective::AskPassword { prompt: "Password?".into(), default: None });
    assert_eq!(
        form[2],
        AskDirective::Choose {
            prompt: "Deliver shock?".into(),
            options: vec!["Yes".into(), "No".into()],
        }
    );
    assert_eq!(form[3], AskDirective::Note("be careful".into()));
}

#[test]
fn an_unmodelled_directive_survives_rather_than_vanishing() {
    let blocks = parse_attributes("+ASK:\n Wibble: something\n");
    let form = parse_ask(&blocks[0]);
    assert_eq!(
        form[0],
        AskDirective::Unknown { directive: "Wibble".into(), rest: "something".into() }
    );
}

#[test]
fn a_period_terminator_ends_the_attribute_stream() {
    let blocks = parse_attributes("+INFO: 1x\n.\n+ADMIN:\n Admin: nobody\n");
    assert_eq!(blocks.len(), 1);
}

#[test]
fn lines_before_any_block_and_lines_without_a_colon_are_dropped() {
    let blocks = parse_attributes(" orphan\n+ADMIN:\n no colon here\n Admin: x\n");
    assert_eq!(blocks.len(), 1);
    assert_eq!(blocks[0].lines.len(), 2);
    assert_eq!(blocks[0].pairs(), vec![("Admin", "x")]);
}

// ── Requests ───────────────────────────────────────────────────────────────

#[test]
fn a_bare_selector_is_neither_a_search_nor_gopher_plus() {
    let (selector, search, plus) = parse_request(b"/about.txt\r\n");
    assert_eq!(selector, "/about.txt");
    assert_eq!(search, None);
    assert_eq!(plus, None);
}

#[test]
fn a_type_seven_search_carries_its_terms() {
    let (selector, search, plus) = parse_request(b"/search\trust lang\r\n");
    assert_eq!(selector, "/search");
    assert_eq!(search.as_deref(), Some("rust lang"));
    assert_eq!(plus, None);
}

#[test]
fn the_third_field_is_read_as_a_gopher_plus_form() {
    let (selector, search, plus) = parse_request(b"/arc\t\t+\r\n");
    assert_eq!(selector, "/arc");
    assert_eq!(search, None, "an empty search field is not a search");
    assert_eq!(plus, Some(PlusRequest::Item(None)));

    assert_eq!(parse_request(b"/arc\t\t!\r\n").2, Some(PlusRequest::Attributes));
    assert_eq!(parse_request(b"/dir\t\t$\r\n").2, Some(PlusRequest::DirectoryAttributes));
    assert_eq!(
        parse_request(b"/arc\t\t+text/plain\r\n").2,
        Some(PlusRequest::Item(Some("text/plain".into())))
    );
}

#[test]
fn a_search_and_a_gopher_plus_form_can_arrive_together() {
    let (selector, search, plus) = parse_request(b"/find\tterms\t!\r\n");
    assert_eq!(selector, "/find");
    assert_eq!(search.as_deref(), Some("terms"));
    assert_eq!(plus, Some(PlusRequest::Attributes));
}

#[test]
fn server_what_the_client_writes_the_server_reads_back() {
    for form in [
        PlusRequest::Item(None),
        PlusRequest::Item(Some("text/plain".into())),
        PlusRequest::Attributes,
        PlusRequest::DirectoryAttributes,
    ] {
        let line = format!("/sel\t\t{}\r\n", form.token());
        let (selector, _, parsed) = parse_request(line.as_bytes());
        assert_eq!(selector, "/sel");
        assert_eq!(parsed, Some(form));
    }
}

#[test]
fn an_empty_selector_is_the_root_menu() {
    assert_eq!(parse_request(b"\r\n").0, "");
    assert_eq!(parse_request(b"").0, "");
}

#[test]
fn an_unrecognised_third_field_is_not_a_gopher_plus_request() {
    assert_eq!(parse_request(b"/x\t\tnonsense\r\n").2, None);
}

#[test]
fn server_a_bare_lf_is_accepted_as_well_as_crlf() {
    assert_eq!(parse_request(b"/about.txt\n").0, "/about.txt");
}

#[test]
fn malformed_bytes_in_a_selector_read_as_replacement_characters() {
    let (selector, _, _) = parse_request(b"/a\xffb\r\n");
    assert_eq!(selector, "/a\u{fffd}b");
}

#[test]
fn the_built_plus_line_reads_back_with_its_search() {
    let line = plus_request_line("/find", "rust", &PlusRequest::Item(Some("text/plain".into())));
    assert_eq!(line, "/find\trust\t+text/plain\r\n");
    let (selector, search, plus) = parse_request(line.as_bytes());
    assert_eq!(selector, "/find");
    assert_eq!(search.as_deref(), Some("rust"));
    assert_eq!(plus, Some(PlusRequest::Item(Some("text/plain".into()))));
}

#[test]
fn the_reply_header_reads_back_as_the_length() {
    assert_eq!(plus_reply_header(0), "+0\r\n");
    assert_eq!(plus_reply_header(5340), "+5340\r\n");
    assert_eq!(parse_header(&plus_reply_header(5340)), Ok(PlusHeader::Length(5340)));
}

// ── Client ─────────────────────────────────────────────────────────────────

fn split(u: &str) -> (char, String) {
    split_path(url::Url::parse(u).unwrap().path())
}

#[test]
fn root_path_is_a_menu() {
    assert_eq!(split("gopher://example.org/"), ('1', String::new()));
    assert_eq!(split("gopher://example.org"), ('1', String::new()));
}

#[test]
fn type_and_selector_split_at_the_first_char() {
    assert_eq!(split("gopher://example.org/0/about.txt"), ('0', "/about.txt".into()));
    assert_eq!(split("gopher://example.org/1/dir"), ('1', "/dir".into()));
}

#[test]
fn mime_inference() {
    assert_eq!(mime_for_item_type('0'), "text/plain");
    assert_eq!(mime_for_item_type('1'), "application/gopher-menu");
    assert_eq!(mime_for_item_type('9'), "application/octet-stream");
}

#[test]
fn plus_tokens_match_the_spec() {
    assert_eq!(PlusRequest::Item(None).token(), "+");
    assert_eq!(PlusRequest::Item(Some("text/plain".into())).token(), "+text/plain");
    assert_eq!(PlusRequest::Attributes.token(), "!");
    assert_eq!(PlusRequest::DirectoryAttributes.token(), "$");
}

#[test]
fn the_period_terminator_goes_but_the_last_newline_stays() {
    assert_eq!(strip_period_terminator(b"one\r\ntwo\r\n.\r\n".to_vec()), b"one\r\ntwo\r\n".to_vec());
    assert_eq!(strip_period_terminator(b"one\ntwo\n.\n".to_vec()), b"one\ntwo\n".to_vec());
}

#[test]
fn a_body_that_merely_ends_in_a_period_is_left_alone() {
    assert_eq!(strip_period_terminator(b"see fig. 1.".to_vec()), b"see fig. 1.".to_vec());
}

#[test]
fn a_terminator_without_its_final_newline_goes_too() {
    assert_eq!(strip_period_terminator(b"a\r\n.".to_vec()), b"a\r\n".to_vec());
    assert_eq!(strip_period_terminator(b"a\n.".to_vec()), b"a\n".to_vec());
}

#[test]
fn client_a_url_without_a_host_is_refused_before_connecting() {
    let error = plan_fetch("gopher:///0/x").unwrap_err();
    assert!(matches!(error, ClientError::BadUrl(_)), "got {error:?}");
    assert!(matches!(plan_fetch("not a url"), Err(ClientError::BadUrl(_))));
}

#[test]
fn a_fetch_plan_carries_host_port_and_request_line() {
    let plan = plan_fetch("gopher://example.org:7070/7/find?rust").unwrap();
    assert_eq!(plan.host, "example.org");
    assert_eq!(plan.port, 7070);
    assert_eq!(plan.item_type, '7');
    assert_eq!(plan.request, "/find\trust\r\n");
    assert!(!plan.tls);
    let plan = plan_fetch("gophers://example.org/").unwrap();
    assert_eq!(plan.port, 70);
    assert_eq!(plan.request, "\r\n");
    assert!(plan.tls);
    let plan = plan_fetch_plus("gopher://example.org/1/arc", &PlusRequest::Attributes).unwrap();
    assert_eq!(plan.request, "/arc\t\t!\r\n");
    assert_eq!(request_line("/x", None), "/x\r\n");
}

#[test]
fn a_plus_reply_is_framed_by_its_header() {
    assert!(matches!(read_plus_header(""), Err(ClientError::BadPlusHeader(_))));
    assert_eq!(read_plus_header("+-1\r\n"), Ok(PlusHeader::PeriodTerminated));
    assert_eq!(
        read_plus_header("x\r\n"),
        Err(ClientError::BadPlusHeader("x".into()))
    );
    let reply = finish_plus(PlusHeader::PeriodTerminated, b"+INFO: 1x\r\n.\r\n".to_vec()).unwrap();
    assert_eq!(reply.body, b"+INFO: 1x\r\n".to_vec());
    assert_eq!(reply_attributes(&reply).len(), 1);
    assert_eq!(
        finish_plus(PlusHeader::Error, b" no such item \r\n.\r\n".to_vec()),
        Err(ClientError::PlusError("no such item".into()))
    );
    let kept = finish_plus(PlusHeader::Length(3), b"a.\n.".to_vec()).unwrap();
    assert_eq!(kept, PlusReply { header: PlusHeader::Length(3), body: b"a.\n.".to_vec() });
    assert_eq!(
        ClientError::PlusError("gone".into()).to_string(),
        "gopher+ error: gone"
    );
}
