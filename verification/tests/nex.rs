use smolweb::nex::client::{request_line, take_chunk, target, ClientError};
use smolweb::nex::listing::{parse_listing, ListingLine};
use smolweb::nex::server::{
    entry_name, listing, not_found, resolve, route, selector_path, sort_names, take_selector_byte,
    Route, SelectorStep, BAD_PATH_REPLY,
};
use smolweb::nex::{is_directory_path, NEX_PORT};
use smolweb::urls::UrlParts;

#[test]
fn directory_paths_per_spec() {
    assert!(is_directory_path(""));
    assert!(is_directory_path("/"));
    assert!(is_directory_path("/nexlog/"));
    assert!(!is_directory_path("/about.txt"));
}

#[test]
fn links_and_text_split_per_spec_examples() {
    let listing = parse_listing(
        "Welcome!\n=> nex://my-site.net\n=> about.txt\n=> ../nexlog/ my nexlog\nplain line\n",
    );
    assert_eq!(listing[0], ListingLine::Text("Welcome!".to_string()));
    assert_eq!(
        listing[1],
        ListingLine::Link { url: "nex://my-site.net".to_string(), label: None }
    );
    assert_eq!(listing[2], ListingLine::Link { url: "about.txt".to_string(), label: None });
    assert_eq!(
        listing[3],
        ListingLine::Link { url: "../nexlog/".to_string(), label: Some("my nexlog".to_string()) }
    );
    assert_eq!(listing[4], ListingLine::Text("plain line".to_string()));
}

#[test]
fn a_bare_arrow_is_text_not_a_link() {
    assert_eq!(parse_listing("=> ")[0], ListingLine::Text("=> ".to_string()));
    assert_eq!(parse_listing("=>about.txt")[0], ListingLine::Text("=>about.txt".to_string()));
}

#[test]
fn listing_lines_lose_carriage_returns_and_keep_only_the_first_word_as_url() {
    let listing = parse_listing("=>   a.txt\t  the  label  \r\r\n=>  \t \r\nhi\r\n");
    assert_eq!(listing.len(), 3);
    assert_eq!(
        listing[0],
        ListingLine::Link { url: "a.txt".to_string(), label: Some("the  label".to_string()) }
    );
    assert_eq!(listing[1], ListingLine::Text("=>  \t ".to_string()));
    assert_eq!(listing[2], ListingLine::Text("hi".to_string()));
    assert!(parse_listing("").is_empty());
}

fn parts(scheme: &str, host: Option<&str>, port: Option<u16>, path: &str) -> UrlParts {
    UrlParts {
        scheme: scheme.to_string(),
        host: host.map(String::from),
        port,
        path: path.to_string(),
        query: None,
        username: String::new(),
        fragment: None,
    }
}

#[test]
fn a_nex_url_leads_to_host_port_and_path() {
    let (host, port, path) = target(&parts("nex", Some("example.org"), None, "/a/")).unwrap();
    assert_eq!((host.as_str(), port, path.as_str()), ("example.org", NEX_PORT, "/a/"));
    let (_, port, _) = target(&parts("nex", Some("h"), Some(7), "")).unwrap();
    assert_eq!(port, 7);
    match target(&parts("gemini", Some("h"), None, "/")) {
        Err(ClientError::BadUrl(m)) => assert_eq!(m, "expected nex:// scheme, got gemini://"),
        other => panic!("got {other:?}"),
    }
    match target(&parts("nex", None, None, "/")) {
        Err(ClientError::BadUrl(m)) => assert_eq!(m, "URL has no host"),
        other => panic!("got {other:?}"),
    }
    assert_eq!(request_line("/about.txt"), "/about.txt\r\n");
    assert_eq!(request_line(""), "\r\n");
}

#[test]
fn a_fetch_url_is_parsed_before_it_is_routed() {
    let (host, port, path) = smolweb::nex::client::plan_fetch("nex://example.org:1901/x").unwrap();
    assert_eq!((host.as_str(), port, path.as_str()), ("example.org", 1901, "/x"));
    assert!(matches!(
        smolweb::nex::client::plan_fetch("gopher://example.org/"),
        Err(ClientError::BadUrl(_))
    ));
}

#[test]
fn the_body_limit_is_checked_as_chunks_arrive() {
    let mut body = b"ab".to_vec();
    assert!(take_chunk(&mut body, b"cd", 4));
    assert_eq!(body, b"abcd");
    assert!(!take_chunk(&mut body, b"e", 4));
    assert_eq!(body, b"abcde");
    assert_eq!(ClientError::BodyTooLarge { max: 4 }.to_string(), "nex response exceeds 4 bytes");
    assert_eq!(ClientError::Timeout("connect").to_string(), "nex connect timed out");
}

#[test]
fn the_selector_ends_at_a_line_feed_or_the_cap() {
    let mut line = Vec::new();
    assert_eq!(take_selector_byte(&mut line, b'/', 3), SelectorStep::More);
    assert_eq!(take_selector_byte(&mut line, b'\r', 3), SelectorStep::More);
    assert_eq!(take_selector_byte(&mut line, b'\n', 3), SelectorStep::Done);
    assert_eq!(line, b"/\r");
    assert_eq!(selector_path(&line), "/");
    assert_eq!(take_selector_byte(&mut line, b'x', 3), SelectorStep::TooLong);
    assert_eq!(selector_path(b"/a\xffb\r\r"), "/a\u{fffd}b");
}

#[test]
fn paths_resolve_under_the_root_or_nowhere() {
    assert_eq!(resolve("/a/./b/"), Some(vec!["a".to_string(), "b".to_string()]));
    assert_eq!(resolve(""), Some(vec![]));
    assert_eq!(resolve("/%2e%2e/secret"), None);
    assert_eq!(resolve("/c:/x"), None);
    assert_eq!(resolve("/%ff"), None);
    assert_eq!(route("/docs/"), Route::Directory(vec!["docs".to_string()]));
    assert_eq!(route("/docs"), Route::Entry(vec!["docs".to_string()]));
    assert_eq!(route("/../x"), Route::BadPath);
    assert_eq!(BAD_PATH_REPLY, "bad path\n");
    assert_eq!(not_found("/gone"), "/gone not found\n");
}

#[test]
fn a_listing_names_entries_in_order_under_its_path() {
    let names = vec![entry_name("zeta", false), entry_name("alpha", true), entry_name("Beta", false)];
    assert_eq!(sort_names(names.clone()), vec!["Beta", "alpha/", "zeta"]);
    assert_eq!(listing("", names.clone()), "/\n\n=> Beta\n=> alpha/\n=> zeta\n");
    assert_eq!(listing("/d/", vec![]), "/d/\n\n");
    assert_eq!(sort_names(vec!["ab".into(), "a".into(), "é".into(), "z".into()]), vec!["a", "ab", "z", "é"]);
}
