use smolweb::dict::wire::{
    is_terminator, parse_databases, parse_definition_header, parse_matches, parse_status, quote,
    split_params, stuff, unstuff, Database, Match, DEFINITION_FOLLOWS,
};

#[test]
fn status_lines_split_code_from_text() {
    let status = parse_status("250 ok [d/m/c = 1/0/16; 0.000r 0.000u 0.000s]").unwrap();
    assert_eq!(status.code, 250);
    assert!(status.is_success());
    assert!(status.text.starts_with("ok"));
}

#[test]
fn the_classes_are_told_apart() {
    assert!(parse_status("110 3 databases present").unwrap().has_text_block());
    assert!(parse_status("220 dictd 1.12").unwrap().is_success());
    assert!(parse_status("420 unavailable").unwrap().is_temporary_failure());
    assert!(parse_status("552 no match").unwrap().is_permanent_failure());
}

#[test]
fn a_line_without_three_digits_is_not_a_status() {
    assert!(parse_status("hello").is_none());
    assert!(parse_status("12 too short").is_none());
    assert!(parse_status("").is_none());
}

#[test]
fn a_lone_period_ends_a_text_block() {
    assert!(is_terminator("."));
    assert!(is_terminator(".\r\n"));
    assert!(!is_terminator(".."));
    assert!(!is_terminator(". "));
}

#[test]
fn dot_stuffing_round_trips() {
    assert_eq!(unstuff("..hidden leading dot"), ".hidden leading dot");
    assert_eq!(unstuff("ordinary text"), "ordinary text");
    assert_eq!(stuff(".leading"), "..leading");
    assert_eq!(stuff("ordinary"), "ordinary");
    assert_eq!(unstuff(&stuff(".leading")), ".leading");
}

#[test]
fn quoted_parameters_survive_their_spaces() {
    let params = split_params(r#"foldoc "The Free On-line Dictionary of Computing""#);
    assert_eq!(params.len(), 2);
    assert_eq!(params[0], "foldoc");
    assert_eq!(params[1], "The Free On-line Dictionary of Computing");
}

#[test]
fn an_escaped_quote_stays_in_the_parameter() {
    let params = split_params(r#"db "a \"quoted\" name""#);
    assert_eq!(params[1], r#"a "quoted" name"#);
}

#[test]
fn an_empty_quoted_parameter_is_still_a_parameter() {
    let params = split_params(r#"db "" third"#);
    assert_eq!(params, vec!["db", "", "third"]);
}

#[test]
fn a_database_list_parses() {
    let lines = vec![
        r#"foldoc "The Free On-line Dictionary of Computing""#.to_string(),
        r#"wn "WordNet (r) 3.0""#.to_string(),
    ];
    assert_eq!(
        parse_databases(&lines),
        vec![
            Database {
                name: "foldoc".into(),
                description: "The Free On-line Dictionary of Computing".into()
            },
            Database { name: "wn".into(), description: "WordNet (r) 3.0".into() },
        ]
    );
}

#[test]
fn a_match_list_parses() {
    let lines = vec![r#"wn "dictionary""#.to_string(), r#"foldoc "dict""#.to_string()];
    assert_eq!(
        parse_matches(&lines),
        vec![
            Match { database: "wn".into(), word: "dictionary".into() },
            Match { database: "foldoc".into(), word: "dict".into() },
        ]
    );
}

#[test]
fn a_definition_header_yields_word_database_and_name() {
    let status = parse_status(r#"151 "dictionary" wn "WordNet (r) 3.0""#).unwrap();
    assert_eq!(status.code, DEFINITION_FOLLOWS);
    let (word, database, name) = parse_definition_header(&status).unwrap();
    assert_eq!(word, "dictionary");
    assert_eq!(database, "wn");
    assert_eq!(name, "WordNet (r) 3.0");
}

#[test]
fn parameters_are_quoted_only_when_they_need_it() {
    assert_eq!(quote("wn"), "wn");
    assert_eq!(quote("free software"), "\"free software\"");
    assert_eq!(quote(""), "\"\"");
    assert_eq!(quote(r#"say "hi""#), r#""say \"hi\""#.to_string() + "\"");
}

#[test]
fn a_quoted_parameter_splits_back_to_itself() {
    for param in ["wn", "free software", "", r#"say "hi""#, r"back\slash", "tab\there", "a\\\"b c"] {
        assert_eq!(split_params(&quote(param)), vec![param.to_string()], "{param:?}");
    }
}

#[test]
fn a_line_without_a_second_parameter_is_no_match_and_an_empty_name_no_database() {
    let lines = vec!["lonely".to_string(), r#""" described"#.to_string()];
    assert_eq!(
        parse_matches(&lines),
        vec![Match { database: String::new(), word: "described".into() }]
    );
    assert_eq!(parse_databases(&lines), vec![Database { name: "lonely".into(), description: String::new() }]);
}
