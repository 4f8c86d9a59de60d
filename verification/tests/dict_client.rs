use smolweb::dict::client::{
    answer, block_line, check_banner, client_command, closed_mid_response, command_line,
    define_command, define_step, expect_ok, match_command, status_line, Answer, ClientError,
    DefineStep,
};
use smolweb::dict::wire::{
    parse_databases, Database, DATABASES_FOLLOW, DEFINITIONS_FOLLOW, MAX_LINE, NO_MATCH,
};

fn read_block(lines: &[&str]) -> Vec<String> {
    let mut out = Vec::new();
    for line in lines {
        match block_line(line) {
            Some(text) => out.push(text),
            None => return out,
        }
    }
    panic!("the block never ended");
}

#[test]
fn a_non_banner_greeting_is_refused() {
    let greeting = status_line("500 go away\r\n").unwrap();
    match check_banner(greeting) {
        Err(error) => assert!(matches!(error, ClientError::Protocol(_)), "got {error:?}"),
        Ok(_) => panic!("a 500 greeting must not open a session"),
    }
    assert_eq!(
        check_banner(status_line("500 go away\r\n").unwrap()).unwrap_err().to_string(),
        "protocol: expected a 220 banner, got 500 go away"
    );
}

#[test]
fn a_definition_is_read_with_its_text_block() {
    assert!(check_banner(status_line("220 test <1@x>\r\n").unwrap()).is_ok());
    let command = command_line(&define_command("wn", "dict")).unwrap();
    assert!(command.starts_with("DEFINE"));
    let first = status_line("150 1 definitions retrieved\r\n").unwrap();
    assert_eq!(answer(first, DEFINITIONS_FOLLOW, NO_MATCH).unwrap(), Answer::Listing);
    let (word, database, description) =
        match define_step(status_line("151 \"dict\" wn \"WordNet\"\r\n").unwrap()).unwrap() {
            DefineStep::Definition { word, database, description } => (word, database, description),
            DefineStep::Done => panic!("a definition was announced"),
        };
    let text = read_block(&[
        "a reference work\r\n",
        "..a line that began with a period\r\n",
        ".\r\n",
    ]);
    assert_eq!(define_step(status_line("250 ok\r\n").unwrap()).unwrap(), DefineStep::Done);
    assert_eq!(word, "dict");
    assert_eq!(database, "wn");
    assert_eq!(description, "WordNet");
    assert_eq!(
        text,
        vec!["a reference work".to_string(), ".a line that began with a period".to_string()],
        "the doubled period must be undone"
    );
}

#[test]
fn no_match_is_an_empty_answer_not_an_error() {
    let status = status_line("552 no match\r\n").unwrap();
    assert_eq!(answer(status, DEFINITIONS_FOLLOW, NO_MATCH).unwrap(), Answer::Nothing);
}

#[test]
fn an_invalid_database_is_refused_with_its_code() {
    let status = status_line("550 invalid database\r\n").unwrap();
    let error = answer(status, DEFINITIONS_FOLLOW, NO_MATCH).unwrap_err();
    assert!(matches!(error, ClientError::Refused { code: 550, .. }), "got {error:?}");
    assert_eq!(error.to_string(), "server refused: 550 invalid database");
}

#[test]
fn a_database_list_is_read_and_the_trailing_ok_consumed() {
    let status = status_line("110 2 databases present\r\n").unwrap();
    assert_eq!(answer(status, DATABASES_FOLLOW, 554).unwrap(), Answer::Listing);
    let lines = read_block(&[
        "wn \"WordNet (r) 3.0\"\r\n",
        "foldoc \"Free On-line Dictionary of Computing\"\r\n",
        ".\r\n",
    ]);
    let databases: Vec<Database> = parse_databases(&lines);
    assert!(expect_ok(status_line("250 ok\r\n").unwrap()).is_ok());
    assert_eq!(databases.len(), 2);
    assert_eq!(databases[1].name, "foldoc");
    assert_eq!(command_line("QUIT").unwrap(), "QUIT\r\n");
    assert!(expect_ok(status_line("221 bye\r\n").unwrap()).is_ok());
}

#[test]
fn an_over_long_command_never_reaches_the_wire() {
    let error = command_line(&format!("DEFINE wn {}", "x".repeat(MAX_LINE))).unwrap_err();
    assert!(matches!(error, ClientError::Protocol(_)), "got {error:?}");
    assert_eq!(command_line(&"x".repeat(MAX_LINE - 2)).unwrap().len(), MAX_LINE);
    assert!(command_line(&"x".repeat(MAX_LINE - 1)).is_err());
}

#[test]
fn commands_quote_their_parameters() {
    assert_eq!(define_command("wn", "free software"), "DEFINE wn \"free software\"");
    assert_eq!(match_command("*", "prefix", "dic"), "MATCH * prefix dic");
    assert_eq!(client_command("smolweb"), "CLIENT smolweb");
    assert_eq!(
        status_line("hello\r\n").unwrap_err(),
        ClientError::Protocol("not a status line: \"hello\\r\\n\"".to_string())
    );
    assert_eq!(
        define_step(status_line("151 only\r\n").unwrap()).unwrap_err(),
        ClientError::Protocol("malformed 151: only".to_string())
    );
    assert_eq!(closed_mid_response().to_string(), "protocol: server closed mid-response");
}
