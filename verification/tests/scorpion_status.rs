use smolweb::scorpion::is_tls_hello;
use smolweb::scorpion::request::Subprotocol;
use smolweb::scorpion::status::{split_parameters, Major, Status};

#[test]
fn no_subprotocol_byte_can_be_mistaken_for_a_tls_hello() {
    for subprotocol in [
        Subprotocol::Receive,
        Subprotocol::Send,
        Subprotocol::Interactive,
        Subprotocol::Meta,
    ] {
        assert!(
            !is_tls_hello(subprotocol.byte()),
            "{} would be read as a TLS record",
            subprotocol.to_string()
        );
    }
    assert!(is_tls_hello(0x16));
}

#[test]
fn a_minor_code_this_crate_never_heard_of_still_parses_by_class() {
    let invented = Status::new(5, 7).expect("57 is a well-formed code");
    assert_eq!(invented.major(), Major::PermanentError);
    assert_eq!(invented.code(), 57);
    assert_eq!(invented.minor(), 7);
}

#[test]
fn nine_is_not_a_status_class() {
    assert_eq!(Status::new(9, 0), None, "the spec defines 0x through 8x");
    assert_eq!(Major::from_digit(9), None);
}

#[test]
fn only_success_carries_a_body() {
    assert!(Status::OK().has_body());
    assert!(Status::PARTIAL().has_body());
    assert!(Status::METADATA().has_body());
    assert!(!Status::ACCEPTED_NEW().has_body());
    assert!(!Status::READY_NEW().has_body());
    assert!(!Status::INTERACTIVE().has_body());
}

#[test]
fn the_last_parameter_keeps_its_spaces() {
    assert_eq!(
        split_parameters(Status::OK(), "1234 text/plain;charset=utf-8"),
        vec!["1234", "text/plain;charset=utf-8"]
    );
    assert_eq!(
        split_parameters(Status::TEMPORARY_ERROR(), "60 come back later please"),
        vec!["60", "come back later please"]
    );
    assert_eq!(
        split_parameters(Status::NOT_FOUND(), "no such file here"),
        vec!["no such file here"],
        "a 5x line is one free-text parameter, spaces and all"
    );
}

#[test]
fn an_absent_retry_estimate_is_still_a_parameter() {
    assert_eq!(
        split_parameters(Status::MAINTENANCE(), "? back in a while"),
        vec!["?", "back in a while"]
    );
}

#[test]
fn codes_render_as_two_digits() {
    assert_eq!(Status::INTERACTIVE().to_ascii(), *b"00");
    assert_eq!(Status::OK().to_ascii(), *b"20");
    assert_eq!(Status::ACCEPTED_OTHER().to_ascii(), *b"82");
    assert_eq!(Status::INTERACTIVE().to_string(), "00");
}

#[test]
fn every_class_digit_round_trips() {
    for digit in 0u8..=8 {
        assert_eq!(Major::from_digit(digit).unwrap().digit(), digit);
    }
    assert_eq!(Status::new(8, 9).unwrap().code(), 89);
    assert_eq!(Status::new(2, 10), None);
}
