use smolweb::fsp::client::{take_directory_block, take_file_block, ClientError, Exchange};
use smolweb::fsp::wire::{
    decode, encode, nul_terminated, Command, DecodeError, Direction, Header, Packet, MAX_PAYLOAD,
};

fn reply(command: Command, key: u16, sequence: u16, data: &[u8]) -> Vec<u8> {
    let packet = Packet {
        header: Header {
            command: command.code(),
            key,
            sequence,
            data_length: data.len() as u16,
            file_position: 0,
        },
        data: data.to_vec(),
        extra: Vec::new(),
    };
    encode(&packet, Direction::ServerToClient)
}

#[test]
fn a_stale_sequence_is_ignored_and_the_right_reply_accepted() {
    let mut session = Exchange::new();
    let sent = session.request(Command::GetFile, &nul_terminated("/x"), 0);
    let asked = decode(&sent, Direction::ClientToServer).unwrap();
    assert_eq!(asked.header.sequence, 2);
    assert_eq!(asked.data, b"/x\0");

    let stale = reply(Command::GetFile, 0x1111, asked.header.sequence.wrapping_sub(7), b"stale");
    assert!(session.answer(&stale).is_none());
    let good = reply(Command::GetFile, 0x2222, asked.header.sequence, b"right");
    let block = session.answer(&good).unwrap().unwrap().data;

    assert_eq!(block, b"right", "the stale sequence must not be accepted");
    assert_eq!(session.key, 0x2222, "the server's key is adopted for next time");
    let next = decode(&session.request(Command::Version, &[], 0), Direction::ClientToServer).unwrap();
    assert_eq!((next.header.key, next.header.sequence), (0x2222, 3));
}

#[test]
fn a_server_error_surfaces_with_its_message() {
    let mut session = Exchange::new();
    let sent = session.request(Command::GetFile, &nul_terminated("/nope"), 0);
    let asked = decode(&sent, Direction::ClientToServer).unwrap();
    let error = reply(Command::Error, 9, asked.header.sequence, b"no such file\0");
    assert_eq!(
        session.answer(&error).unwrap().unwrap_err(),
        ClientError::Refused("no such file".into())
    );
    assert_eq!(session.key, 9);
}

#[test]
fn silence_times_out_rather_than_hanging() {
    assert_eq!(ClientError::TimedOut.to_string(), "no reply within the retry budget");
    let mut session = Exchange { key: 0, sequence: u16::MAX, attempts: 2 };
    let sent = session.request(Command::Version, &[], 0);
    assert_eq!(decode(&sent, Direction::ClientToServer).unwrap().header.sequence, 0);
    assert_eq!(session.attempts, 2);
    assert!(session.answer(b"garbage").is_none());
}

#[test]
fn a_file_is_read_until_a_short_block() {
    let mut body = Vec::new();
    assert!(!take_file_block(&mut body, &vec![7u8; MAX_PAYLOAD]));
    assert!(take_file_block(&mut body, b"tail"));
    assert_eq!(body.len(), MAX_PAYLOAD + 4);
    assert!(take_file_block(&mut body, b""));
    assert_eq!(
        ClientError::from_decode(DecodeError::TooShort).to_string(),
        "protocol: packet shorter than a 12-byte header"
    );
    assert_eq!(
        DecodeError::BadChecksum { expected: 0x0a, found: 0xff }.to_string(),
        "checksum mismatch: expected 0x0a, found 0xff"
    );
}

#[test]
fn a_listing_is_read_until_an_empty_block() {
    let mut entries = Vec::new();
    assert_eq!(take_directory_block(&mut entries, 0, b""), None);
    let mut block = Vec::new();
    block.extend_from_slice(&1u32.to_be_bytes());
    block.extend_from_slice(&5u32.to_be_bytes());
    block.push(1);
    block.extend_from_slice(b"a.txt\0");
    while block.len() % 4 != 0 {
        block.push(0);
    }
    let n = block.len() as u32;
    assert_eq!(take_directory_block(&mut entries, 0, &block), Some(n));
    assert_eq!(entries.len(), 1);
    assert_eq!(entries[0].name, "a.txt");
}

#[test]
fn a_payload_longer_than_the_length_field_wraps_it() {
    let mut session = Exchange::new();
    let data = vec![7u8; 65_536 + 3];
    let sent = decode(&session.request(Command::UpLoad, &data, 0), Direction::ClientToServer).unwrap();
    assert_eq!(sent.header.data_length, 3);
    assert_eq!(sent.data, vec![7u8; 3]);
    assert_eq!(sent.extra.len(), 65_536);
}
