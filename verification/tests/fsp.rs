use smolweb::fsp::wire::{
    checksum, decode, encode, nul_terminated, parse_directory, trim_nul, Command, DecodeError,
    DirEntry, Direction, EntryKind, Header, Packet, HEADER_LEN, RDTYPE_DIR, RDTYPE_END,
    RDTYPE_FILE, RDTYPE_SKIP,
};

fn packet(command: Command, data: &[u8]) -> Packet {
    Packet {
        header: Header {
            command: command.code(),
            key: 0xBEEF,
            sequence: 0x1234,
            data_length: data.len() as u16,
            file_position: 0,
        },
        data: data.to_vec(),
        extra: Vec::new(),
    }
}

#[test]
fn the_header_is_twelve_bytes_in_network_order() {
    let bytes = encode(&packet(Command::GetFile, b"hi"), Direction::ClientToServer);
    assert_eq!(bytes.len(), HEADER_LEN + 2);
    assert_eq!(bytes[0], 0x42, "command");
    assert_eq!(&bytes[2..4], &[0xBE, 0xEF], "key, high byte first");
    assert_eq!(&bytes[4..6], &[0x12, 0x34], "sequence, high byte first");
    assert_eq!(&bytes[6..8], &[0x00, 0x02], "data length");
}

#[test]
fn the_checksum_differs_by_direction() {
    let raw = [0x41u8, 0x00, 0, 1, 0, 2, 0, 0, 0, 0, 0, 0];
    let to_client = checksum(&raw, Direction::ServerToClient);
    let to_server = checksum(&raw, Direction::ClientToServer);
    assert_ne!(to_client, to_server);
    assert_eq!(
        to_server.wrapping_sub(to_client),
        HEADER_LEN as u8,
        "the difference is the packet size"
    );
}

#[test]
fn a_packet_round_trips_in_each_direction() {
    for direction in [Direction::ServerToClient, Direction::ClientToServer] {
        let sent = packet(Command::GetDir, b"/pub");
        let bytes = encode(&sent, direction);
        assert_eq!(decode(&bytes, direction).unwrap(), sent);
    }
}

#[test]
fn a_packet_checksummed_one_way_is_refused_the_other() {
    let bytes = encode(&packet(Command::GetDir, b"/pub"), Direction::ClientToServer);
    let error = decode(&bytes, Direction::ServerToClient).unwrap_err();
    assert!(matches!(error, DecodeError::BadChecksum { .. }), "got {error:?}");
}

#[test]
fn a_corrupted_byte_is_caught() {
    let mut bytes = encode(&packet(Command::GetFile, b"data"), Direction::ServerToClient);
    bytes[HEADER_LEN] ^= 0xFF;
    assert!(matches!(
        decode(&bytes, Direction::ServerToClient),
        Err(DecodeError::BadChecksum { .. })
    ));
}

#[test]
fn a_short_packet_is_refused_rather_than_panicking() {
    assert_eq!(decode(&[0u8; 5], Direction::ServerToClient), Err(DecodeError::TooShort));
    assert_eq!(decode(&[], Direction::ServerToClient), Err(DecodeError::TooShort));
}

#[test]
fn a_lying_data_length_is_refused() {
    let mut sent = packet(Command::GetFile, b"four");
    sent.header.data_length = 9999;
    let bytes = encode(&sent, Direction::ServerToClient);
    assert!(matches!(
        decode(&bytes, Direction::ServerToClient),
        Err(DecodeError::LengthOverrun { .. })
    ));
}

#[test]
fn extra_data_after_the_payload_is_kept_and_checksummed() {
    let sent = Packet {
        header: Header {
            command: Command::Version.code(),
            key: 1,
            sequence: 2,
            data_length: 3,
            file_position: 2,
        },
        data: b"abc".to_vec(),
        extra: b"xy".to_vec(),
    };
    let bytes = encode(&sent, Direction::ServerToClient);
    let decoded = decode(&bytes, Direction::ServerToClient).unwrap();
    assert_eq!(decoded.data, b"abc");
    assert_eq!(decoded.extra, b"xy", "extra data survives");
}

#[test]
fn every_defined_command_round_trips_its_code() {
    for code in [
        0x10u8, 0x40, 0x41, 0x42, 0x43, 0x44, 0x45, 0x46, 0x47, 0x48, 0x49, 0x4A, 0x4B, 0x4C,
        0x4D, 0x4E, 0x4F,
    ] {
        assert_eq!(Command::from_code(code).unwrap().code(), code);
    }
    assert_eq!(Command::from_code(0x00), None);
    assert_eq!(Command::from_code(0x81), None, "extended headers are reserved");
}

fn entry(time: u32, size: u32, kind: u8, name: &str) -> Vec<u8> {
    let mut out = Vec::new();
    out.extend_from_slice(&time.to_be_bytes());
    out.extend_from_slice(&size.to_be_bytes());
    out.push(kind);
    out.extend_from_slice(name.as_bytes());
    out.push(0);
    while out.len() % 4 != 0 {
        out.push(0);
    }
    out
}

#[test]
fn directory_entries_parse_with_their_padding() {
    let mut block = entry(1000, 42, RDTYPE_FILE, "readme.txt");
    block.extend(entry(2000, 0, RDTYPE_DIR, "pub"));
    block.extend(entry(0, 0, RDTYPE_END, ""));

    let entries = parse_directory(&block);
    assert_eq!(entries.len(), 2);
    assert_eq!(
        entries[0],
        DirEntry {
            time: 1000,
            size: 42,
            kind: EntryKind::File,
            name: "readme.txt".into()
        }
    );
    assert_eq!(entries[1].kind, EntryKind::Directory);
    assert_eq!(entries[1].name, "pub");
}

#[test]
fn the_end_marker_stops_the_walk() {
    let mut block = entry(1, 1, RDTYPE_FILE, "a");
    block.extend(entry(0, 0, RDTYPE_END, ""));
    block.extend(entry(2, 2, RDTYPE_FILE, "never-read"));
    assert_eq!(parse_directory(&block).len(), 1);
}

#[test]
fn a_skip_marker_ends_the_block() {
    let mut block = entry(1, 1, RDTYPE_FILE, "a");
    block.extend(entry(0, 0, RDTYPE_SKIP, ""));
    assert_eq!(parse_directory(&block).len(), 1);
}

#[test]
fn a_truncated_entry_stops_cleanly() {
    let mut block = entry(1, 1, RDTYPE_FILE, "a");
    block.extend_from_slice(&[0, 0, 0, 5, 0, 0]);
    assert_eq!(parse_directory(&block).len(), 1);
}

#[test]
fn an_empty_block_yields_nothing() {
    assert!(parse_directory(&[]).is_empty());
}

#[test]
fn an_unknown_entry_type_is_passed_over() {
    let mut block = entry(1, 1, 0x07, "odd");
    block.extend(entry(3, 4, RDTYPE_FILE, "kept"));
    let entries = parse_directory(&block);
    assert_eq!(entries.len(), 1);
    assert_eq!(entries[0].name, "kept");
    assert_eq!(entries[0].time, 3);
    assert_eq!(entries[0].size, 4);
}

#[test]
fn a_path_is_nul_terminated() {
    assert_eq!(nul_terminated("/pub"), b"/pub\0");
    assert_eq!(nul_terminated(""), b"\0");
}

#[test]
fn a_reply_loses_its_trailing_nuls() {
    assert_eq!(trim_nul(b"no such file\0\0"), "no such file");
    assert_eq!(trim_nul(b"plain"), "plain");
}
