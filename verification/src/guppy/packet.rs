//! Guppy's datagrams: `<header>\r\n[<data>]` from the server, an
//! acknowledgement or a request line from the client.
use vstd::prelude::*;
use vstd::utf8::{decode_utf8, encode_utf8, valid_utf8};

use crate::bytes::{append_bytes, copy_range, find_crlf, find_crlf_in, str_from_utf8};
use crate::text::{
    chars_of, concat, debug_quoted, debug_string, decimal, decimal_chars, eq_str, parse_u32,
    parse_unsigned, split_once, split_once_char, string_of, trim, trimmed,
};

verus! {

broadcast use vstd::string::group_string_axioms;

/// A server-to-client packet.
#[derive(Debug, Clone, PartialEq, Eq)]
pub enum Packet {
    /// `<seq> <mimetype>\r\n<data>`: the first packet of a success.
    First { seq: u32, mime: String, data: Vec<u8> },
    /// `<seq>\r\n<data>`: a continuation; empty data marks the end.
    Continuation { seq: u32, data: Vec<u8> },
    /// `1 <prompt>\r\n`
    Prompt { text: String },
    /// `3 <url>\r\n`
    Redirect { target: String },
    /// `4 <error>\r\n`
    Error { message: String },
}

/// A packet over character sequences and byte sequences.
pub enum PacketModel {
    First { seq: u32, mime: Seq<char>, data: Seq<u8> },
    Continuation { seq: u32, data: Seq<u8> },
    Prompt { text: Seq<char> },
    Redirect { target: Seq<char> },
    Error { message: Seq<char> },
}

impl View for Packet {
    type V = PacketModel;

    open spec fn view(&self) -> PacketModel {
        match self {
            Packet::First { seq, mime, data } => PacketModel::First {
                seq: *seq,
                mime: mime@,
                data: data@,
            },
            Packet::Continuation { seq, data } => PacketModel::Continuation {
                seq: *seq,
                data: data@,
            },
            Packet::Prompt { text } => PacketModel::Prompt { text: text@ },
            Packet::Redirect { target } => PacketModel::Redirect { target: target@ },
            Packet::Error { message } => PacketModel::Error { message: message@ },
        }
    }
}

/// What a datagram from a server reads as. Its header runs to the first
/// CRLF and must be UTF-8. A lone `1`, `3` or `4` before the first space is
/// a prompt, redirect or error, the rest trimmed; any other token before a
/// space is a first packet's sequence number, with a non-empty MIME type
/// after it; a header without a space is a continuation's number.
pub open spec fn spec_parse_packet(d: Seq<u8>) -> Result<PacketModel, Seq<char>> {
    match find_crlf(d) {
        None => Err("packet has no CRLF"@),
        Some(split) => {
            let hb = d.take(split);
            let data = d.skip(split + 2);
            if !valid_utf8(hb) {
                Err("packet header is not UTF-8"@)
            } else {
                let h = decode_utf8(hb);
                match split_once(h, ' ') {
                    Some((k, rest)) => if k == seq!['1'] {
                        Ok(PacketModel::Prompt { text: trim(rest) })
                    } else if k == seq!['3'] {
                        Ok(PacketModel::Redirect { target: trim(rest) })
                    } else if k == seq!['4'] {
                        Ok(PacketModel::Error { message: trim(rest) })
                    } else {
                        match parse_unsigned(k, u32::MAX as nat) {
                            None => Err("bad sequence number: "@ + debug_quoted(k)),
                            Some(n) => if trim(rest).len() == 0 {
                                Err("first packet has an empty MIME type"@)
                            } else {
                                Ok(PacketModel::First { seq: n as u32, mime: trim(rest), data })
                            },
                        }
                    },
                    None => match parse_unsigned(trim(h), u32::MAX as nat) {
                        None => Err("bad packet header: "@ + debug_quoted(h)),
                        Some(n) => Ok(PacketModel::Continuation { seq: n as u32, data }),
                    },
                }
            }
        },
    }
}

/// Reads a server-to-client packet.
pub fn parse_packet(datagram: &[u8]) -> (r: Result<Packet, String>)
    ensures
        match spec_parse_packet(datagram@) {
            Ok(p) => r matches Ok(x) && x@ == p,
            Err(e) => r matches Err(x) && x@ == e,
        },
{
    let split = match find_crlf_in(datagram) {
        Some(i) => i,
        None => return Err("packet has no CRLF".to_string()),
    };
    proof {
        crate::bytes::lemma_find_crlf(datagram@);
    }
    assert(split + 2 <= datagram.len());
    let hb = copy_range(datagram, 0, split);
    assert(hb@ =~= datagram@.take(split as int));
    let header = match str_from_utf8(hb.as_slice()) {
        Some(h) => h,
        None => return Err("packet header is not UTF-8".to_string()),
    };
    let data = copy_range(datagram, split + 2, datagram.len());
    assert(data@ =~= datagram@.skip(split + 2));
    let h = chars_of(header);
    proof {
        reveal_strlit("1");
        reveal_strlit("3");
        reveal_strlit("4");
        assert("1"@ =~= seq!['1']);
        assert("3"@ =~= seq!['3']);
        assert("4"@ =~= seq!['4']);
    }
    match split_once_char(h.as_slice(), ' ') {
        Some((k, rest)) => {
            if eq_str(k.as_slice(), "1") {
                Ok(Packet::Prompt { text: string_of(trimmed(rest.as_slice()).as_slice()) })
            } else if eq_str(k.as_slice(), "3") {
                Ok(Packet::Redirect { target: string_of(trimmed(rest.as_slice()).as_slice()) })
            } else if eq_str(k.as_slice(), "4") {
                Ok(Packet::Error { message: string_of(trimmed(rest.as_slice()).as_slice()) })
            } else {
                match parse_u32(k.as_slice()) {
                    None => {
                        let q = debug_string(string_of(k.as_slice()).as_str());
                        Err(concat("bad sequence number: ", q.as_str()))
                    },
                    Some(n) => {
                        let mime = trimmed(rest.as_slice());
                        if mime.len() == 0 {
                            Err("first packet has an empty MIME type".to_string())
                        } else {
                            Ok(Packet::First { seq: n, mime: string_of(mime.as_slice()), data })
                        }
                    },
                }
            }
        },
        None => {
            match parse_u32(trimmed(h.as_slice()).as_slice()) {
                None => {
                    let q = debug_string(header);
                    Err(concat("bad packet header: ", q.as_str()))
                },
                Some(n) => Ok(Packet::Continuation { seq: n, data }),
            }
        },
    }
}

/// A text line and CRLF as bytes, then some data.
pub open spec fn wire(line: Seq<char>, data: Seq<u8>) -> Seq<u8> {
    encode_utf8(line + seq!['\r', '\n']) + data
}

fn line_then(line: Vec<char>, data: &[u8]) -> (r: Vec<u8>)
    ensures
        r@ == wire(line@, data@),
{
    let ghost l0 = line@;
    let mut line = line;
    line.push('\r');
    line.push('\n');
    assert(line@ =~= l0 + seq!['\r', '\n']);
    let s = string_of(line.as_slice());
    let mut out: Vec<u8> = Vec::new();
    append_bytes(&mut out, s.as_str().as_bytes());
    append_bytes(&mut out, data);
    out
}

/// The first packet of a success: number, space, MIME type, CRLF, data.
pub fn encode_first(seq: u32, mime: &str, data: &[u8]) -> (r: Vec<u8>)
    ensures
        r@ == wire(decimal(seq as nat) + seq![' '] + mime@, data@),
{
    let mut v = decimal_chars(seq as u64);
    v.push(' ');
    crate::text::append_chars(&mut v, chars_of(mime).as_slice());
    assert(v@ =~= decimal(seq as nat) + seq![' '] + mime@);
    line_then(v, data)
}

/// A continuation: number, CRLF, data; empty data encodes the end.
pub fn encode_continuation(seq: u32, data: &[u8]) -> (r: Vec<u8>)
    ensures
        r@ == wire(decimal(seq as nat), data@),
{
    line_then(decimal_chars(seq as u64), data)
}

/// An acknowledgement from the client: the number and CRLF.
pub fn encode_ack(seq: u32) -> (r: Vec<u8>)
    ensures
        r@ == wire(decimal(seq as nat), seq![]),
{
    let empty: [u8; 0] = [];
    line_then(decimal_chars(seq as u64), empty.as_slice())
}

/// A client-to-server datagram.
#[derive(Debug, Clone, PartialEq, Eq)]
pub enum ClientDatagram {
    /// A bare number and nothing after it.
    Ack(u32),
    /// A request's URL line.
    Request(String),
}

/// What a datagram from a client reads as: its line runs to the first CRLF
/// and must be UTF-8; a line that is a number, trimmed, with nothing after
/// the CRLF is an acknowledgement, anything else a request.
pub open spec fn spec_parse_client(d: Seq<u8>) -> Result<Result<u32, Seq<char>>, Seq<char>> {
    match find_crlf(d) {
        None => Err("datagram has no CRLF"@),
        Some(split) => {
            let lb = d.take(split);
            if !valid_utf8(lb) {
                Err("datagram is not UTF-8"@)
            } else {
                let line = decode_utf8(lb);
                if d.len() == split + 2 && parse_unsigned(trim(line), u32::MAX as nat) is Some {
                    Ok(Ok(parse_unsigned(trim(line), u32::MAX as nat).unwrap() as u32))
                } else {
                    Ok(Err(line))
                }
            }
        },
    }
}

/// Reads a client-to-server datagram.
pub fn parse_client_datagram(datagram: &[u8]) -> (r: Result<ClientDatagram, String>)
    ensures
        match spec_parse_client(datagram@) {
            Ok(Ok(n)) => r == Ok::<ClientDatagram, String>(ClientDatagram::Ack(n)),
            Ok(Err(line)) => r matches Ok(ClientDatagram::Request(x)) && x@ == line,
            Err(e) => r matches Err(x) && x@ == e,
        },
{
    let split = match find_crlf_in(datagram) {
        Some(i) => i,
        None => return Err("datagram has no CRLF".to_string()),
    };
    proof {
        crate::bytes::lemma_find_crlf(datagram@);
    }
    let lb = copy_range(datagram, 0, split);
    assert(lb@ =~= datagram@.take(split as int));
    let line = match str_from_utf8(lb.as_slice()) {
        Some(l) => l,
        None => return Err("datagram is not UTF-8".to_string()),
    };
    if datagram.len() == split + 2 {
        match parse_u32(trimmed(chars_of(line).as_slice()).as_slice()) {
            Some(n) => return Ok(ClientDatagram::Ack(n)),
            None => {},
        }
    }
    Ok(ClientDatagram::Request(line.to_string()))
}

/// A line of number text and CRLF as bytes, and what `find_crlf` makes of it.
proof fn lemma_line_bytes(line: Seq<char>, data: Seq<u8>)
    requires
        forall|i: int| 0 <= i < line.len() ==> #[trigger] line[i] != '\r',
    ensures
        wire(line, data) == encode_utf8(line) + seq![13u8, 10u8] + data,
        find_crlf(wire(line, data)) == Some(encode_utf8(line).len() as int),
        wire(line, data).take(encode_utf8(line).len() as int) == encode_utf8(line),
        wire(line, data).skip(encode_utf8(line).len() + 2 as int) == data,
        valid_utf8(encode_utf8(line)),
        decode_utf8(encode_utf8(line)) == line,
{
    crate::bytes::lemma_crlf_line(line, data);
}

/// No digit spelling holds a space or a carriage return.
proof fn lemma_decimal_plain(n: nat)
    ensures
        forall|i: int| 0 <= i < decimal(n).len() ==> #[trigger] decimal(n)[i] != '\r' && decimal(
            n,
        )[i] != ' ',
        decimal(n).len() > 0,
        parse_unsigned(decimal(n), n) == Some(n),
{
    crate::text::lemma_decimal_round_trip(n);
    assert forall|i: int| 0 <= i < decimal(n).len() implies #[trigger] decimal(n)[i] != '\r'
        && decimal(n)[i] != ' ' by {
        assert(crate::text::is_digit(decimal(n)[i]));
    }
}

/// A first packet reads back as itself, when its number is not one of the
/// special digits `1`, `3`, `4` and its MIME type is trimmed, non-empty and
/// free of carriage returns.
pub proof fn lemma_first_reads_back(seq: u32, mime: Seq<char>, data: Seq<u8>)
    requires
        seq != 1 && seq != 3 && seq != 4,
        mime.len() > 0,
        trim(mime) == mime,
        forall|i: int| 0 <= i < mime.len() ==> #[trigger] mime[i] != '\r',
    ensures
        spec_parse_packet(wire(decimal(seq as nat) + seq![' '] + mime, data)) == Ok::<
            PacketModel,
            Seq<char>,
        >(PacketModel::First { seq, mime, data }),
{
    let d = decimal(seq as nat);
    lemma_decimal_plain(seq as nat);
    let line = d + seq![' '] + mime;
    assert forall|i: int| 0 <= i < line.len() implies #[trigger] line[i] != '\r' by {
        if i < d.len() {
            assert(line[i] == d[i]);
        } else if i > d.len() {
            assert(line[i] == mime[i - d.len() - 1]);
        }
    }
    lemma_line_bytes(line, data);
    crate::text::lemma_find_at(line, ' ', d.len() as int);
    assert(line.take(d.len() as int) =~= d);
    assert(line.skip(d.len() + 1 as int) =~= mime);
    crate::text::lemma_decimal_round_trip(seq as nat);
    assert(parse_unsigned(d, u32::MAX as nat) == Some(seq as nat));
    if d == seq!['1'] || d == seq!['3'] || d == seq!['4'] {
        crate::text::lemma_decimal_round_trip(seq as nat);
        assert(crate::text::decimal_value(d) == seq);
        assert(crate::text::decimal_value(d) == crate::text::decimal_value(d.drop_last()) * 10
            + crate::text::digit_value(d.last()));
        assert(d.drop_last() =~= Seq::<char>::empty());
    }
}

/// A continuation reads back as itself, whatever its data.
pub proof fn lemma_continuation_reads_back(seq: u32, data: Seq<u8>)
    ensures
        spec_parse_packet(wire(decimal(seq as nat), data)) == Ok::<PacketModel, Seq<char>>(
            PacketModel::Continuation { seq, data },
        ),
{
    let d = decimal(seq as nat);
    lemma_decimal_plain(seq as nat);
    lemma_line_bytes(d, data);
    crate::text::lemma_find_none(d, ' ');
    crate::text::lemma_decimal_round_trip(seq as nat);
    crate::text::lemma_digits_word(d);
    lemma_digits_trimmed(d);
}

/// An acknowledgement reads back as its number.
pub proof fn lemma_ack_reads_back(seq: u32)
    ensures
        spec_parse_client(wire(decimal(seq as nat), seq![])) == Ok::<
            Result<u32, Seq<char>>,
            Seq<char>,
        >(Ok(seq)),
{
    let d = decimal(seq as nat);
    lemma_decimal_plain(seq as nat);
    lemma_line_bytes(d, seq![]);
    crate::text::lemma_decimal_round_trip(seq as nat);
    lemma_digits_trimmed(d);
    assert(wire(d, seq![]).len() == encode_utf8(d).len() + 2);
}

/// A run of digits is left alone by trimming.
proof fn lemma_digits_trimmed(d: Seq<char>)
    requires
        crate::text::all_digits(d),
    ensures
        trim(d) == d,
{
    crate::text::lemma_digits_word(d);
    if d.len() > 0 {
        assert(crate::text::is_digit(d[0]));
        assert(crate::text::is_digit(d.last()));
    }
    assert(crate::text::trim_start(d) == d);
    assert(crate::text::trim_end(d) == d);
}

} // verus!
