//! What an FSP client decides: the numbered request datagrams it sends,
//! which datagram answers a request, and how a file or a directory is read
//! block by block. The socket and the clock are the caller's.
use vstd::prelude::*;

use crate::bytes::append_bytes;
use crate::fsp::wire::{
    be16_bytes, be32_bytes, decode, encode, entry_reads_as, parse_directory, spec_checksum,
    spec_decode, spec_entries, trim_nul, Command, DecodeError, DirEntry, Direction, Header,
    Packet, MAX_PAYLOAD,
};
use crate::text::concat;

verus! {

broadcast use vstd::string::group_string_axioms;

/// Why a request failed.
#[derive(Clone, Debug, PartialEq, Eq)]
pub enum ClientError {
    Connect(String),
    Io(String),
    /// A reply that does not decode.
    Protocol(String),
    /// The server answered with an error packet; its message.
    Refused(String),
    /// No answer came within the retries.
    TimedOut,
}

impl ClientError {
    /// A sentence saying what went wrong.
    pub fn to_string(&self) -> (r: String)
        ensures
            r@ == match self {
                ClientError::Connect(m) => "connect: "@ + m@,
                ClientError::Io(m) => "io: "@ + m@,
                ClientError::Protocol(m) => "protocol: "@ + m@,
                ClientError::Refused(m) => "server refused: "@ + m@,
                ClientError::TimedOut => "no reply within the retry budget"@,
            },
    {
        match self {
            ClientError::Connect(m) => concat("connect: ", m.as_str()),
            ClientError::Io(m) => concat("io: ", m.as_str()),
            ClientError::Protocol(m) => concat("protocol: ", m.as_str()),
            ClientError::Refused(m) => concat("server refused: ", m.as_str()),
            ClientError::TimedOut => "no reply within the retry budget".to_string(),
        }
    }

    /// A reply that does not decode, as a protocol error.
    pub fn from_decode(error: DecodeError) -> (r: Self)
        ensures
            r matches ClientError::Protocol(m) && m@ == error.spec_message(),
    {
        ClientError::Protocol(error.to_string())
    }
}

/// A header's twelve bytes, the checksum byte zero.
pub open spec fn header_bytes(h: Header) -> Seq<u8> {
    seq![h.command, 0u8] + be16_bytes(h.key) + be16_bytes(h.sequence) + be16_bytes(
        h.data_length,
    ) + be32_bytes(h.file_position)
}

/// A request datagram: the header and the payload, with the checksum for
/// the client-to-server direction in the second byte.
pub open spec fn request_wire(h: Header, data: Seq<u8>) -> Seq<u8> {
    let raw = header_bytes(h) + data;
    raw.update(1, spec_checksum(raw, Direction::ClientToServer))
}

/// A session's numbering: the key the server handed out last, the sequence
/// number of the last request, and how many times a request is sent before
/// giving up.
#[derive(Clone, Copy, Debug, PartialEq, Eq)]
pub struct Exchange {
    pub key: u16,
    pub sequence: u16,
    pub attempts: u32,
}

impl Exchange {
    /// A fresh session: key 0, sequence 1, three attempts.
    pub fn new() -> (r: Self)
        ensures
            r.key == 0,
            r.sequence == 1,
            r.attempts == 3,
    {
        Exchange { key: 0, sequence: 1, attempts: 3 }
    }

    /// Numbers the next request and writes its datagram: the sequence moves
    /// on by one (wrapping), and the last key is echoed. The header's
    /// sixteen-bit length field holds the data's length modulo 65536.
    pub fn request(&mut self, command: Command, data: &[u8], file_position: u32) -> (r: Vec<u8>)
        ensures
            final(self).key == old(self).key,
            final(self).attempts == old(self).attempts,
            final(self).sequence == (if old(self).sequence == u16::MAX {
                0
            } else {
                (old(self).sequence + 1) as u16
            }),
            r@ == request_wire(
                Header {
                    command: command.spec_code(),
                    key: old(self).key,
                    sequence: final(self).sequence,
                    data_length: (data@.len() % 65536) as u16,
                    file_position,
                },
                data@,
            ),
    {
        self.sequence = if self.sequence == u16::MAX {
            0
        } else {
            self.sequence + 1
        };
        let mut payload: Vec<u8> = Vec::new();
        append_bytes(&mut payload, data);
        let packet = Packet {
            header: Header {
                command: command.code(),
                key: self.key,
                sequence: self.sequence,
                data_length: (data.len() % 65536) as u16,
                file_position,
            },
            data: payload,
            extra: Vec::new(),
        };
        let r = encode(&packet, Direction::ClientToServer);
        assert(crate::fsp::wire::spec_unsummed(packet) =~= header_bytes(packet.header) + data@);
        r
    }

    /// Reads a datagram received while waiting: one that does not decode,
    /// or that answers another request, is no answer (`None`). An answer
    /// hands over the server's key for the next request, and is a refusal
    /// when it is an error packet.
    pub fn answer(&mut self, datagram: &[u8]) -> (r: Option<Result<Packet, ClientError>>)
        ensures
            final(self).attempts == old(self).attempts,
            final(self).sequence == old(self).sequence,
            match spec_decode(datagram@, Direction::ServerToClient) {
                Ok((header, n)) => if header.sequence == old(self).sequence {
                    final(self).key == header.key && if header.command == Command::Error.spec_code() {
                        r matches Some(Err(ClientError::Refused(m))) && m@
                            == crate::text::trim_end_nul(crate::bytes::lossy_text(
                            datagram@.subrange(12, 12 + n),
                        ))
                    } else {
                        r matches Some(Ok(p)) && p.header == header && p.data@ == datagram@.subrange(
                            12,
                            12 + n,
                        ) && p.extra@ == datagram@.skip(12 + n)
                    }
                } else {
                    r is None && final(self).key == old(self).key
                },
                Err(_) => r is None && final(self).key == old(self).key,
            },
    {
        match decode(datagram, Direction::ServerToClient) {
            Ok(packet) => {
                if packet.header.sequence != self.sequence {
                    return None;
                }
                self.key = packet.header.key;
                if packet.header.command == Command::Error.code() {
                    return Some(Err(ClientError::Refused(trim_nul(packet.data.as_slice()))));
                }
                Some(Ok(packet))
            },
            Err(_) => None,
        }
    }
}

/// Adds a block of a file to what has been read and says whether the file
/// is whole: an empty block, or one shorter than a full payload, is the
/// last.
pub fn take_file_block(body: &mut Vec<u8>, block: &[u8]) -> (done: bool)
    ensures
        final(body)@ == old(body)@ + block@,
        done == (block@.len() == 0 || block@.len() < MAX_PAYLOAD),
{
    append_bytes(body, block);
    block.len() == 0 || block.len() < MAX_PAYLOAD
}

/// Adds a block of a directory listing to the entries read, and gives the
/// offset of the next block, or `None` when the listing is over: an empty
/// block, or one without entries, ends it.
pub fn take_directory_block(entries: &mut Vec<DirEntry>, offset: u32, data: &[u8]) -> (r: Option<
    u32,
>)
    requires
        offset + data@.len() <= u32::MAX,
    ensures
        data@.len() == 0 ==> r is None && final(entries)@ == old(entries)@,
        data@.len() > 0 ==> {
            let raw = spec_entries(data@, 0);
            &&& final(entries)@.len() == old(entries)@.len() + raw.len()
            &&& final(entries)@.take(old(entries)@.len() as int) == old(entries)@
            &&& forall|i: int|
                0 <= i < raw.len() ==> entry_reads_as(
                    raw[i],
                    #[trigger] final(entries)@[old(entries)@.len() + i],
                )
            &&& r == (if raw.len() == 0 {
                None
            } else {
                Some((offset + data@.len()) as u32)
            })
        },
{
    if data.len() == 0 {
        return None;
    }
    let mut block = parse_directory(data);
    let ghost parsed = block@;
    let finished = block.len() == 0;
    let ghost start = entries@;
    entries.append(&mut block);
    assert(entries@ =~= start + parsed);
    assert(entries@.take(start.len() as int) =~= start);
    assert forall|i: int| 0 <= i < spec_entries(data@, 0).len() implies entry_reads_as(
        spec_entries(data@, 0)[i],
        #[trigger] entries@[start.len() + i],
    ) by {
        assert(entries@[start.len() + i] == parsed[i]);
    }
    if finished {
        None
    } else {
        Some(offset + data.len() as u32)
    }
}

} // verus!
