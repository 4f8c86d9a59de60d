//! FSP v2 packets: the 12-byte header, its direction-dependent checksum, and
//! directory entries. Numbers are network byte order, high byte first.
use vstd::prelude::*;
use vstd::utf8::{decode_utf8, encode_utf8, valid_utf8};

use crate::bytes::{append_bytes, be16, be32, copy_range, find_byte, string_from_utf8_lossy};
use crate::gemini::tofu::{hex, spec_hex};
use crate::text::{concat, decimal, decimal_chars, string_of};

verus! {

/// FSP's default port when a URL omits one.
pub const DEFAULT_PORT: u16 = 21;

/// The fixed header width.
pub const HEADER_LEN: usize = 12;

/// The payload size every implementation must accept.
pub const MAX_PAYLOAD: usize = 1024;

/// FSP command codes. Codes above `0x7F` are reserved for extended headers.
#[derive(Clone, Copy, Debug, PartialEq, Eq, Structural)]
pub enum Command {
    /// `0x10`: server version string and setup.
    Version,
    /// `0x40`: an error response from the server.
    Error,
    /// `0x41`: get a directory listing.
    GetDir,
    /// `0x42`: get a file.
    GetFile,
    /// `0x43`: open a file for writing.
    UpLoad,
    /// `0x44`: close and install a file opened for writing.
    Install,
    /// `0x45`: delete a file.
    DelFile,
    /// `0x46`: delete a directory.
    DelDir,
    /// `0x47`: get directory protection.
    GetPro,
    /// `0x48`: set directory protection.
    SetPro,
    /// `0x49`: create a directory.
    MakeDir,
    /// `0x4A`: finish a session.
    Bye,
    /// `0x4B`: atomic get-and-delete.
    GrabFile,
    /// `0x4C`: atomic get-and-delete, done.
    GrabDone,
    /// `0x4D`: information about a file or directory.
    Stat,
    /// `0x4E`: rename a file or directory.
    Rename,
    /// `0x4F`: change password.
    ChPassw,
}

impl Command {
    /// Each command's code.
    pub open spec fn spec_code(self) -> u8 {
        match self {
            Command::Version => 0x10,
            Command::Error => 0x40,
            Command::GetDir => 0x41,
            Command::GetFile => 0x42,
            Command::UpLoad => 0x43,
            Command::Install => 0x44,
            Command::DelFile => 0x45,
            Command::DelDir => 0x46,
            Command::GetPro => 0x47,
            Command::SetPro => 0x48,
            Command::MakeDir => 0x49,
            Command::Bye => 0x4A,
            Command::GrabFile => 0x4B,
            Command::GrabDone => 0x4C,
            Command::Stat => 0x4D,
            Command::Rename => 0x4E,
            Command::ChPassw => 0x4F,
        }
    }

    /// The command for a byte, or `None` if it is not one FSP defines.
    pub fn from_code(code: u8) -> (r: Option<Self>)
        ensures
            r matches Some(c) ==> c.spec_code() == code,
            r is None ==> forall|c: Command| c.spec_code() != code,
    {
        let r = match code {
            0x10 => Some(Self::Version),
            0x40 => Some(Self::Error),
            0x41 => Some(Self::GetDir),
            0x42 => Some(Self::GetFile),
            0x43 => Some(Self::UpLoad),
            0x44 => Some(Self::Install),
            0x45 => Some(Self::DelFile),
            0x46 => Some(Self::DelDir),
            0x47 => Some(Self::GetPro),
            0x48 => Some(Self::SetPro),
            0x49 => Some(Self::MakeDir),
            0x4A => Some(Self::Bye),
            0x4B => Some(Self::GrabFile),
            0x4C => Some(Self::GrabDone),
            0x4D => Some(Self::Stat),
            0x4E => Some(Self::Rename),
            0x4F => Some(Self::ChPassw),
            _ => None,
        };
        proof {
            if r is None {
                assert forall|c: Command| c.spec_code() != code by {
                    match c {
                        _ => {},
                    }
                }
            }
        }
        r
    }

    /// The command's code.
    pub fn code(self) -> (r: u8)
        ensures
            r == self.spec_code(),
    {
        match self {
            Self::Version => 0x10,
            Self::Error => 0x40,
            Self::GetDir => 0x41,
            Self::GetFile => 0x42,
            Self::UpLoad => 0x43,
            Self::Install => 0x44,
            Self::DelFile => 0x45,
            Self::DelDir => 0x46,
            Self::GetPro => 0x47,
            Self::SetPro => 0x48,
            Self::MakeDir => 0x49,
            Self::Bye => 0x4A,
            Self::GrabFile => 0x4B,
            Self::GrabDone => 0x4C,
            Self::Stat => 0x4D,
            Self::Rename => 0x4E,
            Self::ChPassw => 0x4F,
        }
    }
}

/// A command's code names it back, and no two commands share a code.
pub proof fn lemma_command_codes(a: Command, b: Command)
    ensures
        a.spec_code() == b.spec_code() ==> a == b,
{
}

/// Which way a packet is travelling, which changes how it is checksummed.
#[derive(Clone, Copy, Debug, PartialEq, Eq, Structural)]
pub enum Direction {
    /// The sum starts from zero.
    ServerToClient,
    /// The sum starts from the packet's size.
    ClientToServer,
}

/// The 12-byte header.
#[derive(Clone, Copy, Debug, PartialEq, Eq)]
pub struct Header {
    pub command: u8,
    /// The client echoes the server's previous key; the server checks it.
    pub key: u16,
    /// Chosen by the client and echoed by the server.
    pub sequence: u16,
    pub data_length: u16,
    /// A file offset, or the size of the extra-data area.
    pub file_position: u32,
}

/// A whole packet.
#[derive(Clone, Debug, PartialEq, Eq)]
pub struct Packet {
    pub header: Header,
    /// The payload, `DATA_LENGTH` bytes.
    pub data: Vec<u8>,
    /// The optional extra-data area that follows the payload.
    pub extra: Vec<u8>,
}

/// Why a packet could not be decoded.
#[derive(Clone, Debug, PartialEq, Eq)]
pub enum DecodeError {
    /// Shorter than a header.
    TooShort,
    /// `DATA_LENGTH` claims more than the datagram holds.
    LengthOverrun { claimed: usize, available: usize },
    /// The checksum did not match.
    BadChecksum { expected: u8, found: u8 },
}

impl DecodeError {
    /// The sentence a refusal is reported with; checksums are shown as `0x`
    /// and two lowercase hexadecimal digits.
    pub open spec fn spec_message(self) -> Seq<char> {
        match self {
            DecodeError::TooShort => "packet shorter than a 12-byte header"@,
            DecodeError::LengthOverrun { claimed, available } => "data length "@ + decimal(
                claimed as nat,
            ) + " exceeds "@ + decimal(available as nat) + " available"@,
            DecodeError::BadChecksum { expected, found } => "checksum mismatch: expected 0x"@
                + spec_hex(seq![expected]) + ", found 0x"@ + spec_hex(seq![found]),
        }
    }

    /// A sentence saying what went wrong.
    pub fn to_string(&self) -> (r: String)
        ensures
            r@ == self.spec_message(),
    {
        match self {
            DecodeError::TooShort => "packet shorter than a 12-byte header".to_string(),
            DecodeError::LengthOverrun { claimed, available } => {
                let c = string_of(decimal_chars(*claimed as u64).as_slice());
                let a = string_of(decimal_chars(*available as u64).as_slice());
                let s1 = concat("data length ", c.as_str());
                let s2 = concat(s1.as_str(), " exceeds ");
                let s3 = concat(s2.as_str(), a.as_str());
                concat(s3.as_str(), " available")
            },
            DecodeError::BadChecksum { expected, found } => {
                let e = [*expected];
                let f = [*found];
                assert(e@ =~= seq![*expected]);
                assert(f@ =~= seq![*found]);
                let s1 = concat("checksum mismatch: expected 0x", hex(&e).as_str());
                let s2 = concat(s1.as_str(), ", found 0x");
                concat(s2.as_str(), hex(&f).as_str())
            },
        }
    }
}

/// The sum of a packet's bytes, the checksum byte (position 1) counted as
/// zero.
pub open spec fn byte_sum(packet: Seq<u8>) -> nat
    decreases packet.len(),
{
    if packet.len() == 0 {
        0
    } else {
        byte_sum(packet.drop_last()) + if packet.len() - 1 == 1 {
            0
        } else {
            packet.last() as nat
        }
    }
}

/// FSP's one-byte checksum: the byte sum, started from zero one way and from
/// the packet size the other, kept to 32 bits, with its second byte folded
/// in.
pub open spec fn spec_checksum(packet: Seq<u8>, direction: Direction) -> u8 {
    let start: nat = match direction {
        Direction::ServerToClient => 0,
        Direction::ClientToServer => (packet.len() % 0x1_0000_0000) as nat,
    };
    let sum = (start + byte_sum(packet)) % 0x1_0000_0000;
    ((sum + sum / 256) % 256) as u8
}

/// Computes a packet's checksum for the way it travels.
pub fn checksum(packet: &[u8], direction: Direction) -> (r: u8)
    ensures
        r == spec_checksum(packet@, direction),
{
    let mut sum: u64 = match direction {
        Direction::ServerToClient => 0,
        Direction::ClientToServer => (packet.len() as u64) % 0x1_0000_0000,
    };
    let ghost start = sum as nat;
    let mut index: usize = 0;
    assert(packet@.take(0) =~= Seq::<u8>::empty());
    while index < packet.len()
        invariant
            index <= packet.len(),
            sum < 0x1_0000_0000,
            sum == (start + byte_sum(packet@.take(index as int))) % 0x1_0000_0000,
        decreases packet.len() - index,
    {
        assert(packet@.take(index + 1).drop_last() =~= packet@.take(index as int));
        if index != 1 {
            sum = (sum + packet[index] as u64) % 0x1_0000_0000;
        }
        index = index + 1;
    }
    assert(packet@.take(packet.len() as int) =~= packet@);
    ((sum + sum / 256) % 256) as u8
}

/// The plain sum of some bytes.
pub open spec fn bytes_total(bytes: Seq<u8>) -> nat
    decreases bytes.len(),
{
    if bytes.len() == 0 {
        0
    } else {
        bytes_total(bytes.drop_last()) + bytes.last() as nat
    }
}

proof fn lemma_byte_sum_skips_checksum(packet: Seq<u8>)
    requires
        packet.len() >= 2,
    ensures
        byte_sum(packet) == bytes_total(packet.update(1, 0u8)),
    decreases packet.len(),
{
    if packet.len() == 2 {
        let one = packet.drop_last();
        assert(one.drop_last() =~= Seq::<u8>::empty());
        assert(packet.update(1, 0u8).drop_last() =~= one);
        assert(byte_sum(one.drop_last()) == 0);
        assert(bytes_total(one.drop_last()) == 0);
        assert(byte_sum(one) == one.last() as nat);
        assert(bytes_total(one) == one.last() as nat);
        assert(byte_sum(packet) == byte_sum(one));
        assert(packet.update(1, 0u8).last() == 0);
        assert(bytes_total(packet.update(1, 0u8)) == bytes_total(one));
    } else {
        lemma_byte_sum_skips_checksum(packet.drop_last());
        assert(packet.update(1, 0u8).drop_last() =~= packet.drop_last().update(1, 0u8));
    }
}

/// FSP's checksum, said in terms of the datagram: with the checksum byte
/// read as zero, add up every byte, starting from zero server-to-client and
/// from the datagram's length client-to-server, keep the sum to 32 bits;
/// the checksum is that sum's low byte plus its second byte, modulo 256.
pub proof fn lemma_checksum_folds_second_byte(packet: Seq<u8>, direction: Direction)
    requires
        packet.len() >= 2,
    ensures
        ({
            let start: int = match direction {
                Direction::ServerToClient => 0,
                Direction::ClientToServer => packet.len() as int,
            };
            let s = (start + bytes_total(packet.update(1, 0u8))) % 0x1_0000_0000;
            spec_checksum(packet, direction) as int == (s % 256 + (s / 256) % 256) % 256
        }),
{
    lemma_byte_sum_skips_checksum(packet);
    let b = bytes_total(packet.update(1, 0u8)) as int;
    let m: int = 0x1_0000_0000;
    let len = packet.len() as int;
    vstd::arithmetic::div_mod::lemma_add_mod_noop(len % m, b, m);
    vstd::arithmetic::div_mod::lemma_add_mod_noop(len, b, m);
    vstd::arithmetic::div_mod::lemma_mod_twice(len, m);
    let start: int = match direction {
        Direction::ServerToClient => 0,
        Direction::ClientToServer => len,
    };
    let s = (start + b) % m;
    assert(s >= 0);
    vstd::arithmetic::div_mod::lemma_add_mod_noop(s, s / 256, 256);
}

/// A known datagram: a `GetFile` client-to-server with key `0xBEEF`,
/// sequence `0x1234` and the data `hi` sums to `0x316`, which folds to the
/// checksum `0x19`; the same bytes server-to-client sum to `0x308` and fold
/// to `0x0B`.
pub proof fn lemma_checksum_known_answer()
    ensures
        spec_checksum(
            seq![0x42u8, 0, 0xBE, 0xEF, 0x12, 0x34, 0, 2, 0, 0, 0, 0, 0x68, 0x69],
            Direction::ClientToServer,
        ) == 0x19,
        spec_checksum(
            seq![0x42u8, 0, 0xBE, 0xEF, 0x12, 0x34, 0, 2, 0, 0, 0, 0, 0x68, 0x69],
            Direction::ServerToClient,
        ) == 0x0B,
{
    let p = seq![0x42u8, 0, 0xBE, 0xEF, 0x12, 0x34, 0, 2, 0, 0, 0, 0, 0x68, 0x69];
    assert(p.take(1).drop_last() =~= p.take(0));
    assert(p.take(2).drop_last() =~= p.take(1));
    assert(p.take(3).drop_last() =~= p.take(2));
    assert(p.take(4).drop_last() =~= p.take(3));
    assert(p.take(5).drop_last() =~= p.take(4));
    assert(p.take(6).drop_last() =~= p.take(5));
    assert(p.take(7).drop_last() =~= p.take(6));
    assert(p.take(8).drop_last() =~= p.take(7));
    assert(p.take(9).drop_last() =~= p.take(8));
    assert(p.take(10).drop_last() =~= p.take(9));
    assert(p.take(11).drop_last() =~= p.take(10));
    assert(p.take(12).drop_last() =~= p.take(11));
    assert(p.take(13).drop_last() =~= p.take(12));
    assert(p.take(14).drop_last() =~= p.take(13));
    assert(p.take(14) =~= p);
    assert(byte_sum(p.take(0)) == 0);
    assert(byte_sum(p.take(1)) == 0x42);
    assert(byte_sum(p.take(2)) == 0x42);
    assert(byte_sum(p.take(3)) == 0x42 + 0xBE);
    assert(byte_sum(p.take(4)) == 0x42 + 0xBE + 0xEF);
    assert(byte_sum(p.take(5)) == 0x42 + 0xBE + 0xEF + 0x12);
    assert(byte_sum(p.take(6)) == 0x42 + 0xBE + 0xEF + 0x12 + 0x34);
    assert(byte_sum(p.take(7)) == 0x42 + 0xBE + 0xEF + 0x12 + 0x34);
    assert(byte_sum(p.take(8)) == 0x42 + 0xBE + 0xEF + 0x12 + 0x34 + 2);
    assert(byte_sum(p.take(9)) == 0x42 + 0xBE + 0xEF + 0x12 + 0x34 + 2);
    assert(byte_sum(p.take(10)) == 0x42 + 0xBE + 0xEF + 0x12 + 0x34 + 2);
    assert(byte_sum(p.take(11)) == 0x42 + 0xBE + 0xEF + 0x12 + 0x34 + 2);
    assert(byte_sum(p.take(12)) == 0x42 + 0xBE + 0xEF + 0x12 + 0x34 + 2);
    assert(byte_sum(p.take(13)) == 0x42 + 0xBE + 0xEF + 0x12 + 0x34 + 2 + 0x68);
    assert(byte_sum(p) == 0x308);
}

/// The two bytes of a 16-bit number, high first.
pub open spec fn be16_bytes(n: u16) -> Seq<u8> {
    seq![(n / 256) as u8, (n % 256) as u8]
}

/// The four bytes of a 32-bit number, high first.
pub open spec fn be32_bytes(n: u32) -> Seq<u8> {
    seq![
        (n / 0x100_0000) as u8,
        ((n / 0x1_0000) % 256) as u8,
        ((n / 256) % 256) as u8,
        (n % 256) as u8,
    ]
}

/// A packet's bytes with its checksum byte still zero.
pub open spec fn spec_unsummed(packet: Packet) -> Seq<u8> {
    seq![packet.header.command, 0u8] + be16_bytes(packet.header.key) + be16_bytes(
        packet.header.sequence,
    ) + be16_bytes(packet.header.data_length) + be32_bytes(packet.header.file_position)
        + packet.data@ + packet.extra@
}

/// A packet's bytes, checksummed for the way it travels.
pub open spec fn spec_encode(packet: Packet, direction: Direction) -> Seq<u8> {
    let raw = spec_unsummed(packet);
    raw.update(1, spec_checksum(raw, direction))
}

fn push_be16(out: &mut Vec<u8>, n: u16)
    ensures
        final(out)@ == old(out)@ + be16_bytes(n),
{
    out.push((n / 256) as u8);
    out.push((n % 256) as u8);
    assert(final(out)@ =~= old(out)@ + be16_bytes(n));
}

fn push_be32(out: &mut Vec<u8>, n: u32)
    ensures
        final(out)@ == old(out)@ + be32_bytes(n),
{
    out.push((n / 0x100_0000) as u8);
    out.push(((n / 0x1_0000) % 256) as u8);
    out.push(((n / 256) % 256) as u8);
    out.push((n % 256) as u8);
    assert(final(out)@ =~= old(out)@ + be32_bytes(n));
}

/// Encodes a packet, filling in its checksum for the given direction.
pub fn encode(packet: &Packet, direction: Direction) -> (r: Vec<u8>)
    ensures
        r@ == spec_encode(*packet, direction),
{
    let mut out: Vec<u8> = Vec::new();
    out.push(packet.header.command);
    out.push(0);
    push_be16(&mut out, packet.header.key);
    push_be16(&mut out, packet.header.sequence);
    push_be16(&mut out, packet.header.data_length);
    push_be32(&mut out, packet.header.file_position);
    append_bytes(&mut out, packet.data.as_slice());
    append_bytes(&mut out, packet.extra.as_slice());
    assert(out@ =~= spec_unsummed(*packet));
    let sum = checksum(out.as_slice(), direction);
    out.set(1, sum);
    out
}

/// What decoding a datagram gives: the header it carries, how long the data
/// is, or why it is refused.
pub open spec fn spec_decode(bytes: Seq<u8>, direction: Direction) -> Result<
    (Header, int),
    DecodeError,
> {
    if bytes.len() < 12 {
        Err(DecodeError::TooShort)
    } else if bytes[1] != spec_checksum(bytes, direction) {
        Err(DecodeError::BadChecksum { expected: spec_checksum(bytes, direction), found: bytes[1] })
    } else {
        let header = Header {
            command: bytes[0],
            key: be16(bytes[2], bytes[3]) as u16,
            sequence: be16(bytes[4], bytes[5]) as u16,
            data_length: be16(bytes[6], bytes[7]) as u16,
            file_position: be32(bytes[8], bytes[9], bytes[10], bytes[11]) as u32,
        };
        let available = bytes.len() - 12;
        if header.data_length > available {
            Err(
                DecodeError::LengthOverrun {
                    claimed: header.data_length as usize,
                    available: available as usize,
                },
            )
        } else {
            Ok((header, header.data_length as int))
        }
    }
}

/// Decodes a packet, verifying its checksum for the given direction.
pub fn decode(bytes: &[u8], direction: Direction) -> (r: Result<Packet, DecodeError>)
    ensures
        match spec_decode(bytes@, direction) {
            Ok((header, n)) => r matches Ok(p) && p.header == header && p.data@ == bytes@.subrange(
                12,
                12 + n,
            ) && p.extra@ == bytes@.skip(12 + n),
            Err(e) => r == Err::<Packet, DecodeError>(e),
        },
{
    if bytes.len() < HEADER_LEN {
        return Err(DecodeError::TooShort);
    }
    let found = bytes[1];
    let expected = checksum(bytes, direction);
    if found != expected {
        return Err(DecodeError::BadChecksum { expected, found });
    }
    let header = Header {
        command: bytes[0],
        key: (bytes[2] as u16) * 256 + bytes[3] as u16,
        sequence: (bytes[4] as u16) * 256 + bytes[5] as u16,
        data_length: (bytes[6] as u16) * 256 + bytes[7] as u16,
        file_position: (((bytes[8] as u32) * 256 + bytes[9] as u32) * 256 + bytes[10] as u32) * 256
            + bytes[11] as u32,
    };
    let data_length = header.data_length as usize;
    let available = bytes.len() - HEADER_LEN;
    if data_length > available {
        return Err(DecodeError::LengthOverrun { claimed: data_length, available });
    }
    let data = copy_range(bytes, HEADER_LEN, HEADER_LEN + data_length);
    let extra = copy_range(bytes, HEADER_LEN + data_length, bytes.len());
    Ok(Packet { header, data, extra })
}

/// The byte sum does not see what the checksum byte holds.
proof fn lemma_byte_sum_ignores_checksum(packet: Seq<u8>, value: u8)
    requires
        packet.len() >= 2,
    ensures
        byte_sum(packet.update(1, value)) == byte_sum(packet),
    decreases packet.len(),
{
    if packet.len() > 2 {
        assert(packet.update(1, value).drop_last() =~= packet.drop_last().update(1, value));
        lemma_byte_sum_ignores_checksum(packet.drop_last(), value);
    } else {
        assert(packet.update(1, value).drop_last() =~= packet.drop_last());
    }
}

/// A packet whose declared data length is the length of its data decodes,
/// in the direction it was encoded for, to itself.
pub proof fn lemma_packet_round_trip(packet: Packet, direction: Direction)
    requires
        packet.header.data_length == packet.data@.len(),
    ensures
        match spec_decode(spec_encode(packet, direction), direction) {
            Ok((header, n)) => header == packet.header && spec_encode(packet, direction).subrange(
                12,
                12 + n,
            ) == packet.data@ && spec_encode(packet, direction).skip(12 + n) == packet.extra@,
            Err(_) => false,
        },
{
    let raw = spec_unsummed(packet);
    let sum = spec_checksum(raw, direction);
    let wire = raw.update(1, sum);
    lemma_byte_sum_ignores_checksum(raw, sum);
    assert(spec_checksum(wire, direction) == sum);
    let h = packet.header;
    assert(be16(wire[2], wire[3]) == h.key);
    assert(be16(wire[4], wire[5]) == h.sequence);
    assert(be16(wire[6], wire[7]) == h.data_length);
    assert(be32(wire[8], wire[9], wire[10], wire[11]) == h.file_position);
    assert(wire.subrange(12, 12 + h.data_length) =~= packet.data@);
    assert(wire.skip(12 + h.data_length) =~= packet.extra@);
}

// ── Directory entries ──────────────────────────────────────────────────────

/// The end of the listing.
pub const RDTYPE_END: u8 = 0x00;
/// A file.
pub const RDTYPE_FILE: u8 = 0x01;
/// A directory.
pub const RDTYPE_DIR: u8 = 0x02;
/// Padding to the end of a block.
pub const RDTYPE_SKIP: u8 = 0x2A;

/// What a directory entry points at.
#[derive(Clone, Copy, Debug, PartialEq, Eq)]
pub enum EntryKind {
    File,
    Directory,
}

/// One directory entry.
#[derive(Clone, Debug, PartialEq, Eq)]
pub struct DirEntry {
    /// Unix timestamp.
    pub time: u32,
    pub size: u32,
    pub kind: EntryKind,
    pub name: String,
}

/// A directory entry as the block carries it: time, size, kind and the
/// bytes of its name.
pub type RawEntry = (u32, u32, EntryKind, Seq<u8>);

/// The entries of a directory block from byte `at` on. An entry is a 4-byte
/// time, a 4-byte size, a type byte, a NUL-terminated name, then padding to a
/// 4-byte boundary; the end marker, the skip marker, a short entry or a name
/// without its NUL ends the walk, and an entry of another type is passed
/// over.
pub open spec fn spec_entries(block: Seq<u8>, at: int) -> Seq<RawEntry>
    decreases block.len() + 4 - at,
{
    if at < 0 || at + 9 > block.len() {
        seq![]
    } else {
        let kind_byte = block[at + 8];
        if kind_byte == RDTYPE_END || kind_byte == RDTYPE_SKIP {
            seq![]
        } else {
            let name_start = at + 9;
            match crate::bytes::find(block.skip(name_start), 0) {
                None => seq![],
                Some(nul) => {
                    proof {
                        crate::bytes::lemma_find(block.skip(name_start), 0);
                    }
                    let next = (name_start + nul + 1 + 3) / 4 * 4;
                    let here: Seq<RawEntry> = if kind_byte == RDTYPE_FILE || kind_byte
                        == RDTYPE_DIR {
                        seq![
                            (
                                be32(block[at], block[at + 1], block[at + 2], block[at + 3]) as u32,
                                be32(block[at + 4], block[at + 5], block[at + 6], block[at + 7]) as u32,
                                if kind_byte == RDTYPE_FILE {
                                    EntryKind::File
                                } else {
                                    EntryKind::Directory
                                },
                                block.subrange(name_start, name_start + nul),
                            ),
                        ]
                    } else {
                        seq![]
                    };
                    here + spec_entries(block, next)
                },
            }
        }
    }
}

/// Whether an entry is what a raw entry reads as. A name that is not UTF-8
/// is read lossily.
pub open spec fn entry_reads_as(raw: RawEntry, entry: DirEntry) -> bool {
    &&& entry.time == raw.0
    &&& entry.size == raw.1
    &&& entry.kind == raw.2
    &&& entry.name@ == crate::bytes::lossy_text(raw.3)
    &&& valid_utf8(raw.3) ==> entry.name@ == decode_utf8(raw.3)
}

/// Parses a directory block into its entries.
pub fn parse_directory(block: &[u8]) -> (r: Vec<DirEntry>)
    ensures
        r@.len() == spec_entries(block@, 0).len(),
        forall|i: int|
            0 <= i < r@.len() ==> entry_reads_as(spec_entries(block@, 0)[i], #[trigger] r@[i]),
{
    let mut entries: Vec<DirEntry> = Vec::new();
    let mut at: usize = 0;
    let ghost mut seen: Seq<RawEntry> = seq![];
    while at <= block.len() && block.len() - at >= 9
        invariant
            entries@.len() == seen.len(),
            forall|i: int| 0 <= i < seen.len() ==> entry_reads_as(seen[i], #[trigger] entries@[i]),
            spec_entries(block@, 0) == seen + spec_entries(block@, at as int),
        decreases block.len() + 4 - at,
    {
        let b = block;
        let time = ((((b[at] as u32) * 256 + b[at + 1] as u32) * 256 + b[at + 2] as u32) * 256
            + b[at + 3] as u32);
        let size = ((((b[at + 4] as u32) * 256 + b[at + 5] as u32) * 256 + b[at + 6] as u32)
            * 256 + b[at + 7] as u32);
        let kind_byte = b[at + 8];
        if kind_byte == RDTYPE_END || kind_byte == RDTYPE_SKIP {
            assert(seen + seq![] =~= seen);
            return entries;
        }
        let name_start = at + 9;
        let rest: &[u8] = &b[name_start..b.len()];
        let nul = match find_byte(rest, 0) {
            Some(n) => n,
            None => {
                assert(rest@ =~= block@.skip(name_start as int));
                assert(seen + seq![] =~= seen);
                return entries;
            },
        };
        assert(rest@ =~= block@.skip(name_start as int));
        proof {
            crate::bytes::lemma_find(rest@, 0);
        }
        let ghost next = (name_start + nul + 1 + 3) / 4 * 4;
        let ghost before = seen;
        if kind_byte == RDTYPE_FILE || kind_byte == RDTYPE_DIR {
            let name_bytes = copy_range(b, name_start, name_start + nul);
            let name = string_from_utf8_lossy(name_bytes.as_slice());
            let kind = if kind_byte == RDTYPE_FILE {
                EntryKind::File
            } else {
                EntryKind::Directory
            };
            let ghost raw: RawEntry = (time, size, kind, block@.subrange(
                name_start as int,
                name_start + nul,
            ));
            entries.push(DirEntry { time, size, kind, name });
            proof {
                seen = seen.push(raw);
                assert(spec_entries(block@, at as int) == seq![raw] + spec_entries(block@, next));
                assert(before + (seq![raw] + spec_entries(block@, next)) =~= seen + spec_entries(
                    block@,
                    next,
                ));
            }
        } else {
            proof {
                assert(spec_entries(block@, at as int) == Seq::<RawEntry>::empty() + spec_entries(
                    block@,
                    next,
                ));
                assert(Seq::<RawEntry>::empty() + spec_entries(block@, next) =~= spec_entries(
                    block@,
                    next,
                ));
            }
        }
        let end = name_start + nul + 1;
        if block.len() - end < 9 {
            proof {
                assert(spec_entries(block@, next) == Seq::<RawEntry>::empty());
                assert(seen + Seq::<RawEntry>::empty() =~= seen);
            }
            return entries;
        }
        at = (end + 3) / 4 * 4;
    }
    proof {
        assert(spec_entries(block@, at as int) == Seq::<RawEntry>::empty());
        assert(seen + Seq::<RawEntry>::empty() =~= seen);
    }
    entries
}

/// A path as FSP sends it: its UTF-8 bytes and a closing NUL.
pub fn nul_terminated(path: &str) -> (r: Vec<u8>)
    ensures
        r@ == encode_utf8(path@).push(0),
{
    let mut out: Vec<u8> = Vec::new();
    append_bytes(&mut out, path.as_bytes());
    out.push(0);
    out
}

/// A server's text reply, its trailing NULs dropped. A reply that is not
/// UTF-8 is read lossily.
pub fn trim_nul(bytes: &[u8]) -> (r: String)
    ensures
        r@ == crate::text::trim_end_nul(crate::bytes::lossy_text(bytes@)),
        valid_utf8(bytes@) ==> r@ == crate::text::trim_end_nul(decode_utf8(bytes@)),
{
    let text = string_from_utf8_lossy(bytes);
    let chars = crate::text::chars_of(text.as_str());
    let mut end = chars.len();
    assert(chars@.take(chars.len() as int) =~= chars@);
    while end > 0 && chars[end - 1] == '\0'
        invariant
            end <= chars.len(),
            crate::text::trim_end_nul(chars@) == crate::text::trim_end_nul(chars@.take(end as int)),
        decreases end,
    {
        assert(chars@.take(end as int).drop_last() =~= chars@.take(end - 1));
        end = end - 1;
    }
    proof {
        assert(chars@.take(chars.len() as int) =~= chars@);
    }
    crate::text::substring(chars.as_slice(), 0, end)
}

} // verus!
