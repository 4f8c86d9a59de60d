//! Scorpion's binary documents: a run of blocks, each a tag byte, a
//! length-prefixed attribute and a length-prefixed body.
use vstd::prelude::*;

use vstd::utf8::{decode_utf8, valid_utf8};

use crate::bytes::{append_bytes, be16, copy_range, lemma_ascii_is_utf8, str_from_utf8, ascii_bytes};

verus! {

/// What a block is, from the low four bits of its tag.
#[derive(Clone, Copy, Debug, PartialEq, Eq, Structural, Hash)]
pub enum BlockType {
    Paragraph,
    /// Levels 1 to 6.
    Heading(u8),
    Link,
    InputLink,
    InteractiveLink,
    AlternateService,
    Blockquote,
    Preformatted,
    Metadata,
    /// A type this crate does not know, carried rather than dropped.
    Unknown(u8),
}

impl BlockType {
    /// The type's four-bit value.
    pub open spec fn spec_value(self) -> u8 {
        match self {
            BlockType::Paragraph => 0x00,
            BlockType::Heading(level) => if level < 1 {
                1
            } else if level > 6 {
                6
            } else {
                level
            },
            BlockType::Link => 0x08,
            BlockType::InputLink => 0x09,
            BlockType::InteractiveLink => 0x0A,
            BlockType::AlternateService => 0x0B,
            BlockType::Blockquote => 0x0C,
            BlockType::Preformatted => 0x0D,
            BlockType::Metadata => 0x0F,
            BlockType::Unknown(value) => value & 0x0F,
        }
    }

    /// The type that a four-bit value names.
    pub open spec fn spec_from_value(value: u8) -> BlockType {
        if value == 0x00 {
            BlockType::Paragraph
        } else if 0x01 <= value <= 0x06 {
            BlockType::Heading(value)
        } else if value == 0x08 {
            BlockType::Link
        } else if value == 0x09 {
            BlockType::InputLink
        } else if value == 0x0A {
            BlockType::InteractiveLink
        } else if value == 0x0B {
            BlockType::AlternateService
        } else if value == 0x0C {
            BlockType::Blockquote
        } else if value == 0x0D {
            BlockType::Preformatted
        } else if value == 0x0F {
            BlockType::Metadata
        } else {
            BlockType::Unknown(value)
        }
    }

    /// The type's four-bit value; a heading level is clamped to 1..=6.
    pub fn value(self) -> (r: u8)
        ensures
            r == self.spec_value(),
            r <= 0x0F,
    {
        match self {
            Self::Paragraph => 0x00,
            Self::Heading(level) => if level < 1 {
                1
            } else if level > 6 {
                6
            } else {
                level
            },
            Self::Link => 0x08,
            Self::InputLink => 0x09,
            Self::InteractiveLink => 0x0A,
            Self::AlternateService => 0x0B,
            Self::Blockquote => 0x0C,
            Self::Preformatted => 0x0D,
            Self::Metadata => 0x0F,
            Self::Unknown(value) => {
                assert(value & 0x0F <= 0x0F) by (bit_vector);
                value & 0x0F
            },
        }
    }

    fn from_value(value: u8) -> (r: Self)
        ensures
            r == Self::spec_from_value(value),
    {
        if value == 0x00 {
            Self::Paragraph
        } else if 0x01 <= value && value <= 0x06 {
            Self::Heading(value)
        } else if value == 0x08 {
            Self::Link
        } else if value == 0x09 {
            Self::InputLink
        } else if value == 0x0A {
            Self::InteractiveLink
        } else if value == 0x0B {
            Self::AlternateService
        } else if value == 0x0C {
            Self::Blockquote
        } else if value == 0x0D {
            Self::Preformatted
        } else if value == 0x0F {
            Self::Metadata
        } else {
            Self::Unknown(value)
        }
    }

    /// The sixteen values of the type nibble, in order: 0 paragraph, 1 to 6
    /// the heading levels, 8 to 11 the four links, 12 blockquote, 13
    /// preformatted, 15 metadata; 7 and 14 name no known type.
    pub open spec fn nibble_table() -> Seq<BlockType> {
        seq![
            BlockType::Paragraph,
            BlockType::Heading(1),
            BlockType::Heading(2),
            BlockType::Heading(3),
            BlockType::Heading(4),
            BlockType::Heading(5),
            BlockType::Heading(6),
            BlockType::Unknown(7),
            BlockType::Link,
            BlockType::InputLink,
            BlockType::InteractiveLink,
            BlockType::AlternateService,
            BlockType::Blockquote,
            BlockType::Preformatted,
            BlockType::Unknown(14),
            BlockType::Metadata,
        ]
    }

    /// Each four-bit value names the type the table gives it, and that type
    /// is written back as the same value.
    pub proof fn lemma_nibble_table(value: u8)
        requires
            value < 16,
        ensures
            BlockType::spec_from_value(value) == BlockType::nibble_table()[value as int],
            BlockType::nibble_table()[value as int].spec_value() == value,
    {
        assert(7u8 & 0x0F == 7u8) by (bit_vector);
        assert(14u8 & 0x0F == 14u8) by (bit_vector);
    }

    /// The four kinds of link.
    pub open spec fn spec_is_link(self) -> bool {
        self == BlockType::Link || self == BlockType::InputLink || self
            == BlockType::InteractiveLink || self == BlockType::AlternateService
    }

    /// Whether the block's attribute is a URL.
    pub fn is_link(self) -> (r: bool)
        ensures
            r == self.spec_is_link(),
    {
        matches!(self, Self::Link | Self::InputLink | Self::InteractiveLink | Self::AlternateService)
    }
}

/// How a block's text is encoded, from the high four bits of its tag.
#[derive(Clone, Copy, Debug, PartialEq, Eq, Structural, Hash)]
pub enum Encoding {
    Tron8,
    Pc,
    Iso2022,
    Tron8Rtl,
    Iso2022Rtl,
    /// An encoding this crate does not know.
    Unknown(u8),
}

impl Encoding {
    /// The encoding's value in the high four bits.
    pub open spec fn spec_value(self) -> u8 {
        match self {
            Encoding::Tron8 => 0x00,
            Encoding::Pc => 0x10,
            Encoding::Iso2022 => 0x20,
            Encoding::Tron8Rtl => 0x80,
            Encoding::Iso2022Rtl => 0xA0,
            Encoding::Unknown(value) => value & 0xF0,
        }
    }

    /// The encoding that a high-bits value names.
    pub open spec fn spec_from_value(value: u8) -> Encoding {
        if value == 0x00 {
            Encoding::Tron8
        } else if value == 0x10 {
            Encoding::Pc
        } else if value == 0x20 {
            Encoding::Iso2022
        } else if value == 0x80 {
            Encoding::Tron8Rtl
        } else if value == 0xA0 {
            Encoding::Iso2022Rtl
        } else {
            Encoding::Unknown(value)
        }
    }

    /// The encoding's value in the high four bits.
    pub fn value(self) -> (r: u8)
        ensures
            r == self.spec_value(),
            r & 0x0F == 0,
    {
        let r = match self {
            Self::Tron8 => 0x00,
            Self::Pc => 0x10,
            Self::Iso2022 => 0x20,
            Self::Tron8Rtl => 0x80,
            Self::Iso2022Rtl => 0xA0,
            Self::Unknown(value) => value & 0xF0,
        };
        assert(0x00u8 & 0x0F == 0 && 0x10u8 & 0x0F == 0 && 0x20u8 & 0x0F == 0 && 0x80u8 & 0x0F
            == 0 && 0xA0u8 & 0x0F == 0) by (bit_vector);
        assert(forall|v: u8| #[trigger] (v & 0xF0) & 0x0F == 0) by (bit_vector);
        r
    }

    fn from_value(value: u8) -> (r: Self)
        ensures
            r == Self::spec_from_value(value),
    {
        if value == 0x00 {
            Self::Tron8
        } else if value == 0x10 {
            Self::Pc
        } else if value == 0x20 {
            Self::Iso2022
        } else if value == 0x80 {
            Self::Tron8Rtl
        } else if value == 0xA0 {
            Self::Iso2022Rtl
        } else {
            Self::Unknown(value)
        }
    }

    /// Whether the text runs right to left.
    pub fn is_rtl(self) -> (r: bool)
        ensures
            r == (self == Encoding::Tron8Rtl || self == Encoding::Iso2022Rtl),
    {
        matches!(self, Self::Tron8Rtl | Self::Iso2022Rtl)
    }
}

/// One block of a document.
#[derive(Clone, Debug, PartialEq, Eq)]
pub struct Block {
    pub block_type: BlockType,
    pub encoding: Encoding,
    /// A link's URL, a heading's anchor, and so on.
    pub attribute: Vec<u8>,
    pub body: Vec<u8>,
}

/// The largest body a 24-bit length can declare.
pub const MAX_BODY: usize = 0xFF_FFFF;

/// Why a document could not be read or written.
#[derive(Clone, Copy, Debug, PartialEq, Eq)]
pub enum DocumentError {
    /// The input ends part-way through a block.
    Truncated,
    /// An attribute over 65535 bytes.
    AttributeTooLong,
    /// A body over 16777215 bytes.
    BodyTooLong,
}

impl DocumentError {
    /// A sentence saying what went wrong.
    pub fn to_string(&self) -> (r: String)
        ensures
            r@ == match self {
                DocumentError::Truncated => "document ends part-way through a block"@,
                DocumentError::AttributeTooLong => "attribute exceeds 65535 bytes"@,
                DocumentError::BodyTooLong => "body exceeds 16777215 bytes"@,
            },
    {
        match self {
            Self::Truncated => "document ends part-way through a block".to_string(),
            Self::AttributeTooLong => "attribute exceeds 65535 bytes".to_string(),
            Self::BodyTooLong => "body exceeds 16777215 bytes".to_string(),
        }
    }
}

/// A block as the bytes carry it: its tag, attribute and body.
pub type RawBlock = (u8, Seq<u8>, Seq<u8>);

/// A block's tag, with the encoding over the type.
pub open spec fn spec_tag(block: Block) -> u8 {
    block.encoding.spec_value() | block.block_type.spec_value()
}

/// Whether `block` is what a raw block decodes to.
pub open spec fn decodes_to(raw: RawBlock, block: Block) -> bool {
    &&& block.block_type == BlockType::spec_from_value(raw.0 & 0x0F)
    &&& block.encoding == Encoding::spec_from_value(raw.0 & 0xF0)
    &&& block.attribute@ == raw.1
    &&& block.body@ == raw.2
}

/// The first block of `bytes`, with the number of bytes it spans, or why
/// there is none.
pub open spec fn spec_read_block(bytes: Seq<u8>) -> Result<(int, RawBlock), DocumentError> {
    if bytes.len() < 3 {
        Err(DocumentError::Truncated)
    } else {
        let attribute_len = be16(bytes[1], bytes[2]) as int;
        if bytes.len() < 6 + attribute_len {
            Err(DocumentError::Truncated)
        } else {
            let at = 3 + attribute_len;
            let body_len = bytes[at] as int * 65536 + bytes[at + 1] as int * 256 + bytes[at
                + 2] as int;
            if bytes.len() < 6 + attribute_len + body_len {
                Err(DocumentError::Truncated)
            } else {
                Ok(
                    (
                        6 + attribute_len + body_len,
                        (
                            bytes[0],
                            bytes.subrange(3, at),
                            bytes.subrange(at + 3, at + 3 + body_len),
                        ),
                    ),
                )
            }
        }
    }
}

/// The blocks of a document, or the error that stops the first bad one.
pub open spec fn spec_parse(bytes: Seq<u8>) -> Result<Seq<RawBlock>, DocumentError>
    decreases bytes.len(),
{
    if bytes.len() == 0 {
        Ok(seq![])
    } else {
        match spec_read_block(bytes) {
            Err(e) => Err(e),
            Ok((n, raw)) => match spec_parse(bytes.skip(n)) {
                Ok(rest) => Ok(seq![raw] + rest),
                Err(e) => Err(e),
            },
        }
    }
}

/// What a reader of `rest` yields, one item per call until it ends: each
/// block read in turn, and after a bad block its error as the last item.
pub open spec fn spec_items(rest: Seq<u8>) -> Seq<Result<RawBlock, DocumentError>>
    decreases rest.len(),
{
    if rest.len() == 0 {
        seq![]
    } else {
        match spec_read_block(rest) {
            Err(e) => seq![Err(e)],
            Ok((n, raw)) => seq![Ok(raw)] + spec_items(rest.skip(n)),
        }
    }
}

/// Items gathered the way `collect` gathers results: the first error
/// stops it, else every block in order.
pub open spec fn collect_items(items: Seq<Result<RawBlock, DocumentError>>) -> Result<
    Seq<RawBlock>,
    DocumentError,
>
    decreases items.len(),
{
    if items.len() == 0 {
        Ok(seq![])
    } else {
        match items[0] {
            Err(e) => Err(e),
            Ok(raw) => match collect_items(items.drop_first()) {
                Ok(rest) => Ok(seq![raw] + rest),
                Err(e) => Err(e),
            },
        }
    }
}

/// The bytes of one block.
pub open spec fn spec_block_wire(block: Block) -> Seq<u8> {
    let a = block.attribute@.len();
    let b = block.body@.len();
    seq![spec_tag(block), (a / 256) as u8, (a % 256) as u8] + block.attribute@ + seq![
        (b / 65536) as u8,
        ((b / 256) % 256) as u8,
        (b % 256) as u8,
    ] + block.body@
}

/// Whether a block fits the format's length fields.
pub open spec fn block_fits(block: Block) -> bool {
    block.attribute@.len() <= 0xFFFF && block.body@.len() <= 0xFF_FFFF
}

/// The bytes of a run of blocks.
pub open spec fn spec_encode(blocks: Seq<Block>) -> Seq<u8>
    decreases blocks.len(),
{
    if blocks.len() == 0 {
        seq![]
    } else {
        spec_encode(blocks.drop_last()) + spec_block_wire(blocks.last())
    }
}

/// Why a run of blocks cannot be written: the first block that does not fit
/// decides.
pub open spec fn spec_encode_error(blocks: Seq<Block>) -> Option<DocumentError>
    decreases blocks.len(),
{
    if blocks.len() == 0 {
        None
    } else {
        match spec_encode_error(blocks.drop_last()) {
            Some(e) => Some(e),
            None => if blocks.last().attribute@.len() > 0xFFFF {
                Some(DocumentError::AttributeTooLong)
            } else if blocks.last().body@.len() > 0xFF_FFFF {
                Some(DocumentError::BodyTooLong)
            } else {
                None
            },
        }
    }
}

/// The part of an attribute before its first NUL.
pub open spec fn before_nul(s: Seq<u8>) -> Seq<u8> {
    if exists|i: int| 0 <= i < s.len() && s[i] == 0 {
        s.take(choose|i: int| 0 <= i < s.len() && s[i] == 0 && forall|j: int| 0 <= j < i ==> s[j] != 0)
    } else {
        s
    }
}

impl Block {
    /// A block of any type, with no attribute.
    pub fn new(block_type: BlockType, encoding: Encoding, body: Vec<u8>) -> (r: Self)
        ensures
            r.block_type == block_type,
            r.encoding == encoding,
            r.attribute@.len() == 0,
            r.body@ == body@,
    {
        Self { block_type, encoding, attribute: Vec::new(), body }
    }

    /// A link block: the URL is the attribute and the text the body.
    pub fn link(url: Vec<u8>, text: Vec<u8>, encoding: Encoding) -> (r: Self)
        ensures
            r.block_type == BlockType::Link,
            r.encoding == encoding,
            r.attribute@ == url@,
            r.body@ == text@,
    {
        Self { block_type: BlockType::Link, encoding, attribute: url, body: text }
    }

    /// A link's URL: the attribute up to its first NUL, provided that part is
    /// ASCII. Any other block has none.
    pub fn url(&self) -> (r: Option<&str>)
        ensures
            !self.block_type.spec_is_link() ==> r is None,
            self.block_type.spec_is_link() ==> {
                let part = before_nul(self.attribute@);
                if ascii_bytes(part) {
                    r matches Some(u) && u@ == decode_utf8(part)
                } else {
                    r is None
                }
            },
    {
        if !self.block_type.is_link() {
            return None;
        }
        let mut end: usize = 0;
        while end < self.attribute.len() && self.attribute[end] != 0
            invariant
                end <= self.attribute.len(),
                forall|j: int| 0 <= j < end ==> self.attribute@[j] != 0,
            decreases self.attribute.len() - end,
        {
            end = end + 1;
        }
        let ghost part = self.attribute@.take(end as int);
        proof {
            let s = self.attribute@;
            if end < s.len() {
                let i = choose|i: int| 0 <= i < s.len() && s[i] == 0 && forall|j: int|
                    0 <= j < i ==> s[j] != 0;
                assert(0 <= end < s.len() && s[end as int] == 0);
                assert(i == end as int);
            }
            assert(before_nul(s) == part);
        }
        let mut i: usize = 0;
        while i < end
            invariant
                i <= end <= self.attribute.len(),
                part == self.attribute@.take(end as int),
                before_nul(self.attribute@) == part,
                forall|j: int| 0 <= j < i ==> self.attribute@[j] < 128,
            decreases end - i,
        {
            if self.attribute[i] >= 128 {
                assert(!ascii_bytes(part)) by {
                    assert(part[i as int] == self.attribute@[i as int]);
                }
                return None;
            }
            i = i + 1;
        }
        let bytes: &[u8] = &self.attribute.as_slice()[0..end];
        assert(bytes@ =~= part);
        proof {
            lemma_ascii_is_utf8(part);
        }
        str_from_utf8(bytes)
    }

    /// The tag byte: the encoding over the type.
    pub fn tag(&self) -> (r: u8)
        ensures
            r == spec_tag(*self),
    {
        self.encoding.value() | self.block_type.value()
    }

    /// Appends the block's bytes to `out`; refused, with `out` untouched,
    /// when the attribute or body is too long for its length field.
    pub fn encode_to(&self, out: &mut Vec<u8>) -> (r: Result<(), DocumentError>)
        ensures
            self.attribute@.len() > 0xFFFF ==> r == Err::<(), DocumentError>(
                DocumentError::AttributeTooLong,
            ) && final(out)@ == old(out)@,
            self.attribute@.len() <= 0xFFFF && self.body@.len() > 0xFF_FFFF ==> r == Err::<
                (),
                DocumentError,
            >(DocumentError::BodyTooLong) && final(out)@ == old(out)@,
            block_fits(*self) ==> r is Ok && final(out)@ == old(out)@ + spec_block_wire(*self),
    {
        let a = self.attribute.len();
        if a > 0xFFFF {
            return Err(DocumentError::AttributeTooLong);
        }
        let b = self.body.len();
        if b > MAX_BODY {
            return Err(DocumentError::BodyTooLong);
        }
        let ghost start = out@;
        out.push(self.tag());
        out.push((a / 256) as u8);
        out.push((a % 256) as u8);
        append_bytes(out, self.attribute.as_slice());
        out.push((b / 65536) as u8);
        out.push(((b / 256) % 256) as u8);
        out.push((b % 256) as u8);
        append_bytes(out, self.body.as_slice());
        assert(out@ =~= start + spec_block_wire(*self));
        Ok(())
    }
}

/// Reads a whole document; the first bad block stops it.
pub fn parse(bytes: &[u8]) -> (r: Result<Vec<Block>, DocumentError>)
    ensures
        match spec_parse(bytes@) {
            Ok(raws) => r matches Ok(blocks) && blocks@.len() == raws.len() && forall|i: int|
                0 <= i < raws.len() ==> decodes_to(raws[i], #[trigger] blocks@[i]),
            Err(e) => r == Err::<Vec<Block>, DocumentError>(e),
        },
{
    let mut blocks = Blocks::new(bytes);
    let mut out: Vec<Block> = Vec::new();
    let ghost mut raws: Seq<RawBlock> = seq![];
    loop
        invariant
            out@.len() == raws.len(),
            forall|i: int| 0 <= i < raws.len() ==> decodes_to(raws[i], #[trigger] out@[i]),
            spec_parse(bytes@) == match spec_parse(blocks.spec_rest()) {
                Ok(rest) => Ok(raws + rest),
                Err(e) => Err(e),
            },
        decreases blocks.spec_rest().len(),
    {
        let ghost before = blocks.spec_rest();
        match blocks.next() {
            None => {
                assert(raws + seq![] =~= raws);
                return Ok(out);
            },
            Some(Err(e)) => {
                return Err(e);
            },
            Some(Ok(block)) => {
                let ghost (n, raw) = spec_read_block(before).unwrap();
                proof {
                    assert(spec_parse(before) == match spec_parse(before.skip(n)) {
                        Ok(rest) => Ok(seq![raw] + rest),
                        Err(e) => Err(e),
                    });
                    if let Ok(rest) = spec_parse(before.skip(n)) {
                        assert(raws + (seq![raw] + rest) =~= raws.push(raw) + rest);
                    }
                    raws = raws.push(raw);
                }
                out.push(block);
            },
        }
    }
}

/// Writes a run of blocks; the first block that does not fit refuses the
/// whole document.
pub fn encode(blocks: &[Block]) -> (r: Result<Vec<u8>, DocumentError>)
    ensures
        match spec_encode_error(blocks@) {
            Some(e) => r == Err::<Vec<u8>, DocumentError>(e),
            None => r matches Ok(bytes) && bytes@ == spec_encode(blocks@),
        },
{
    let mut out: Vec<u8> = Vec::new();
    let mut i: usize = 0;
    while i < blocks.len()
        invariant
            i <= blocks.len(),
            spec_encode_error(blocks@.take(i as int)) is None,
            out@ == spec_encode(blocks@.take(i as int)),
        decreases blocks.len() - i,
    {
        assert(blocks@.take(i + 1).drop_last() =~= blocks@.take(i as int));
        let r = blocks[i].encode_to(&mut out);
        if let Err(e) = r {
            proof {
                lemma_encode_error_prefix(blocks@, i + 1);
            }
            return Err(e);
        }
        i = i + 1;
    }
    assert(blocks@.take(blocks.len() as int) =~= blocks@);
    Ok(out)
}

/// An error in a prefix of the blocks is the error of the whole run.
proof fn lemma_encode_error_prefix(blocks: Seq<Block>, k: int)
    requires
        0 <= k <= blocks.len(),
        spec_encode_error(blocks.take(k)) is Some,
    ensures
        spec_encode_error(blocks) == spec_encode_error(blocks.take(k)),
    decreases blocks.len(),
{
    if k < blocks.len() {
        assert(blocks.drop_last().take(k) =~= blocks.take(k));
        lemma_encode_error_prefix(blocks.drop_last(), k);
    } else {
        assert(blocks.take(k) =~= blocks);
    }
}

/// A document's blocks, read one at a time.
pub struct Blocks<'a> {
    rest: &'a [u8],
}

impl<'a> Blocks<'a> {
    /// The bytes not yet read.
    pub closed spec fn spec_rest(&self) -> Seq<u8> {
        self.rest@
    }

    /// Starts reading `bytes`.
    pub fn new(bytes: &'a [u8]) -> (r: Self)
        ensures
            r.spec_rest() == bytes@,
    {
        Self { rest: bytes }
    }

    /// The next block, or `None` at the end. A bad block is reported once,
    /// and the reader then ends rather than repeating it.
    pub fn next(&mut self) -> (r: Option<Result<Block, DocumentError>>)
        ensures
            old(self).spec_rest().len() == 0 ==> r is None && final(self).spec_rest()
                == old(self).spec_rest(),
            old(self).spec_rest().len() > 0 ==> match spec_read_block(old(self).spec_rest()) {
                Ok((n, raw)) => r matches Some(Ok(block)) && decodes_to(raw, block)
                    && final(self).spec_rest() == old(self).spec_rest().skip(n),
                Err(e) => r == Some(Err::<Block, DocumentError>(e)) && final(self).spec_rest().len()
                    == 0,
            },
            spec_items(old(self).spec_rest()) == match r {
                None => Seq::<Result<RawBlock, DocumentError>>::empty(),
                Some(Ok(_)) => seq![Ok(spec_read_block(old(self).spec_rest()).unwrap().1)]
                    + spec_items(final(self).spec_rest()),
                Some(Err(e)) => seq![Err(e)],
            },
    {
        if self.rest.len() == 0 {
            return None;
        }
        Some(self.read())
    }

    fn read(&mut self) -> (r: Result<Block, DocumentError>)
        requires
            old(self).rest@.len() > 0,
        ensures
            match spec_read_block(old(self).rest@) {
                Ok((n, raw)) => r matches Ok(block) && decodes_to(raw, block) && final(self).rest@
                    == old(self).rest@.skip(n),
                Err(e) => r == Err::<Block, DocumentError>(e) && final(self).rest@.len() == 0,
            },
    {
        let bytes = self.rest;
        let len = bytes.len();
        if len < 3 {
            self.rest = &bytes[len..len];
            return Err(DocumentError::Truncated);
        }
        let attribute_len = (bytes[1] as usize) * 256 + (bytes[2] as usize);
        if len < 6 + attribute_len {
            self.rest = &bytes[len..len];
            return Err(DocumentError::Truncated);
        }
        let at = 3 + attribute_len;
        let body_len = (bytes[at] as usize) * 65536 + (bytes[at + 1] as usize) * 256 + (bytes[at
            + 2] as usize);
        if len - (6 + attribute_len) < body_len {
            self.rest = &bytes[len..len];
            return Err(DocumentError::Truncated);
        }
        let tag = bytes[0];
        let attribute = copy_range(bytes, 3, at);
        let body = copy_range(bytes, at + 3, at + 3 + body_len);
        self.rest = &bytes[at + 3 + body_len..len];
        assert(self.rest@ =~= bytes@.skip((6 + attribute_len + body_len) as int));
        Ok(
            Block {
                block_type: BlockType::from_value(tag & 0x0F),
                encoding: Encoding::from_value(tag & 0xF0),
                attribute,
                body,
            },
        )
    }
}

/// Reading a document block by block to the end and gathering the results
/// gives what `parse` gives; the reader yields at most one item per byte,
/// and only its last item can be an error.
pub proof fn lemma_blocks_collect_to_parse(bytes: Seq<u8>)
    ensures
        collect_items(spec_items(bytes)) == spec_parse(bytes),
        spec_items(bytes).len() <= bytes.len(),
        forall|i: int| 0 <= i < spec_items(bytes).len() - 1 ==> #[trigger] spec_items(bytes)[i] is Ok,
    decreases bytes.len(),
{
    if bytes.len() > 0 {
        match spec_read_block(bytes) {
            Err(e) => {},
            Ok((n, raw)) => {
                lemma_blocks_collect_to_parse(bytes.skip(n));
                let items = spec_items(bytes);
                let tail = spec_items(bytes.skip(n));
                assert(items.drop_first() =~= tail);
                assert forall|i: int| 0 <= i < items.len() - 1 implies #[trigger] items[i] is Ok by {
                    if i > 0 {
                        assert(items[i] == tail[i - 1]);
                    }
                }
            },
        }
    }
}

/// A block's tag, attribute and body.
pub open spec fn raw_of(block: Block) -> RawBlock {
    (spec_tag(block), block.attribute@, block.body@)
}

/// A run of blocks written from the front: the first block's bytes, then
/// the rest's.
proof fn lemma_encode_front(blocks: Seq<Block>)
    requires
        blocks.len() > 0,
    ensures
        spec_encode(blocks) == spec_block_wire(blocks[0]) + spec_encode(blocks.drop_first()),
    decreases blocks.len(),
{
    if blocks.len() == 1 {
        assert(blocks.drop_first() =~= Seq::<Block>::empty());
        assert(blocks.drop_last() =~= Seq::<Block>::empty());
        assert(spec_encode(Seq::<Block>::empty()) == Seq::<u8>::empty());
        assert(spec_encode(blocks.drop_last()) == Seq::<u8>::empty());
        assert(spec_encode(blocks.drop_first()) == Seq::<u8>::empty());
        assert(blocks.last() == blocks[0]);
        assert(spec_encode(blocks) =~= spec_block_wire(blocks[0]) + spec_encode(blocks.drop_first()));
    } else {
        lemma_encode_front(blocks.drop_last());
        assert(blocks.drop_last().drop_first() =~= blocks.drop_first().drop_last());
        assert(blocks.drop_last()[0] == blocks[0]);
        assert(blocks.drop_first().last() == blocks.last());
        assert(spec_encode(blocks) =~= spec_block_wire(blocks[0]) + spec_encode(
            blocks.drop_first(),
        ));
    }
}

/// The first block of a block's bytes followed by anything is that block.
proof fn lemma_read_block_wire(block: Block, rest: Seq<u8>)
    requires
        block_fits(block),
    ensures
        spec_read_block(spec_block_wire(block) + rest) == Ok::<(int, RawBlock), DocumentError>(
            (spec_block_wire(block).len() as int, raw_of(block)),
        ),
{
    let w = spec_block_wire(block);
    let all = w + rest;
    let a: int = block.attribute@.len() as int;
    let b: int = block.body@.len() as int;
    assert(all[1] == (a / 256) as u8);
    assert(all[2] == (a % 256) as u8);
    assert(be16(all[1], all[2]) == a);
    let at: int = 3 + a;
    assert(all[at] == (b / 65536) as u8);
    assert(all[at + 1] == ((b / 256) % 256) as u8);
    assert(all[at + 2] == (b % 256) as u8);
    assert(all[at] as int * 65536 + all[at + 1] as int * 256 + all[at + 2] as int == b);
    assert(all.subrange(3, at as int) =~= block.attribute@);
    assert(all.subrange(at + 3, at + 3 + b) =~= block.body@);
    assert(all[0] == spec_tag(block));
}

/// Reading back what `encode` wrote gives every block's tag, attribute and
/// body, in order.
pub proof fn lemma_document_round_trip(blocks: Seq<Block>)
    requires
        forall|i: int| 0 <= i < blocks.len() ==> block_fits(#[trigger] blocks[i]),
    ensures
        spec_parse(spec_encode(blocks)) == Ok::<Seq<RawBlock>, DocumentError>(
            blocks.map_values(|b: Block| raw_of(b)),
        ),
    decreases blocks.len(),
{
    if blocks.len() == 0 {
        assert(blocks.map_values(|b: Block| raw_of(b)) =~= Seq::<RawBlock>::empty());
    } else {
        lemma_encode_front(blocks);
        let w = spec_block_wire(blocks[0]);
        let tail = spec_encode(blocks.drop_first());
        lemma_read_block_wire(blocks[0], tail);
        assert((w + tail).skip(w.len() as int) =~= tail);
        assert forall|i: int| 0 <= i < blocks.drop_first().len() implies block_fits(
            #[trigger] blocks.drop_first()[i],
        ) by {
            assert(blocks.drop_first()[i] == blocks[i + 1]);
        }
        lemma_document_round_trip(blocks.drop_first());
        assert(blocks.map_values(|b: Block| raw_of(b)) =~= seq![raw_of(blocks[0])]
            + blocks.drop_first().map_values(|b: Block| raw_of(b)));
    }
}

/// A block whose type and encoding are spelled the way the format reads
/// them back decodes from its own tag to itself.
pub proof fn lemma_tag_round_trip(block: Block)
    requires
        BlockType::spec_from_value(block.block_type.spec_value()) == block.block_type,
        Encoding::spec_from_value(block.encoding.spec_value()) == block.encoding,
    ensures
        decodes_to(raw_of(block), block),
{
    let t = block.block_type.spec_value();
    let e = block.encoding.spec_value();
    assert(t <= 0x0F) by {
        if let BlockType::Unknown(v) = block.block_type {
            assert(v & 0x0F <= 0x0F) by (bit_vector);
        }
    }
    assert(e & 0x0F == 0) by {
        assert(0x00u8 & 0x0F == 0 && 0x10u8 & 0x0F == 0 && 0x20u8 & 0x0F == 0 && 0x80u8 & 0x0F
            == 0 && 0xA0u8 & 0x0F == 0) by (bit_vector);
        assert(forall|v: u8| #[trigger] (v & 0xF0) & 0x0F == 0) by (bit_vector);
    }
    assert(t <= 0x0F && e & 0x0F == 0 ==> (e | t) & 0x0F == t && (e | t) & 0xF0 == e)
        by (bit_vector);
}

} // verus!
