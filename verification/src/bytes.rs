//! Byte-level helpers shared by the binary wire formats.
use vstd::prelude::*;
use vstd::utf8::{encode_scalar, encode_utf8, has_width_1_encoding};
use vstd::utf8::{decode_utf8, valid_utf8};

verus! {

/// Appends the bytes of `more` to `v`.
pub fn append_bytes(v: &mut Vec<u8>, more: &[u8])
    ensures
        final(v)@ == old(v)@ + more@,
{
    let mut i: usize = 0;
    let ghost start = v@;
    while i < more.len()
        invariant
            i <= more.len(),
            v@ == start + more@.take(i as int),
        decreases more.len() - i,
    {
        v.push(more[i]);
        i = i + 1;
        assert(v@ =~= start + more@.take(i as int));
    }
    assert(more@.take(more.len() as int) =~= more@);
}

/// The bytes `s[from..to]` as a new vector.
pub fn copy_range(s: &[u8], from: usize, to: usize) -> (v: Vec<u8>)
    requires
        from <= to <= s.len(),
    ensures
        v@ == s@.subrange(from as int, to as int),
{
    let mut v: Vec<u8> = Vec::new();
    let mut i = from;
    while i < to
        invariant
            from <= i <= to <= s.len(),
            v@ == s@.subrange(from as int, i as int),
        decreases to - i,
    {
        v.push(s[i]);
        i = i + 1;
        assert(v@ =~= s@.subrange(from as int, i as int));
    }
    v
}

/// The number that two bytes spell, high byte first.
pub open spec fn be16(hi: u8, lo: u8) -> nat {
    hi as nat * 256 + lo as nat
}

/// The number that four bytes spell, high byte first.
pub open spec fn be32(b0: u8, b1: u8, b2: u8, b3: u8) -> nat {
    ((b0 as nat * 256 + b1 as nat) * 256 + b2 as nat) * 256 + b3 as nat
}

/// Every byte is ASCII.
pub open spec fn ascii_bytes(s: Seq<u8>) -> bool {
    forall|i: int| 0 <= i < s.len() ==> #[trigger] s[i] < 128
}

/// ASCII bytes are valid UTF-8.
pub proof fn lemma_ascii_is_utf8(s: Seq<u8>)
    requires
        ascii_bytes(s),
    ensures
        valid_utf8(s),
    decreases s.len(),
{
    if s.len() > 0 {
        let b = s[0];
        assert(b & 0x7F <= 0x7F) by (bit_vector);
        let rest = s.subrange(1, s.len() as int);
        assert forall|i: int| 0 <= i < rest.len() implies #[trigger] rest[i] < 128 by {
            assert(rest[i] == s[i + 1]);
        }
        lemma_ascii_is_utf8(rest);
    }
}

/// `core::str::from_utf8`: the bytes read as a string slice exactly when they
/// are well-formed UTF-8, and the slice then holds the characters they
/// encode.
#[verifier::external_body]
pub(crate) fn str_from_utf8(bytes: &[u8]) -> (r: Option<&str>)
    ensures
        r is Some <==> valid_utf8(bytes@),
        r matches Some(s) ==> s@ == decode_utf8(bytes@),
{
    core::str::from_utf8(bytes).ok()
}

/// The index of the first `b` in `s`.
pub open spec fn find(s: Seq<u8>, b: u8) -> Option<int>
    decreases s.len(),
{
    if s.len() == 0 {
        None
    } else if s[0] == b {
        Some(0)
    } else {
        match find(s.drop_first(), b) {
            Some(i) => Some(i + 1),
            None => None,
        }
    }
}

/// What `find` returns, said directly.
pub proof fn lemma_find(s: Seq<u8>, b: u8)
    ensures
        match find(s, b) {
            Some(i) => 0 <= i < s.len() && s[i] == b && forall|j: int| 0 <= j < i ==> s[j] != b,
            None => forall|j: int| 0 <= j < s.len() ==> s[j] != b,
        },
    decreases s.len(),
{
    if s.len() > 0 && s[0] != b {
        lemma_find(s.drop_first(), b);
        if let Some(i) = find(s.drop_first(), b) {
            assert forall|j: int| 0 <= j < i + 1 implies s[j] != b by {
                if j > 0 {
                    assert(s[j] == s.drop_first()[j - 1]);
                }
            }
        } else {
            assert forall|j: int| 0 <= j < s.len() implies s[j] != b by {
                if j > 0 {
                    assert(s[j] == s.drop_first()[j - 1]);
                }
            }
        }
    }
}

/// The first occurrence is what `find` reports.
pub proof fn lemma_find_at(s: Seq<u8>, b: u8, i: int)
    requires
        0 <= i < s.len(),
        s[i] == b,
        forall|j: int| 0 <= j < i ==> s[j] != b,
    ensures
        find(s, b) == Some(i),
    decreases s.len(),
{
    if i > 0 {
        assert forall|j: int| 0 <= j < i - 1 implies s.drop_first()[j] != b by {
            assert(s.drop_first()[j] == s[j + 1]);
        }
        lemma_find_at(s.drop_first(), b, i - 1);
    }
}

/// A sequence without `b` has no first `b`.
pub proof fn lemma_find_none(s: Seq<u8>, b: u8)
    requires
        forall|j: int| 0 <= j < s.len() ==> s[j] != b,
    ensures
        find(s, b) is None,
    decreases s.len(),
{
    if s.len() > 0 {
        assert forall|j: int| 0 <= j < s.len() - 1 implies s.drop_first()[j] != b by {
            assert(s.drop_first()[j] == s[j + 1]);
        }
        lemma_find_none(s.drop_first(), b);
    }
}

/// The index of the first `b` in `s`.
pub fn find_byte(s: &[u8], b: u8) -> (r: Option<usize>)
    ensures
        r matches Some(i) ==> find(s@, b) == Some(i as int),
        r is None ==> find(s@, b) is None,
{
    let mut i: usize = 0;
    while i < s.len()
        invariant
            i <= s.len(),
            forall|j: int| 0 <= j < i ==> s@[j] != b,
        decreases s.len() - i,
    {
        if s[i] == b {
            proof {
                lemma_find_at(s@, b, i as int);
            }
            return Some(i);
        }
        i = i + 1;
    }
    proof {
        lemma_find_none(s@, b);
    }
    None
}

/// What `String::from_utf8_lossy` makes of malformed bytes: a function of
/// the bytes alone, which replaces each malformed sequence with U+FFFD.
pub uninterp spec fn utf8_lossy(bytes: Seq<u8>) -> Seq<char>;

/// Bytes read as text the way `String::from_utf8_lossy` reads them:
/// well-formed UTF-8 as the characters it encodes, anything else as
/// `utf8_lossy` makes it.
pub open spec fn lossy_text(bytes: Seq<u8>) -> Seq<char> {
    if valid_utf8(bytes) {
        decode_utf8(bytes)
    } else {
        utf8_lossy(bytes)
    }
}

/// `String::from_utf8_lossy`: well-formed UTF-8 reads as the characters it
/// encodes; what a malformed sequence becomes (replacement characters) is
/// named, not stated.
#[verifier::external_body]
pub(crate) fn string_from_utf8_lossy(bytes: &[u8]) -> (r: String)
    ensures
        r@ == (if valid_utf8(bytes@) {
            decode_utf8(bytes@)
        } else {
            utf8_lossy(bytes@)
        }),
{
    String::from_utf8_lossy(bytes).into_owned()
}

/// The index of the first CRLF in `s`.
pub open spec fn find_crlf(s: Seq<u8>) -> Option<int>
    decreases s.len(),
{
    if s.len() < 2 {
        None
    } else if s[0] == 13 && s[1] == 10 {
        Some(0)
    } else {
        match find_crlf(s.drop_first()) {
            Some(i) => Some(i + 1),
            None => None,
        }
    }
}

/// What `find_crlf` returns, said directly.
pub proof fn lemma_find_crlf(s: Seq<u8>)
    ensures
        match find_crlf(s) {
            Some(i) => 0 <= i && i + 1 < s.len() && s[i] == 13 && s[i + 1] == 10 && forall|j: int|
                0 <= j < i ==> !(#[trigger] s[j] == 13 && s[j + 1] == 10),
            None => forall|j: int| 0 <= j && j + 1 < s.len() ==> !(#[trigger] s[j] == 13 && s[j + 1] == 10),
        },
    decreases s.len(),
{
    if s.len() >= 2 && !(s[0] == 13 && s[1] == 10) {
        lemma_find_crlf(s.drop_first());
        assert forall|j: int| 1 <= j && j + 1 < s.len() implies #[trigger] s[j]
            == s.drop_first()[j - 1] && s[j + 1] == s.drop_first()[j] by {}
    }
}

proof fn lemma_find_crlf_at(s: Seq<u8>, i: int)
    requires
        0 <= i && i + 1 < s.len(),
        s[i] == 13 && s[i + 1] == 10,
        forall|j: int| 0 <= j < i ==> !(#[trigger] s[j] == 13 && s[j + 1] == 10),
    ensures
        find_crlf(s) == Some(i),
    decreases s.len(),
{
    if i > 0 {
        assert forall|j: int| 0 <= j < i - 1 implies !(#[trigger] s.drop_first()[j] == 13 && s.drop_first()[j
            + 1] == 10) by {
            assert(s.drop_first()[j] == s[j + 1] && s.drop_first()[j + 1] == s[j + 2]);
        }
        lemma_find_crlf_at(s.drop_first(), i - 1);
    }
}

proof fn lemma_find_crlf_none(s: Seq<u8>)
    requires
        forall|j: int| 0 <= j && j + 1 < s.len() ==> !(#[trigger] s[j] == 13 && s[j + 1] == 10),
    ensures
        find_crlf(s) is None,
    decreases s.len(),
{
    if s.len() >= 2 {
        assert forall|j: int| 0 <= j && j + 1 < s.len() - 1 implies !(#[trigger] s.drop_first()[j] == 13
            && s.drop_first()[j + 1] == 10) by {
            assert(s.drop_first()[j] == s[j + 1] && s.drop_first()[j + 1] == s[j + 2]);
        }
        lemma_find_crlf_none(s.drop_first());
    }
}

/// The index of the first CRLF in `s`.
pub fn find_crlf_in(s: &[u8]) -> (r: Option<usize>)
    ensures
        r matches Some(i) ==> find_crlf(s@) == Some(i as int),
        r is None ==> find_crlf(s@) is None,
{
    let mut i: usize = 0;
    while i < s.len() && i + 1 < s.len()
        invariant
            i <= s.len(),
            forall|j: int| 0 <= j < i && j + 1 < s.len() ==> !(#[trigger] s@[j] == 13 && s@[j + 1] == 10),
        decreases s.len() - i,
    {
        if s[i] == 13 && s[i + 1] == 10 {
            proof {
                lemma_find_crlf_at(s@, i as int);
            }
            return Some(i);
        }
        i = i + 1;
    }
    proof {
        lemma_find_crlf_none(s@);
    }
    None
}

/// Setting a high bit gives a byte at or above `0x80`.
proof fn lemma_high_bits(x: u8)
    ensures
        (0x80u8 | x) >= 0x80,
        (0xC0u8 | x) >= 0x80,
        (0xE0u8 | x) >= 0x80,
        (0xF0u8 | x) >= 0x80,
{
    assert((0x80u8 | x) >= 0x80) by (bit_vector);
    assert((0xC0u8 | x) >= 0x80) by (bit_vector);
    assert((0xE0u8 | x) >= 0x80) by (bit_vector);
    assert((0xF0u8 | x) >= 0x80) by (bit_vector);
}

/// An ASCII byte in a character's UTF-8 encoding is that character.
pub proof fn lemma_encode_scalar_ascii(c: u32, b: u8)
    requires
        b < 0x80,
        encode_scalar(c).contains(b),
    ensures
        c == b as u32,
{
    let e = encode_scalar(c);
    let k = choose|k: int| 0 <= k < e.len() && e[k] == b;
    if has_width_1_encoding(c) {
        assert((c & 0x7F) as u8 == c) by (bit_vector)
            requires
                c <= 0x7F,
        ;
    } else {
        lemma_high_bits(((c >> 6) & 0x1F) as u8);
        lemma_high_bits(((c >> 12) & 0x0F) as u8);
        lemma_high_bits(((c >> 18) & 0x7) as u8);
        lemma_high_bits((c & 0x3F) as u8);
        lemma_high_bits(((c >> 6) & 0x3F) as u8);
        lemma_high_bits(((c >> 12) & 0x3F) as u8);
        assert(e[k] >= 0x80);
    }
}

/// Text without some ASCII character encodes to bytes without that byte.
pub proof fn lemma_encode_lacks(chars: Seq<char>, b: u8)
    requires
        b < 0x80,
        forall|i: int| 0 <= i < chars.len() ==> (#[trigger] chars[i]) as u32 != b as u32,
    ensures
        !encode_utf8(chars).contains(b),
    decreases chars.len(),
{
    if chars.len() > 0 {
        let e0 = encode_scalar(chars[0] as u32);
        let rest = chars.drop_first();
        assert forall|i: int| 0 <= i < rest.len() implies (#[trigger] rest[i]) as u32 != b as u32 by {
            assert(rest[i] == chars[i + 1]);
        }
        lemma_encode_lacks(rest, b);
        if e0.contains(b) {
            lemma_encode_scalar_ascii(chars[0] as u32, b);
        }
        let all = encode_utf8(chars);
        assert(all == e0 + encode_utf8(rest));
        if all.contains(b) {
            let j = choose|j: int| 0 <= j < all.len() && all[j] == b;
            if j < e0.len() {
                assert(e0[j] == b);
            } else {
                assert(encode_utf8(rest)[j - e0.len()] == b);
            }
        }
    }
}

/// The first CRLF of some bytes, when the bytes before it hold no carriage
/// return.
pub proof fn lemma_find_crlf_after(a: Seq<u8>, b: Seq<u8>)
    requires
        !a.contains(13u8),
    ensures
        find_crlf(a + seq![13u8, 10u8] + b) == Some(a.len() as int),
    decreases a.len(),
{
    let s = a + seq![13u8, 10u8] + b;
    if a.len() == 0 {
        assert(s[0] == 13 && s[1] == 10);
    } else {
        assert(a[0] != 13) by {
            if a[0] == 13 {
                assert(a.contains(13u8));
            }
        }
        let a2 = a.drop_first();
        assert(!a2.contains(13u8)) by {
            if a2.contains(13u8) {
                let j = choose|j: int| 0 <= j < a2.len() && a2[j] == 13u8;
                assert(a[j + 1] == 13u8);
            }
        }
        lemma_find_crlf_after(a2, b);
        assert(s.drop_first() =~= a2 + seq![13u8, 10u8] + b);
        assert(s[0] == a[0]);
    }
}

/// A line without carriage returns, then CRLF and some bytes: where
/// `find_crlf` finds the line's end, and the line's bytes read back as it.
pub proof fn lemma_crlf_line(line: Seq<char>, data: Seq<u8>)
    requires
        forall|i: int| 0 <= i < line.len() ==> #[trigger] line[i] != '\r',
    ensures
        (encode_utf8(line + seq!['\r', '\n']) + data) == encode_utf8(line) + seq![13u8, 10u8] + data,
        find_crlf((encode_utf8(line + seq!['\r', '\n']) + data)) == Some(encode_utf8(line).len() as int),
        (encode_utf8(line + seq!['\r', '\n']) + data).take(encode_utf8(line).len() as int) == encode_utf8(line),
        (encode_utf8(line + seq!['\r', '\n']) + data).skip(encode_utf8(line).len() + 2 as int) == data,
        valid_utf8(encode_utf8(line)),
        decode_utf8(encode_utf8(line)) == line,
{
    lemma_encode_append(line, seq!['\r', '\n']);
    assert(encode_utf8(seq!['\r', '\n']) =~= seq![13u8, 10u8]) by {
        reveal_with_fuel(encode_utf8, 3);
        assert('\r' as u32 == 13u32);
        assert('\n' as u32 == 10u32);
        assert((13u32 & 0x7Fu32) as u8 == 13u8) by (bit_vector);
        assert((10u32 & 0x7Fu32) as u8 == 10u8) by (bit_vector);
    }
    assert forall|i: int| 0 <= i < line.len() implies (#[trigger] line[i]) as u32 != 13u8 as u32 by {
        assert(line[i] != '\r');
        if line[i] as u32 == 13u32 {
            vstd::utf8::char_u32_cast(line[i], 13u32);
            vstd::utf8::char_u32_cast('\r', 13u32);
        }
    }
    lemma_encode_lacks(line, 13u8);
    let a = encode_utf8(line);
    lemma_find_crlf_after(a, data);
    assert((encode_utf8(line + seq!['\r', '\n']) + data) =~= a + seq![13u8, 10u8] + data);
    assert((a + seq![13u8, 10u8] + data).take(a.len() as int) =~= a);
    assert((a + seq![13u8, 10u8] + data).skip(a.len() + 2 as int) =~= data);
    vstd::utf8::encode_utf8_valid_utf8(line);
    vstd::utf8::encode_utf8_decode_utf8(line);
}

/// Encoding distributes over concatenation.
pub proof fn lemma_encode_append(a: Seq<char>, b: Seq<char>)
    ensures
        encode_utf8(a + b) == encode_utf8(a) + encode_utf8(b),
    decreases a.len(),
{
    if a.len() == 0 {
        assert(a + b =~= b);
        assert(encode_utf8(a) =~= Seq::<u8>::empty());
        assert(Seq::<u8>::empty() + encode_utf8(b) =~= encode_utf8(b));
    } else {
        lemma_encode_append(a.drop_first(), b);
        assert((a + b).drop_first() =~= a.drop_first() + b);
        assert((a + b)[0] == a[0]);
    }
}

} // verus!
