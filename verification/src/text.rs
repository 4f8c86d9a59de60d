//! Character-level text handling shared by every protocol module: a string is
//! modelled as the sequence of its characters, and each helper here states
//! what it computes over that sequence.
use vstd::prelude::*;

verus! {

broadcast use vstd::string::group_string_axioms;

// ── Conversions between strings and character vectors ────────────────────

/// The characters of a string slice, in order.
pub fn chars_of(s: &str) -> (v: Vec<char>)
    ensures
        v@ == s@,
{
    let mut v: Vec<char> = Vec::new();
    for c in it: s.chars()
        invariant
            v@ == it.seq().take(it.index() as int),
    {
        v.push(c);
    }
    assert(v@ =~= s@);
    v
}

/// Appends one character to a string (`String::push`).
#[verifier::external_body]
fn push_char(s: &mut String, c: char)
    ensures
        final(s)@ == old(s)@.push(c),
{
    s.push(c);
}

/// A string holding exactly the given characters.
pub fn string_of(cs: &[char]) -> (r: String)
    ensures
        r@ == cs@,
{
    let mut r = String::new();
    let mut i: usize = 0;
    while i < cs.len()
        invariant
            i <= cs.len(),
            r@ == cs@.take(i as int),
        decreases cs.len() - i,
    {
        push_char(&mut r, cs[i]);
        i = i + 1;
        assert(r@ =~= cs@.take(i as int));
    }
    assert(cs@.take(cs.len() as int) =~= cs@);
    r
}

/// The characters `s[from..to]` as a new vector.
pub fn slice_chars(s: &[char], from: usize, to: usize) -> (v: Vec<char>)
    requires
        from <= to <= s.len(),
    ensures
        v@ == s@.subrange(from as int, to as int),
{
    let mut v: Vec<char> = Vec::new();
    let mut i = from;
    while i < to
        invariant
            from <= i <= to <= s.len(),
            v@ == s@.subrange(from as int, i as int),
        decreases to - i,
    {
        v.push(s[i]);
        i = i + 1;
        assert(v@ =~= s@.subrange(from as int, i as int));
    }
    v
}

/// The string `s[from..to]`.
pub fn substring(s: &[char], from: usize, to: usize) -> (r: String)
    requires
        from <= to <= s.len(),
    ensures
        r@ == s@.subrange(from as int, to as int),
{
    let v = slice_chars(s, from, to);
    string_of(v.as_slice())
}

/// Whether two character sequences are equal.
pub fn chars_eq(a: &[char], b: &[char]) -> (r: bool)
    ensures
        r == (a@ == b@),
{
    if a.len() != b.len() {
        return false;
    }
    let mut i: usize = 0;
    while i < a.len()
        invariant
            a.len() == b.len(),
            i <= a.len(),
            forall|j: int| 0 <= j < i ==> a@[j] == b@[j],
        decreases a.len() - i,
    {
        if a[i] != b[i] {
            return false;
        }
        i = i + 1;
    }
    assert(a@ =~= b@);
    true
}

/// Whether `prefix` begins `s`.
pub fn starts_with(s: &[char], prefix: &[char]) -> (r: bool)
    ensures
        r == prefix@.is_prefix_of(s@),
{
    if prefix.len() > s.len() {
        return false;
    }
    let mut i: usize = 0;
    while i < prefix.len()
        invariant
            prefix.len() <= s.len(),
            i <= prefix.len(),
            forall|j: int| 0 <= j < i ==> prefix@[j] == s@[j],
        decreases prefix.len() - i,
    {
        if prefix[i] != s[i] {
            return false;
        }
        i = i + 1;
    }
    true
}

/// Whether `suffix` ends `s`.
pub open spec fn is_suffix(suffix: Seq<char>, s: Seq<char>) -> bool {
    suffix.len() <= s.len() && s.subrange(s.len() - suffix.len(), s.len() as int) == suffix
}

/// Whether `suffix` ends `s`.
pub fn ends_with(s: &[char], suffix: &[char]) -> (r: bool)
    ensures
        r == is_suffix(suffix@, s@),
{
    if suffix.len() > s.len() {
        return false;
    }
    let off = s.len() - suffix.len();
    let mut i: usize = 0;
    while i < suffix.len()
        invariant
            off + suffix.len() == s.len(),
            i <= suffix.len(),
            forall|j: int| 0 <= j < i ==> suffix@[j] == s@[off + j],
        decreases suffix.len() - i,
    {
        if suffix[i] != s[off + i] {
            assert(s@.subrange(off as int, s.len() as int)[i as int] != suffix@[i as int]);
            return false;
        }
        i = i + 1;
    }
    assert(s@.subrange(off as int, s.len() as int) =~= suffix@);
    true
}

// ── Whitespace ─────────────────────────────────────────────────────────────

/// Unicode's `White_Space` property, which is what `char::is_whitespace`
/// tests.
pub open spec fn is_ws(c: char) -> bool {
    ||| ('\u{9}' <= c && c <= '\u{d}')
    ||| c == ' '
    ||| c == '\u{85}'
    ||| c == '\u{a0}'
    ||| c == '\u{1680}'
    ||| ('\u{2000}' <= c && c <= '\u{200a}')
    ||| c == '\u{2028}'
    ||| c == '\u{2029}'
    ||| c == '\u{202f}'
    ||| c == '\u{205f}'
    ||| c == '\u{3000}'
}

/// Whether a character is Unicode whitespace.
pub fn is_whitespace(c: char) -> (r: bool)
    ensures
        r == is_ws(c),
{
    ('\u{9}' <= c && c <= '\u{d}') || c == ' ' || c == '\u{85}' || c == '\u{a0}' || c
        == '\u{1680}' || ('\u{2000}' <= c && c <= '\u{200a}') || c == '\u{2028}' || c
        == '\u{2029}' || c == '\u{202f}' || c == '\u{205f}' || c == '\u{3000}'
}

/// `s` without its leading whitespace.
pub open spec fn trim_start(s: Seq<char>) -> Seq<char>
    decreases s.len(),
{
    if s.len() > 0 && is_ws(s[0]) {
        trim_start(s.drop_first())
    } else {
        s
    }
}

/// `s` without its trailing whitespace.
pub open spec fn trim_end(s: Seq<char>) -> Seq<char>
    decreases s.len(),
{
    if s.len() > 0 && is_ws(s.last()) {
        trim_end(s.drop_last())
    } else {
        s
    }
}

/// `s` without leading or trailing whitespace.
pub open spec fn trim(s: Seq<char>) -> Seq<char> {
    trim_end(trim_start(s))
}

/// Where the text of `s` starts once leading whitespace is skipped.
pub fn trim_start_at(s: &[char]) -> (i: usize)
    ensures
        i <= s.len(),
        trim_start(s@) == s@.skip(i as int),
{
    let mut i: usize = 0;
    assert(s@.skip(0) =~= s@);
    while i < s.len() && is_whitespace(s[i])
        invariant
            i <= s.len(),
            trim_start(s@) == trim_start(s@.skip(i as int)),
        decreases s.len() - i,
    {
        assert(s@.skip(i as int).drop_first() =~= s@.skip(i + 1));
        i = i + 1;
    }
    i
}

/// Where the text of `s` ends once trailing whitespace is dropped.
pub fn trim_end_at(s: &[char]) -> (j: usize)
    ensures
        j <= s.len(),
        trim_end(s@) == s@.take(j as int),
{
    let mut j: usize = s.len();
    assert(s@.take(s.len() as int) =~= s@);
    while j > 0 && is_whitespace(s[j - 1])
        invariant
            j <= s.len(),
            trim_end(s@) == trim_end(s@.take(j as int)),
        decreases j,
    {
        assert(s@.take(j as int).drop_last() =~= s@.take(j - 1));
        j = j - 1;
    }
    j
}

/// `s` without leading whitespace.
pub fn trimmed_start(s: &[char]) -> (v: Vec<char>)
    ensures
        v@ == trim_start(s@),
{
    let i = trim_start_at(s);
    slice_chars(s, i, s.len())
}

/// `s` without trailing whitespace.
pub fn trimmed_end(s: &[char]) -> (v: Vec<char>)
    ensures
        v@ == trim_end(s@),
{
    let j = trim_end_at(s);
    slice_chars(s, 0, j)
}

/// `s` without leading or trailing whitespace.
pub fn trimmed(s: &[char]) -> (v: Vec<char>)
    ensures
        v@ == trim(s@),
{
    let a = trimmed_start(s);
    trimmed_end(a.as_slice())
}

// ── Searching and splitting ────────────────────────────────────────────────

/// The index of the first `c` in `s`.
pub open spec fn find(s: Seq<char>, c: char) -> Option<int>
    decreases s.len(),
{
    if s.len() == 0 {
        None
    } else if s[0] == c {
        Some(0)
    } else {
        match find(s.drop_first(), c) {
            Some(i) => Some(i + 1),
            None => None,
        }
    }
}

/// What `find` returns, said directly.
pub proof fn lemma_find(s: Seq<char>, c: char)
    ensures
        match find(s, c) {
            Some(i) => 0 <= i < s.len() && s[i] == c && forall|j: int| 0 <= j < i ==> s[j] != c,
            None => forall|j: int| 0 <= j < s.len() ==> s[j] != c,
        },
    decreases s.len(),
{
    if s.len() > 0 && s[0] != c {
        lemma_find(s.drop_first(), c);
        if let Some(i) = find(s.drop_first(), c) {
            assert forall|j: int| 0 <= j < i + 1 implies s[j] != c by {
                if j > 0 {
                    assert(s[j] == s.drop_first()[j - 1]);
                }
            }
        } else {
            assert forall|j: int| 0 <= j < s.len() implies s[j] != c by {
                if j > 0 {
                    assert(s[j] == s.drop_first()[j - 1]);
                }
            }
        }
    }
}

/// The first occurrence is what `find` reports.
pub proof fn lemma_find_at(s: Seq<char>, c: char, i: int)
    requires
        0 <= i < s.len(),
        s[i] == c,
        forall|j: int| 0 <= j < i ==> s[j] != c,
    ensures
        find(s, c) == Some(i),
    decreases s.len(),
{
    if i > 0 {
        assert forall|j: int| 0 <= j < i - 1 implies s.drop_first()[j] != c by {
            assert(s.drop_first()[j] == s[j + 1]);
        }
        lemma_find_at(s.drop_first(), c, i - 1);
    }
}

/// A sequence without `c` has no first `c`.
pub proof fn lemma_find_none(s: Seq<char>, c: char)
    requires
        forall|j: int| 0 <= j < s.len() ==> s[j] != c,
    ensures
        find(s, c) is None,
    decreases s.len(),
{
    if s.len() > 0 {
        assert forall|j: int| 0 <= j < s.len() - 1 implies s.drop_first()[j] != c by {
            assert(s.drop_first()[j] == s[j + 1]);
        }
        lemma_find_none(s.drop_first(), c);
    }
}

/// The index of the first `c` in `s`.
pub fn find_char(s: &[char], c: char) -> (r: Option<usize>)
    ensures
        r matches Some(i) ==> find(s@, c) == Some(i as int),
        r is None ==> find(s@, c) is None,
{
    let mut i: usize = 0;
    while i < s.len()
        invariant
            i <= s.len(),
            forall|j: int| 0 <= j < i ==> s@[j] != c,
        decreases s.len() - i,
    {
        if s[i] == c {
            proof {
                lemma_find_at(s@, c, i as int);
            }
            return Some(i);
        }
        i = i + 1;
    }
    proof {
        lemma_find_none(s@, c);
    }
    None
}

/// `s` cut at its first `c`, the `c` itself dropped (`str::split_once`).
pub open spec fn split_once(s: Seq<char>, c: char) -> Option<(Seq<char>, Seq<char>)> {
    match find(s, c) {
        Some(i) => Some((s.take(i), s.skip(i + 1))),
        None => None,
    }
}

/// `s` cut at its first `c`, the `c` itself dropped.
pub fn split_once_char(s: &[char], c: char) -> (r: Option<(Vec<char>, Vec<char>)>)
    ensures
        match split_once(s@, c) {
            Some((a, b)) => r matches Some((x, y)) && x@ == a && y@ == b,
            None => r is None,
        },
{
    match find_char(s, c) {
        Some(i) => {
            proof {
                lemma_find(s@, c);
            }
            assert(i < s.len());
            Some((slice_chars(s, 0, i), slice_chars(s, i + 1, s.len())))
        },
        None => None,
    }
}

/// The pieces of `s` between occurrences of `c` (`str::split`).
pub open spec fn split(s: Seq<char>, c: char) -> Seq<Seq<char>>
    decreases s.len(),
{
    match find(s, c) {
        Some(i) => {
            proof {
                lemma_find(s, c);
            }
            seq![s.take(i)] + split(s.skip(i + 1), c)
        },
        None => seq![s],
    }
}

/// Splitting always yields at least one piece.
pub proof fn lemma_split_nonempty(s: Seq<char>, c: char)
    ensures
        split(s, c).len() >= 1,
{
    match find(s, c) {
        Some(i) => {
            lemma_find(s, c);
        },
        None => {},
    }
}

/// The views of a vector of character vectors.
pub open spec fn views(v: Seq<Vec<char>>) -> Seq<Seq<char>> {
    v.map_values(|x: Vec<char>| x@)
}

/// The pieces of `s` between occurrences of `c`.
pub fn split_char(s: &[char], c: char) -> (r: Vec<Vec<char>>)
    ensures
        views(r@) == split(s@, c),
{
    let mut r: Vec<Vec<char>> = Vec::new();
    let mut rest = slice_chars(s, 0, s.len());
    assert(rest@ =~= s@);
    assert(views(r@) + split(rest@, c) =~= split(s@, c));
    loop
        invariant
            views(r@) + split(rest@, c) == split(s@, c),
        decreases rest@.len(),
    {
        match find_char(rest.as_slice(), c) {
            Some(i) => {
                proof {
                    lemma_find(rest@, c);
                }
                let head = slice_chars(rest.as_slice(), 0, i);
                let tail = slice_chars(rest.as_slice(), i + 1, rest.len());
                let ghost old_r = r@;
                r.push(head);
                assert(views(r@) =~= views(old_r).push(head@));
                assert(split(rest@, c) == seq![head@] + split(tail@, c));
                assert(views(r@) + split(tail@, c) =~= views(old_r) + split(rest@, c));
                rest = tail;
            },
            None => {
                let ghost old_r = r@;
                r.push(rest);
                assert(views(r@) =~= views(old_r).push(rest@));
                assert(views(r@) =~= views(old_r) + split(rest@, c));
                return r;
            },
        }
    }
}

// ── Lines ──────────────────────────────────────────────────────────────────

/// A line whose `\n` has been removed loses a carriage return before it.
pub open spec fn strip_cr(s: Seq<char>) -> Seq<char> {
    if s.len() > 0 && s.last() == '\r' {
        s.drop_last()
    } else {
        s
    }
}

/// The lines of `s` as `str::lines` yields them: split at `\n`, a `\r` before
/// the `\n` dropped, and no empty line after a final line ending.
pub open spec fn lines(s: Seq<char>) -> Seq<Seq<char>>
    decreases s.len(),
{
    if s.len() == 0 {
        seq![]
    } else {
        match find(s, '\n') {
            Some(i) => {
                proof {
                    lemma_find(s, '\n');
                }
                seq![strip_cr(s.take(i))] + lines(s.skip(i + 1))
            },
            None => seq![s],
        }
    }
}

/// The lines of `s`.
pub fn lines_of(s: &[char]) -> (r: Vec<Vec<char>>)
    ensures
        views(r@) == lines(s@),
{
    let mut r: Vec<Vec<char>> = Vec::new();
    let mut rest = slice_chars(s, 0, s.len());
    assert(rest@ =~= s@);
    assert(views(r@) + lines(rest@) =~= lines(s@));
    while rest.len() > 0
        invariant
            views(r@) + lines(rest@) == lines(s@),
        decreases rest@.len(),
    {
        match find_char(rest.as_slice(), '\n') {
            Some(i) => {
                proof {
                    lemma_find(rest@, '\n');
                }
                let mut end = i;
                if i > 0 && rest[i - 1] == '\r' {
                    end = i - 1;
                }
                let head = slice_chars(rest.as_slice(), 0, end);
                assert(head@ =~= strip_cr(rest@.take(i as int)));
                let tail = slice_chars(rest.as_slice(), i + 1, rest.len());
                let ghost old_r = r@;
                r.push(head);
                assert(views(r@) =~= views(old_r).push(head@));
                assert(lines(rest@) == seq![head@] + lines(tail@));
                assert(views(r@) + lines(tail@) =~= views(old_r) + lines(rest@));
                rest = tail;
            },
            None => {
                let ghost old_r = r@;
                r.push(rest);
                assert(views(r@) =~= views(old_r).push(rest@));
                assert(views(r@) =~= views(old_r) + lines(rest@));
                return r;
            },
        }
    }
    assert(views(r@) + lines(rest@) =~= views(r@));
    r
}

/// `s` without the carriage returns and line feeds at its end
/// (`trim_end_matches(['\r', '\n'])`).
pub open spec fn trim_end_crlf(s: Seq<char>) -> Seq<char>
    decreases s.len(),
{
    if s.len() > 0 && (s.last() == '\r' || s.last() == '\n') {
        trim_end_crlf(s.drop_last())
    } else {
        s
    }
}

/// A CRLF after text that does not itself end in a line break is all that
/// `trim_end_crlf` drops.
pub proof fn lemma_trim_end_crlf_of_line(x: Seq<char>)
    requires
        x.len() > 0 ==> x.last() != '\r' && x.last() != '\n',
    ensures
        trim_end_crlf(x + seq!['\r', '\n']) == x,
{
    let l = x + seq!['\r', '\n'];
    assert(l.drop_last() =~= x + seq!['\r']);
    assert(l.drop_last().drop_last() =~= x);
    assert(trim_end_crlf(l) == trim_end_crlf(l.drop_last()));
    assert(trim_end_crlf(l.drop_last()) == trim_end_crlf(x));
}

/// Where `s` ends once its trailing carriage returns and line feeds are
/// dropped.
pub fn trim_end_crlf_at(s: &[char]) -> (j: usize)
    ensures
        j <= s.len(),
        trim_end_crlf(s@) == s@.take(j as int),
{
    let mut j: usize = s.len();
    assert(s@.take(s.len() as int) =~= s@);
    while j > 0 && (s[j - 1] == '\r' || s[j - 1] == '\n')
        invariant
            j <= s.len(),
            trim_end_crlf(s@) == trim_end_crlf(s@.take(j as int)),
        decreases j,
    {
        assert(s@.take(j as int).drop_last() =~= s@.take(j - 1));
        j = j - 1;
    }
    j
}

/// `s` without one line ending: a `\r\n` if it ends in one, otherwise a lone
/// `\n`.
pub open spec fn strip_line_ending(s: Seq<char>) -> Seq<char> {
    if s.len() >= 2 && s[s.len() - 2] == '\r' && s.last() == '\n' {
        s.take(s.len() - 2)
    } else if s.len() >= 1 && s.last() == '\n' {
        s.drop_last()
    } else {
        s
    }
}

/// Where `s` ends once one line ending is dropped.
pub fn strip_line_ending_at(s: &[char]) -> (j: usize)
    ensures
        j <= s.len(),
        strip_line_ending(s@) == s@.take(j as int),
{
    let n = s.len();
    if n >= 2 && s[n - 2] == '\r' && s[n - 1] == '\n' {
        n - 2
    } else if n >= 1 && s[n - 1] == '\n' {
        n - 1
    } else {
        assert(s@.take(n as int) =~= s@);
        n
    }
}

// ── Decimal numbers ────────────────────────────────────────────────────────

/// An ASCII decimal digit.
pub open spec fn is_digit(c: char) -> bool {
    '0' <= c && c <= '9'
}

/// The value of a digit character.
pub open spec fn digit_value(c: char) -> nat {
    (c as int - '0' as int) as nat
}

/// Every character of `s` is a digit.
pub open spec fn all_digits(s: Seq<char>) -> bool {
    forall|i: int| 0 <= i < s.len() ==> is_digit(#[trigger] s[i])
}

/// The number that a run of digits spells in base ten.
pub open spec fn decimal_value(s: Seq<char>) -> nat
    decreases s.len(),
{
    if s.len() == 0 {
        0
    } else {
        decimal_value(s.drop_last()) * 10 + digit_value(s.last())
    }
}

/// What `str::parse` gives for an unsigned integer type whose largest value
/// is `max`: an optional `+`, then at least one digit and nothing else, and a
/// value that fits.
pub open spec fn parse_unsigned(s: Seq<char>, max: nat) -> Option<nat> {
    let d = if s.len() > 0 && s[0] == '+' {
        s.drop_first()
    } else {
        s
    };
    if d.len() > 0 && all_digits(d) && decimal_value(d) <= max {
        Some(decimal_value(d))
    } else {
        None
    }
}

/// A prefix of a digit run is worth no more than the whole run.
pub proof fn lemma_decimal_prefix(s: Seq<char>, i: int)
    requires
        0 <= i <= s.len(),
    ensures
        decimal_value(s.take(i)) <= decimal_value(s),
    decreases s.len(),
{
    if i < s.len() {
        assert(s.drop_last().take(i) =~= s.take(i));
        lemma_decimal_prefix(s.drop_last(), i);
    } else {
        assert(s.take(i) =~= s);
    }
}

/// Whether a character is a decimal digit.
pub fn is_digit_char(c: char) -> (r: bool)
    ensures
        r == is_digit(c),
{
    '0' <= c && c <= '9'
}

/// Parses an unsigned decimal number no larger than `u64::MAX`.
pub fn parse_u64(s: &[char]) -> (r: Option<u64>)
    ensures
        match parse_unsigned(s@, u64::MAX as nat) {
            Some(n) => r == Some(n as u64),
            None => r is None,
        },
{
    let start: usize = if s.len() > 0 && s[0] == '+' {
        1
    } else {
        0
    };
    let ghost d = if s@.len() > 0 && s@[0] == '+' {
        s@.drop_first()
    } else {
        s@
    };
    assert(d =~= s@.skip(start as int));
    if start == s.len() {
        return None;
    }
    let mut acc: u64 = 0;
    let mut i = start;
    assert(d.take(0) =~= Seq::<char>::empty());
    while i < s.len()
        invariant
            start <= i <= s.len(),
            d =~= s@.skip(start as int),
            d == (if s@.len() > 0 && s@[0] == '+' {
                s@.drop_first()
            } else {
                s@
            }),
            acc as nat == decimal_value(d.take(i - start)),
            all_digits(d.take(i - start)),
        decreases s.len() - i,
    {
        let c = s[i];
        if !is_digit_char(c) {
            assert(d[i - start] == c);
            assert(!is_digit(d[i - start]));
            return None;
        }
        let dv = (c as u32 - 48) as u64;
        assert(d.take(i - start + 1).drop_last() =~= d.take(i - start));
        assert(d.take(i - start + 1).last() == c);
        assert(digit_value(c) == dv);
        assert(decimal_value(d.take(i - start + 1)) == acc * 10 + dv);
        if acc > 1844674407370955161 || (acc == 1844674407370955161 && dv > 5) {
            proof {
                lemma_decimal_prefix(d, i - start + 1);
            }
            return None;
        }
        acc = acc * 10 + dv;
        i = i + 1;
        assert(all_digits(d.take(i - start)));
    }
    assert(d.take(i - start) =~= d);
    Some(acc)
}

/// Parses an unsigned decimal number no larger than `u32::MAX`.
pub fn parse_u32(s: &[char]) -> (r: Option<u32>)
    ensures
        match parse_unsigned(s@, u32::MAX as nat) {
            Some(n) => r == Some(n as u32),
            None => r is None,
        },
{
    match parse_u64(s) {
        Some(n) => if n <= 0xffff_ffff {
            Some(n as u32)
        } else {
            None
        },
        None => None,
    }
}

/// Parses an unsigned decimal number no larger than `u16::MAX`.
pub fn parse_u16(s: &[char]) -> (r: Option<u16>)
    ensures
        match parse_unsigned(s@, u16::MAX as nat) {
            Some(n) => r == Some(n as u16),
            None => r is None,
        },
{
    match parse_u64(s) {
        Some(n) => if n <= 0xffff {
            Some(n as u16)
        } else {
            None
        },
        None => None,
    }
}

/// Parses an unsigned decimal number no larger than `u8::MAX`.
pub fn parse_u8(s: &[char]) -> (r: Option<u8>)
    ensures
        match parse_unsigned(s@, u8::MAX as nat) {
            Some(n) => r == Some(n as u8),
            None => r is None,
        },
{
    match parse_u64(s) {
        Some(n) => if n <= 0xff {
            Some(n as u8)
        } else {
            None
        },
        None => None,
    }
}

/// The digit character for a value below ten.
pub open spec fn digit_char(n: nat) -> char {
    (n + 48) as char
}

/// The shortest base-ten spelling of `n`, as `Display` writes it.
pub open spec fn decimal(n: nat) -> Seq<char>
    decreases n,
{
    if n < 10 {
        seq![digit_char(n)]
    } else {
        decimal(n / 10).push(digit_char(n % 10))
    }
}

/// Writing a number in base ten and reading it back gives the number.
pub proof fn lemma_decimal_round_trip(n: nat)
    ensures
        decimal(n).len() > 0,
        all_digits(decimal(n)),
        decimal_value(decimal(n)) == n,
        decimal(n)[0] != '+',
    decreases n,
{
    if n >= 10 {
        lemma_decimal_round_trip(n / 10);
        let s = decimal(n);
        assert(s.drop_last() =~= decimal(n / 10));
        assert forall|i: int| 0 <= i < s.len() implies is_digit(#[trigger] s[i]) by {
            if i < s.len() - 1 {
                assert(s[i] == decimal(n / 10)[i]);
            }
        }
        assert(s[0] == decimal(n / 10)[0]);
        let k = n % 10;
        assert(digit_char(k) as int == k + 48);
        assert(digit_value(s.last()) == k);
        assert(decimal_value(s) == decimal_value(s.drop_last()) * 10 + digit_value(s.last()));
        assert(n == (n / 10) * 10 + k);
    } else {
        assert(digit_char(n) as int == n + 48);
        assert(decimal(n).drop_last() =~= Seq::<char>::empty());
        assert(decimal_value(Seq::<char>::empty()) == 0);
    }
}

/// The spelling of a number ends in a digit.
pub proof fn lemma_decimal_last_digit(n: nat)
    ensures
        decimal(n).len() > 0,
        is_digit(decimal(n).last()),
{
    lemma_decimal_round_trip(n);
    assert(is_digit(decimal(n)[decimal(n).len() - 1]));
}

/// A run of digits is its own first word.
pub proof fn lemma_digits_word(s: Seq<char>)
    requires
        all_digits(s),
    ensures
        first_word(s) == s,
{
    assert forall|j: int| 0 <= j < s.len() implies !is_ws(s[j]) by {
        assert(is_digit(s[j]));
    }
    if s.len() > 0 {
        assert(is_digit(s[0]));
    }
    assert(trim_start(s) == s);
    lemma_find_ws_none(s);
}

/// A number's spelling is its own first word.
pub proof fn lemma_decimal_is_word(n: nat)
    ensures
        first_word(decimal(n)) == decimal(n),
{
    lemma_decimal_round_trip(n);
    lemma_digits_word(decimal(n));
}

/// `n` written in base ten.
pub fn decimal_chars(n: u64) -> (v: Vec<char>)
    ensures
        v@ == decimal(n as nat),
    decreases n,
{
    if n < 10 {
        let mut v: Vec<char> = Vec::new();
        v.push(((n as u8) + 48) as char);
        assert(v@ =~= seq![digit_char(n as nat)]);
        v
    } else {
        let mut v = decimal_chars(n / 10);
        v.push((((n % 10) as u8) + 48) as char);
        v
    }
}

/// Appends the characters of `more` to `v`.
pub fn append_chars(v: &mut Vec<char>, more: &[char])
    ensures
        final(v)@ == old(v)@ + more@,
{
    let mut i: usize = 0;
    let ghost start = v@;
    while i < more.len()
        invariant
            i <= more.len(),
            v@ == start + more@.take(i as int),
        decreases more.len() - i,
    {
        v.push(more[i]);
        i = i + 1;
        assert(v@ =~= start + more@.take(i as int));
    }
    assert(more@.take(more.len() as int) =~= more@);
}

/// The views of a sequence of strings.
pub open spec fn string_views(v: Seq<String>) -> Seq<Seq<char>> {
    v.map_values(|x: String| x@)
}

/// Strings holding the given character vectors, in order.
pub fn strings_of(v: &Vec<Vec<char>>) -> (r: Vec<String>)
    ensures
        string_views(r@) == views(v@),
{
    let mut r: Vec<String> = Vec::new();
    let mut i: usize = 0;
    while i < v.len()
        invariant
            i <= v.len(),
            string_views(r@) == views(v@).take(i as int),
        decreases v.len() - i,
    {
        let s = string_of(v[i].as_slice());
        let ghost old_r = r@;
        r.push(s);
        assert(string_views(r@) =~= string_views(old_r).push(v@[i as int]@));
        i = i + 1;
        assert(string_views(r@) =~= views(v@).take(i as int));
    }
    assert(views(v@).take(v.len() as int) =~= views(v@));
    r
}

/// `s` without its trailing NUL characters.
pub open spec fn trim_end_nul(s: Seq<char>) -> Seq<char>
    decreases s.len(),
{
    if s.len() > 0 && s.last() == '\0' {
        trim_end_nul(s.drop_last())
    } else {
        s
    }
}

/// The index of the first whitespace character of `s`.
pub open spec fn find_ws(s: Seq<char>) -> Option<int>
    decreases s.len(),
{
    if s.len() == 0 {
        None
    } else if is_ws(s[0]) {
        Some(0)
    } else {
        match find_ws(s.drop_first()) {
            Some(i) => Some(i + 1),
            None => None,
        }
    }
}

/// What `find_ws` returns, said directly.
pub proof fn lemma_find_ws(s: Seq<char>)
    ensures
        match find_ws(s) {
            Some(i) => 0 <= i < s.len() && is_ws(s[i]) && forall|j: int| 0 <= j < i ==> !is_ws(s[j]),
            None => forall|j: int| 0 <= j < s.len() ==> !is_ws(s[j]),
        },
    decreases s.len(),
{
    if s.len() > 0 && !is_ws(s[0]) {
        lemma_find_ws(s.drop_first());
        if let Some(i) = find_ws(s.drop_first()) {
            assert forall|j: int| 0 <= j < i + 1 implies !is_ws(s[j]) by {
                if j > 0 {
                    assert(s[j] == s.drop_first()[j - 1]);
                }
            }
        } else {
            assert forall|j: int| 0 <= j < s.len() implies !is_ws(s[j]) by {
                if j > 0 {
                    assert(s[j] == s.drop_first()[j - 1]);
                }
            }
        }
    }
}

proof fn lemma_find_ws_at(s: Seq<char>, i: int)
    requires
        0 <= i < s.len(),
        is_ws(s[i]),
        forall|j: int| 0 <= j < i ==> !is_ws(s[j]),
    ensures
        find_ws(s) == Some(i),
    decreases s.len(),
{
    if i > 0 {
        assert forall|j: int| 0 <= j < i - 1 implies !is_ws(s.drop_first()[j]) by {
            assert(s.drop_first()[j] == s[j + 1]);
        }
        lemma_find_ws_at(s.drop_first(), i - 1);
    }
}

proof fn lemma_find_ws_none(s: Seq<char>)
    requires
        forall|j: int| 0 <= j < s.len() ==> !is_ws(s[j]),
    ensures
        find_ws(s) is None,
    decreases s.len(),
{
    if s.len() > 0 {
        assert forall|j: int| 0 <= j < s.len() - 1 implies !is_ws(s.drop_first()[j]) by {
            assert(s.drop_first()[j] == s[j + 1]);
        }
        lemma_find_ws_none(s.drop_first());
    }
}

/// The index of the first whitespace character of `s`.
pub fn find_whitespace(s: &[char]) -> (r: Option<usize>)
    ensures
        r matches Some(i) ==> find_ws(s@) == Some(i as int),
        r is None ==> find_ws(s@) is None,
{
    let mut i: usize = 0;
    while i < s.len()
        invariant
            i <= s.len(),
            forall|j: int| 0 <= j < i ==> !is_ws(s@[j]),
        decreases s.len() - i,
    {
        if is_whitespace(s[i]) {
            proof {
                lemma_find_ws_at(s@, i as int);
            }
            return Some(i);
        }
        i = i + 1;
    }
    proof {
        lemma_find_ws_none(s@);
    }
    None
}

/// Whether the string `prefix` begins `s`.
pub fn starts_with_str(s: &[char], prefix: &str) -> (r: bool)
    ensures
        r == prefix@.is_prefix_of(s@),
{
    let p = chars_of(prefix);
    starts_with(s, p.as_slice())
}

/// A string holding `a` followed by `b`.
pub fn concat(a: &str, b: &str) -> (r: String)
    ensures
        r@ == a@ + b@,
{
    let mut v = chars_of(a);
    let w = chars_of(b);
    append_chars(&mut v, w.as_slice());
    string_of(v.as_slice())
}

/// Whether `s` holds exactly the characters of the string `lit`.
pub fn eq_str(s: &[char], lit: &str) -> (r: bool)
    ensures
        r == (s@ == lit@),
{
    let l = chars_of(lit);
    chars_eq(s, l.as_slice())
}

/// The view of an optional string.
pub open spec fn opt_view(o: Option<String>) -> Option<Seq<char>> {
    match o {
        Some(s) => Some(s@),
        None => None,
    }
}

/// At most `n` pieces of `s` between occurrences of `c`: the last piece
/// keeps any further `c` (`str::splitn`).
pub open spec fn splitn(s: Seq<char>, n: nat, c: char) -> Seq<Seq<char>>
    decreases n,
{
    if n <= 1 {
        seq![s]
    } else {
        match split_once(s, c) {
            Some((head, tail)) => seq![head] + splitn(tail, (n - 1) as nat, c),
            None => seq![s],
        }
    }
}

/// At most `n` pieces of `s` between occurrences of `c`.
pub fn splitn_char(s: &[char], n: usize, c: char) -> (r: Vec<Vec<char>>)
    ensures
        views(r@) == splitn(s@, n as nat, c),
{
    let mut r: Vec<Vec<char>> = Vec::new();
    let mut rest = slice_chars(s, 0, s.len());
    assert(rest@ =~= s@);
    let mut k = n;
    assert(views(r@) + splitn(rest@, k as nat, c) =~= splitn(s@, n as nat, c));
    while k > 1
        invariant
            views(r@) + splitn(rest@, k as nat, c) == splitn(s@, n as nat, c),
        decreases k,
    {
        match split_once_char(rest.as_slice(), c) {
            Some((head, tail)) => {
                let ghost old_r = r@;
                r.push(head);
                assert(views(r@) =~= views(old_r).push(head@));
                assert(views(r@) + splitn(tail@, (k - 1) as nat, c) =~= views(old_r) + splitn(
                    rest@,
                    k as nat,
                    c,
                ));
                rest = tail;
                k = k - 1;
            },
            None => {
                let ghost old_r = r@;
                r.push(rest);
                assert(views(r@) =~= views(old_r) + splitn(rest@, k as nat, c));
                return r;
            },
        }
    }
    let ghost old_r = r@;
    r.push(rest);
    assert(views(r@) =~= views(old_r) + splitn(rest@, k as nat, c));
    r
}

/// The first whitespace-separated word of `s`, or nothing
/// (`split_whitespace().next()`).
pub open spec fn first_word(s: Seq<char>) -> Seq<char> {
    let t = trim_start(s);
    match find_ws(t) {
        Some(i) => t.take(i),
        None => t,
    }
}

/// The first whitespace-separated word of `s`.
pub fn first_word_of(s: &[char]) -> (r: Vec<char>)
    ensures
        r@ == first_word(s@),
{
    let t = trimmed_start(s);
    match find_whitespace(t.as_slice()) {
        Some(i) => {
            proof {
                lemma_find_ws(t@);
            }
            slice_chars(t.as_slice(), 0, i)
        },
        None => t,
    }
}

/// The line `.` that ends a listing.
pub open spec fn is_period_line(line: Seq<char>) -> bool {
    line == seq!['.']
}

/// The lines before the first lone `.`.
pub open spec fn until_period(ls: Seq<Seq<char>>) -> Seq<Seq<char>>
    decreases ls.len(),
{
    if ls.len() == 0 {
        seq![]
    } else if is_period_line(ls[0]) {
        seq![]
    } else {
        seq![ls[0]] + until_period(ls.drop_first())
    }
}

/// Cutting the lines at a position before any lone `.`.
pub proof fn lemma_until_period_step(ls: Seq<Seq<char>>, i: int)
    requires
        0 <= i < ls.len(),
        until_period(ls) == ls.take(i) + until_period(ls.skip(i)),
    ensures
        is_period_line(ls[i]) ==> until_period(ls) == ls.take(i),
        !is_period_line(ls[i]) ==> until_period(ls) == ls.take(i + 1) + until_period(ls.skip(i + 1)),
{
    assert(ls.skip(i)[0] == ls[i]);
    assert(ls.skip(i).drop_first() =~= ls.skip(i + 1));
    if is_period_line(ls[i]) {
        assert(ls.take(i) + Seq::<Seq<char>>::empty() =~= ls.take(i));
    } else {
        assert(ls.take(i) + (seq![ls[i]] + until_period(ls.skip(i + 1))) =~= ls.take(i + 1)
            + until_period(ls.skip(i + 1)));
    }
}

/// Whether a line is the lone `.`.
pub fn is_period(line: &[char]) -> (r: bool)
    ensures
        r == is_period_line(line@),
{
    let r = line.len() == 1 && line[0] == '.';
    assert(r ==> line@ =~= seq!['.']);
    r
}

/// The non-empty fields among some, each trimmed.
pub open spec fn nonempty_trimmed(fields: Seq<Seq<char>>) -> Seq<Seq<char>>
    decreases fields.len(),
{
    if fields.len() == 0 {
        seq![]
    } else if trim(fields.last()).len() == 0 {
        nonempty_trimmed(fields.drop_last())
    } else {
        nonempty_trimmed(fields.drop_last()).push(trim(fields.last()))
    }
}

/// Splitting text that holds no separator gives the text back whole.
pub proof fn lemma_split_none(s: Seq<char>, c: char)
    requires
        forall|j: int| 0 <= j < s.len() ==> s[j] != c,
    ensures
        split(s, c) == seq![s],
{
    lemma_find_none(s, c);
}

/// Splitting at a first separator after a piece without one.
pub proof fn lemma_split_at(a: Seq<char>, b: Seq<char>, c: char)
    requires
        forall|j: int| 0 <= j < a.len() ==> a[j] != c,
    ensures
        split(a + seq![c] + b, c) == seq![a] + split(b, c),
{
    let s = a + seq![c] + b;
    lemma_find_at(s, c, a.len() as int);
    assert(s.take(a.len() as int) =~= a);
    assert(s.skip(a.len() + 1 as int) =~= b);
}

/// The pieces joined with a separator between each two (`slice::join`).
pub open spec fn join(ls: Seq<Seq<char>>, sep: char) -> Seq<char>
    decreases ls.len(),
{
    if ls.len() == 0 {
        seq![]
    } else if ls.len() == 1 {
        ls[0]
    } else {
        ls[0] + seq![sep] + join(ls.drop_first(), sep)
    }
}

/// No piece holds the character.
pub open spec fn none_hold(ls: Seq<Seq<char>>, c: char) -> bool {
    forall|i: int, j: int| 0 <= i < ls.len() && 0 <= j < ls[i].len() ==> #[trigger] ls[i][j] != c
}

/// Splitting what was joined gives the pieces back, when none holds the
/// separator.
pub proof fn lemma_split_join(ls: Seq<Seq<char>>, sep: char)
    requires
        ls.len() > 0,
        none_hold(ls, sep),
    ensures
        split(join(ls, sep), sep) == ls,
    decreases ls.len(),
{
    assert forall|j: int| 0 <= j < ls[0].len() implies ls[0][j] != sep by {
        assert(ls[0][j] != sep);
    }
    if ls.len() == 1 {
        lemma_split_none(ls[0], sep);
        assert(seq![ls[0]] =~= ls);
    } else {
        let rest = ls.drop_first();
        assert forall|i: int, j: int| 0 <= i < rest.len() && 0 <= j < rest[i].len() implies #[trigger] rest[i][j] != sep by {
            assert(rest[i] == ls[i + 1]);
            assert(ls[i + 1][j] != sep);
        }
        lemma_split_join(rest, sep);
        lemma_split_at(ls[0], join(rest, sep), sep);
        assert(seq![ls[0]] + rest =~= ls);
    }
}

/// Pieces that are already trimmed and non-empty survive
/// `nonempty_trimmed` unchanged.
pub proof fn lemma_nonempty_trimmed_id(ls: Seq<Seq<char>>)
    requires
        forall|i: int| 0 <= i < ls.len() ==> #[trigger] trim(ls[i]) == ls[i] && ls[i].len() > 0,
    ensures
        nonempty_trimmed(ls) == ls,
    decreases ls.len(),
{
    if ls.len() > 0 {
        assert(trim(ls[ls.len() - 1]) == ls[ls.len() - 1]);
        lemma_nonempty_trimmed_id(ls.drop_last());
        assert(ls.drop_last().push(ls.last()) =~= ls);
    }
}

/// The trimmed, non-empty fields from `start` on.
pub fn nonempty_trimmed_from(fields: &Vec<Vec<char>>, start: usize) -> (r: Vec<String>)
    requires
        start <= fields@.len(),
    ensures
        string_views(r@) == nonempty_trimmed(views(fields@).skip(start as int)),
{
    let mut out: Vec<String> = Vec::new();
    let mut i: usize = start;
    let ghost tail = views(fields@).skip(start as int);
    assert(tail.take(0) =~= Seq::<Seq<char>>::empty());
    while i < fields.len()
        invariant
            start <= i <= fields.len(),
            tail == views(fields@).skip(start as int),
            string_views(out@) == nonempty_trimmed(tail.take(i - start)),
        decreases fields.len() - i,
    {
        assert(tail.take(i - start + 1).drop_last() =~= tail.take(i - start));
        assert(tail.take(i - start + 1).last() == fields@[i as int]@);
        let t = trimmed(fields[i].as_slice());
        if t.len() > 0 {
            let ghost before = out@;
            out.push(string_of(t.as_slice()));
            assert(string_views(out@) =~= string_views(before).push(t@));
        }
        i = i + 1;
    }
    assert(tail.take(fields.len() - start) =~= tail);
    out
}

/// The pieces joined with a separator.
pub fn join_strs(parts: &[&str], sep: char) -> (r: String)
    ensures
        r@ == join(parts@.map_values(|p: &str| p@), sep),
{
    let ghost ps = parts@.map_values(|p: &str| p@);
    let mut v: Vec<char> = Vec::new();
    if parts.len() == 0 {
        return string_of(v.as_slice());
    }
    let mut i: usize = parts.len();
    // Built from the back: `v` holds the join of the pieces from `i` on.
    let last = chars_of(parts[i - 1]);
    append_chars(&mut v, last.as_slice());
    i = i - 1;
    assert(ps.skip(i as int) =~= seq![ps[i as int]]);
    while i > 0
        invariant
            0 <= i < parts.len(),
            ps == parts@.map_values(|p: &str| p@),
            v@ == join(ps.skip(i as int), sep),
        decreases i,
    {
        let piece = chars_of(parts[i - 1]);
        let mut w = piece;
        w.push(sep);
        append_chars(&mut w, v.as_slice());
        assert(ps.skip(i - 1).drop_first() =~= ps.skip(i as int));
        assert(ps.skip(i - 1)[0] == ps[i - 1]);
        v = w;
        i = i - 1;
    }
    assert(ps.skip(0) =~= ps);
    string_of(v.as_slice())
}

/// Trimming never lengthens.
pub proof fn lemma_trim_start_len(s: Seq<char>)
    ensures
        trim_start(s).len() <= s.len(),
    decreases s.len(),
{
    if s.len() > 0 && is_ws(s[0]) {
        lemma_trim_start_len(s.drop_first());
    }
}

/// Trimming never lengthens.
pub proof fn lemma_trim_end_len(s: Seq<char>)
    ensures
        trim_end(s).len() <= s.len(),
    decreases s.len(),
{
    if s.len() > 0 && is_ws(s.last()) {
        lemma_trim_end_len(s.drop_last());
    }
}

/// Text that trimming leaves alone neither starts nor ends with whitespace.
pub proof fn lemma_trimmed_ends(s: Seq<char>)
    requires
        trim(s) == s,
        s.len() > 0,
    ensures
        !is_ws(s[0]),
        !is_ws(s.last()),
{
    if is_ws(s[0]) {
        lemma_trim_start_len(s.drop_first());
        lemma_trim_end_len(trim_start(s));
        assert(false);
    }
    assert(trim_start(s) == s);
    if is_ws(s.last()) {
        lemma_trim_end_len(s.drop_last());
        assert(false);
    }
}

/// What `str::parse::<i64>` gives: an optional sign, then at least one
/// digit and nothing else, and a value that fits.
pub open spec fn parse_signed(s: Seq<char>) -> Option<int> {
    if s.len() > 0 && s[0] == '-' {
        let d = s.drop_first();
        if d.len() > 0 && all_digits(d) && decimal_value(d) <= 0x8000_0000_0000_0000 {
            Some(-(decimal_value(d) as int))
        } else {
            None
        }
    } else {
        match parse_unsigned(s, 0x7fff_ffff_ffff_ffff) {
            Some(n) => Some(n as int),
            None => None,
        }
    }
}

/// Parses a signed decimal number that fits an `i64`.
pub fn parse_i64(s: &[char]) -> (r: Option<i64>)
    ensures
        match parse_signed(s@) {
            Some(n) => r == Some(n as i64),
            None => r is None,
        },
{
    if s.len() > 0 && s[0] == '-' {
        let d = slice_chars(s, 1, s.len());
        assert(d@ =~= s@.drop_first());
        if d.len() == 0 || d[0] == '+' {
            assert(d@.len() > 0 ==> !is_digit(d@[0]));
            return None;
        }
        match parse_u64(d.as_slice()) {
            Some(v) => {
                if v > 0x8000_0000_0000_0000 {
                    return None;
                }
                if v == 0x8000_0000_0000_0000 {
                    Some(i64::MIN)
                } else {
                    Some(-(v as i64))
                }
            },
            None => None,
        }
    } else {
        match parse_u64(s) {
            Some(v) => {
                if v > 0x7fff_ffff_ffff_ffff {
                    None
                } else {
                    Some(v as i64)
                }
            },
            None => None,
        }
    }
}

/// The base-ten spelling of an integer, a minus sign before a negative one.
pub open spec fn signed_decimal(n: int) -> Seq<char> {
    if n < 0 {
        seq!['-'] + decimal((-n) as nat)
    } else {
        decimal(n as nat)
    }
}

/// `n` written in base ten, signed.
pub fn signed_decimal_chars(n: i64) -> (v: Vec<char>)
    ensures
        v@ == signed_decimal(n as int),
{
    if n < 0 {
        let m: u64 = (0i128 - (n as i128)) as u64;
        let mut v: Vec<char> = Vec::new();
        v.push('-');
        let d = decimal_chars(m);
        append_chars(&mut v, d.as_slice());
        assert(v@ =~= signed_decimal(n as int));
        v
    } else {
        decimal_chars(n as u64)
    }
}

/// Writing an `i64` in base ten and reading it back gives the number.
pub proof fn lemma_signed_round_trip(n: i64)
    ensures
        parse_signed(signed_decimal(n as int)) == Some(n as int),
        signed_decimal(n as int).len() > 0,
        is_digit(signed_decimal(n as int).last()),
        forall|j: int| 0 <= j < signed_decimal(n as int).len() ==> #[trigger] signed_decimal(n as int)[j] != ' ',
{
    if n < 0 {
        let m = (-n) as nat;
        lemma_decimal_round_trip(m);
        lemma_decimal_last_digit(m);
        let s = seq!['-'] + decimal(m);
        assert(s.drop_first() =~= decimal(m));
        assert(s.last() == decimal(m).last());
        assert forall|j: int| 0 <= j < s.len() implies #[trigger] s[j] != ' ' by {
            if j > 0 {
                assert(s[j] == decimal(m)[j - 1]);
                assert(is_digit(decimal(m)[j - 1]));
            }
        }
    } else {
        lemma_decimal_round_trip(n as nat);
        lemma_decimal_last_digit(n as nat);
        assert(is_digit(decimal(n as nat)[0]));
        assert forall|j: int| 0 <= j < decimal(n as nat).len() implies #[trigger] decimal(n as nat)[j] != ' ' by {
            assert(is_digit(decimal(n as nat)[j]));
        }
    }
}

/// A two-digit number's spelling is its two digits.
pub proof fn lemma_two_digits(n: nat)
    requires
        10 <= n < 100,
    ensures
        decimal(n) == seq![digit_char(n / 10), digit_char(n % 10)],
{
    assert(decimal(n / 10) == seq![digit_char(n / 10)]);
    assert(decimal(n) =~= seq![digit_char(n / 10), digit_char(n % 10)]);
}

/// What `{:?}` writes for a string, `str`'s `Debug`: the text quoted, with
/// its special characters escaped. A function of the text alone.
pub uninterp spec fn debug_quoted(s: Seq<char>) -> Seq<char>;

/// `format!("{s:?}")`: the string as `Debug` shows it.
#[verifier::external_body]
pub(crate) fn debug_string(s: &str) -> (r: String)
    ensures
        r@ == debug_quoted(s@),
{
    format!("{s:?}")
}

/// Where the trimmed text of `s[from..to]` lies.
pub fn trim_bounds(s: &[char], from: usize, to: usize) -> (r: (usize, usize))
    requires
        from <= to <= s.len(),
    ensures
        from <= r.0 <= r.1 <= to,
        s@.subrange(r.0 as int, r.1 as int) == trim(s@.subrange(from as int, to as int)),
{
    let part = slice_chars(s, from, to);
    let a = trim_start_at(part.as_slice());
    let rest = slice_chars(part.as_slice(), a, part.len());
    let b = trim_end_at(rest.as_slice());
    assert(s@.subrange((from + a) as int, (from + a + b) as int) =~= rest@.take(b as int));
    (from + a, from + a + b)
}

/// After `trim_start`, text that is left starts with no whitespace.
pub proof fn lemma_trim_start_first(s: Seq<char>)
    ensures
        trim_start(s).len() > 0 ==> !is_ws(trim_start(s)[0]),
    decreases s.len(),
{
    if s.len() > 0 && is_ws(s[0]) {
        lemma_trim_start_first(s.drop_first());
    }
}

} // verus!
