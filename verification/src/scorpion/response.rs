//! Scorpion response headers: a two-digit status and its parameters.
use vstd::prelude::*;
use vstd::utf8::{decode_utf8, encode_utf8, valid_utf8};

use crate::bytes::{append_bytes, lemma_encode_append};
use crate::scorpion::status::{
    leading_shape, lemma_split_leading_join, lemma_split_leading_shape, spec_split_parameters,
    split_leading, split_parameters, Major, Status,
};
use crate::text::{
    chars_eq, chars_of, digit_char, join, parse_u32, parse_u64, parse_unsigned, slice_chars,
    string_of, string_views, strip_line_ending, strip_line_ending_at,
};

verus! {

broadcast use vstd::string::group_string_axioms;

/// A file's declared size.
#[derive(Clone, Copy, Debug, PartialEq, Eq)]
pub enum Size {
    /// A number of bytes.
    Known(u64),
    /// `?`: the server cannot say, as for a generated file.
    Unknown,
}

/// What a size parameter says: `?` or a number.
pub open spec fn spec_parse_size(text: Seq<char>) -> Option<Size> {
    if text == seq!['?'] {
        Some(Size::Unknown)
    } else {
        match parse_unsigned(text, u64::MAX as nat) {
            Some(n) => Some(Size::Known(n as u64)),
            None => None,
        }
    }
}

/// The one-character text `?`.
fn question_mark() -> (v: Vec<char>)
    ensures
        v@ == seq!['?'],
{
    let mut v: Vec<char> = Vec::new();
    v.push('?');
    assert(v@ =~= seq!['?']);
    v
}

impl Size {
    /// The number of bytes, when known.
    pub fn known(self) -> (r: Option<u64>)
        ensures
            r == match self {
                Size::Known(n) => Some(n),
                Size::Unknown => None::<u64>,
            },
    {
        match self {
            Self::Known(size) => Some(size),
            Self::Unknown => None,
        }
    }

    fn parse(text: &[char]) -> (r: Option<Self>)
        ensures
            r == spec_parse_size(text@),
    {
        let q = question_mark();
        if chars_eq(text, q.as_slice()) {
            return Some(Self::Unknown);
        }
        match parse_u64(text) {
            Some(n) => Some(Self::Known(n)),
            None => None,
        }
    }
}

/// How long to wait before retrying.
#[derive(Clone, Copy, Debug, PartialEq, Eq)]
pub enum RetryAfter {
    /// A number of seconds below 2^31.
    Seconds(u32),
    /// `?`, or a value the protocol does not allow.
    Unknown,
}

/// What a retry-after parameter says: `?`, or an unsigned 31-bit number.
pub open spec fn spec_parse_retry(text: Seq<char>) -> Option<RetryAfter> {
    if text == seq!['?'] {
        Some(RetryAfter::Unknown)
    } else {
        match parse_unsigned(text, u32::MAX as nat) {
            Some(n) => if n < 0x8000_0000 {
                Some(RetryAfter::Seconds(n as u32))
            } else {
                None
            },
            None => None,
        }
    }
}

impl RetryAfter {
    /// The number of seconds, when given.
    pub fn seconds(self) -> (r: Option<u32>)
        ensures
            r == match self {
                RetryAfter::Seconds(n) => Some(n),
                RetryAfter::Unknown => None::<u32>,
            },
    {
        match self {
            Self::Seconds(seconds) => Some(seconds),
            Self::Unknown => None,
        }
    }

    fn parse(text: &[char]) -> (r: Option<Self>)
        ensures
            r == spec_parse_retry(text@),
    {
        let q = question_mark();
        if chars_eq(text, q.as_slice()) {
            return Some(Self::Unknown);
        }
        match parse_u32(text) {
            Some(n) => if n < 0x8000_0000 {
                Some(Self::Seconds(n))
            } else {
                None
            },
            None => None,
        }
    }
}

/// Which URLs a requested certificate is meant for.
#[derive(Clone, Debug, PartialEq, Eq)]
pub struct CertificateScope {
    pub match_kind: ScopeMatch,
    /// Empty means the URL that was requested.
    pub url: String,
}

/// How a certificate scope's URL is matched.
#[derive(Clone, Copy, Debug, PartialEq, Eq)]
pub enum ScopeMatch {
    /// `=`: that URL exactly.
    Exact,
    /// `+`: that URL with any query.
    AnyQuery,
    /// `*`: any URL it is a prefix of.
    Prefix,
    /// `-`: not said.
    Unspecified,
}

/// The match kind that a scope's first character names.
pub open spec fn spec_scope_match(c: char) -> Option<ScopeMatch> {
    if c == '=' {
        Some(ScopeMatch::Exact)
    } else if c == '+' {
        Some(ScopeMatch::AnyQuery)
    } else if c == '*' {
        Some(ScopeMatch::Prefix)
    } else if c == '-' {
        Some(ScopeMatch::Unspecified)
    } else {
        None
    }
}

impl ScopeMatch {
    fn from_char(c: char) -> (r: Option<Self>)
        ensures
            r == spec_scope_match(c),
    {
        if c == '=' {
            Some(Self::Exact)
        } else if c == '+' {
            Some(Self::AnyQuery)
        } else if c == '*' {
            Some(Self::Prefix)
        } else if c == '-' {
            Some(Self::Unspecified)
        } else {
            None
        }
    }
}

/// A scope parameter: a match character, then the URL.
pub open spec fn scope_means(text: Seq<char>, r: Option<CertificateScope>) -> bool {
    if text.len() > 0 && spec_scope_match(text[0]) is Some {
        r matches Some(scope) && Some(scope.match_kind) == spec_scope_match(text[0]) && scope.url@
            == text.drop_first()
    } else {
        r is None
    }
}

impl CertificateScope {
    fn parse(text: &[char]) -> (r: Option<Self>)
        ensures
            scope_means(text@, r),
    {
        if text.len() == 0 {
            return None;
        }
        let match_kind = match ScopeMatch::from_char(text[0]) {
            Some(k) => k,
            None => return None,
        };
        let url = slice_chars(text, 1, text.len());
        assert(url@ =~= text@.drop_first());
        Some(Self { match_kind, url: string_of(url.as_slice()) })
    }
}

/// Why a status line was refused.
#[derive(Clone, Copy, Debug, PartialEq, Eq)]
pub enum ResponseError {
    /// Not two digits, then optionally a space and parameters.
    Malformed,
    /// Class 9.
    UnknownStatusClass,
    /// A success without its size and type.
    MissingParameters,
    /// A size that is neither a number nor `?`.
    MalformedSize,
    /// The line is over the cap.
    TooLong,
}

impl ResponseError {
    /// The sentence a refusal is reported with.
    pub open spec fn spec_message(self) -> Seq<char> {
        match self {
            ResponseError::Malformed => "status line is malformed"@,
            ResponseError::UnknownStatusClass => "status class 9 is not defined"@,
            ResponseError::MissingParameters => "a success response must declare a size and a type"@,
            ResponseError::MalformedSize => "declared size is neither a number nor '?'"@,
            ResponseError::TooLong => "status line exceeds the permitted length"@,
        }
    }

    /// A sentence saying what went wrong.
    pub fn to_string(&self) -> (r: String)
        ensures
            r@ == self.spec_message(),
    {
        match self {
            Self::Malformed => "status line is malformed".to_string(),
            Self::UnknownStatusClass => "status class 9 is not defined".to_string(),
            Self::MissingParameters => "a success response must declare a size and a type".to_string(),
            Self::MalformedSize => "declared size is neither a number nor '?'".to_string(),
            Self::TooLong => "status line exceeds the permitted length".to_string(),
        }
    }
}

/// A parsed status line.
#[derive(Clone, Debug, PartialEq, Eq)]
pub struct Header {
    pub status: Status,
    pub parameters: Vec<String>,
}

/// A digit's value as a byte.
pub open spec fn digit_byte(c: char) -> u8 {
    (c as u32 - 48) as u8
}

/// A status line refused for a reason, or read into its code and the text
/// after the code (the separating space removed).
pub open spec fn spec_parse_header(line: Seq<char>) -> Result<(u8, Seq<char>), ResponseError> {
    let line = strip_line_ending(line);
    if line.len() < 2 || !crate::text::is_digit(line[0]) || !crate::text::is_digit(line[1]) {
        Err(ResponseError::Malformed)
    } else if digit_byte(line[0]) > 8 {
        Err(ResponseError::UnknownStatusClass)
    } else if line.len() > 2 && line[2] != ' ' {
        Err(ResponseError::Malformed)
    } else {
        Ok(
            (
                (digit_byte(line[0]) * 10 + digit_byte(line[1])) as u8,
                if line.len() > 2 {
                    line.skip(3)
                } else {
                    seq![]
                },
            ),
        )
    }
}

/// The bytes of a header line: the two digits, each parameter after a
/// space, then CRLF.
pub open spec fn spec_header_wire(code: u8, parameters: Seq<Seq<char>>) -> Seq<u8>
    decreases parameters.len(),
{
    if parameters.len() == 0 {
        seq![(48 + code / 10) as u8, (48 + code % 10) as u8, 13u8, 10u8]
    } else {
        let before = spec_header_wire(code, parameters.drop_last());
        before.take(before.len() - 2) + seq![32u8] + encode_utf8(parameters.last()) + seq![
            13u8,
            10u8,
        ]
    }
}

impl Header {
    /// Reads a status line; a trailing CRLF or LF is optional, and so is the
    /// space and parameters after the code.
    pub fn parse(line: &str) -> (r: Result<Self, ResponseError>)
        ensures
            match spec_parse_header(line@) {
                Ok((code, rest)) => r matches Ok(h) && h.status.spec_code() == code
                    && string_views(h.parameters@) == spec_split_parameters(h.status, rest),
                Err(e) => r == Err::<Self, ResponseError>(e),
            },
    {
        let all = chars_of(line);
        let end = strip_line_ending_at(all.as_slice());
        let text = slice_chars(all.as_slice(), 0, end);
        if text.len() < 2 || !('0' <= text[0] && text[0] <= '9') || !('0' <= text[1] && text[1]
            <= '9') {
            return Err(ResponseError::Malformed);
        }
        let major = (text[0] as u32 - 48) as u8;
        let minor = (text[1] as u32 - 48) as u8;
        let status = match Status::new(major, minor) {
            Some(s) => s,
            None => return Err(ResponseError::UnknownStatusClass),
        };
        if text.len() > 2 && text[2] != ' ' {
            return Err(ResponseError::Malformed);
        }
        let rest = if text.len() > 2 {
            slice_chars(text.as_slice(), 3, text.len())
        } else {
            Vec::new()
        };
        assert(rest@ =~= (if text@.len() > 2 {
            text@.skip(3)
        } else {
            seq![]
        }));
        let rest_string = string_of(rest.as_slice());
        Ok(Self { status, parameters: split_parameters(status, rest_string.as_str()) })
    }

    /// The line as a server writes it.
    pub fn to_wire(&self) -> (r: Vec<u8>)
        ensures
            r@ == spec_header_wire(self.status.spec_code(), string_views(self.parameters@)),
    {
        let mut line: Vec<u8> = Vec::new();
        let ascii = self.status.to_ascii();
        line.push(ascii[0]);
        line.push(ascii[1]);
        let mut i: usize = 0;
        let code = self.status.code();
        while i < self.parameters.len()
            invariant
                i <= self.parameters.len(),
                code == self.status.spec_code(),
                line@ + seq![13u8, 10u8] == spec_header_wire(
                    code,
                    string_views(self.parameters@).take(i as int),
                ),
            decreases self.parameters.len() - i,
        {
            let ghost before = line@;
            line.push(32);
            append_bytes(&mut line, self.parameters[i].as_str().as_bytes());
            proof {
                let ps = string_views(self.parameters@).take(i + 1);
                assert(ps.drop_last() =~= string_views(self.parameters@).take(i as int));
                let w = spec_header_wire(code, ps.drop_last());
                assert(w.take(w.len() - 2) =~= before);
                assert(line@ + seq![13u8, 10u8] =~= spec_header_wire(code, ps));
            }
            i = i + 1;
        }
        line.push(13);
        line.push(10);
        proof {
            assert(string_views(self.parameters@).take(self.parameters.len() as int)
                =~= string_views(self.parameters@));
        }
        line
    }

    /// A success's size, type and version, or `None` for any other class.
    /// `8x` may omit every parameter, which reads as an unknown size.
    pub fn success(&self) -> (r: Option<Result<Success<'_>, ResponseError>>)
        ensures
            !(self.status.spec_major() == Major::Success || self.status.spec_major()
                == Major::Accepted) ==> r is None,
            (self.status.spec_major() == Major::Accepted && self.parameters.len() == 0) ==> (r
                matches Some(Ok(s)) && s.size == Size::Unknown && s.media_type@ == Seq::<
                char,
            >::empty() && s.version is None),
            (self.status.spec_major() == Major::Success || (self.status.spec_major()
                == Major::Accepted && self.parameters.len() > 0)) ==> {
                if self.parameters.len() < 2 {
                    r == Some(Err::<Success<'_>, ResponseError>(ResponseError::MissingParameters))
                } else {
                    match spec_parse_size(self.parameters@[0]@) {
                        None => r == Some(Err::<Success<'_>, ResponseError>(
                            ResponseError::MalformedSize,
                        )),
                        Some(size) => r matches Some(Ok(s)) && s.size == size && s.media_type@
                            == self.parameters@[1]@ && (if self.parameters.len() > 2 {
                            s.version matches Some(v) && v@ == self.parameters@[2]@
                        } else {
                            s.version is None
                        }),
                    }
                }
            },
    {
        let major = self.status.major();
        if !(major == Major::Success || major == Major::Accepted) {
            return None;
        }
        if self.parameters.len() == 0 && major == Major::Accepted {
            proof {
                reveal_strlit("");
            }
            return Some(Ok(Success { size: Size::Unknown, media_type: "", version: None }));
        }
        if self.parameters.len() < 2 {
            return Some(Err(ResponseError::MissingParameters));
        }
        let first = chars_of(self.parameters[0].as_str());
        let size = match Size::parse(first.as_slice()) {
            Some(s) => s,
            None => return Some(Err(ResponseError::MalformedSize)),
        };
        let version = if self.parameters.len() > 2 {
            Some(self.parameters[2].as_str())
        } else {
            None
        };
        Some(Ok(Success { size, media_type: self.parameters[1].as_str(), version }))
    }

    /// A redirect's target.
    pub fn redirect(&self) -> (r: Option<&str>)
        ensures
            if self.status.spec_major() == Major::Redirect && self.parameters.len() > 0 {
                r matches Some(t) && t@ == self.parameters@[0]@
            } else {
                r is None
            },
    {
        if self.status.major() == Major::Redirect && self.parameters.len() > 0 {
            Some(self.parameters[0].as_str())
        } else {
            None
        }
    }

    /// An input request's prompt.
    pub fn prompt(&self) -> (r: Option<&str>)
        ensures
            if self.status.spec_major() == Major::Input && self.parameters.len() > 0 {
                r matches Some(t) && t@ == self.parameters@[0]@
            } else {
                r is None
            },
    {
        if self.status.major() == Major::Input && self.parameters.len() > 0 {
            Some(self.parameters[0].as_str())
        } else {
            None
        }
    }

    /// A temporary error's retry estimate and message. An estimate that is
    /// missing or out of range reads as unknown.
    pub fn temporary_error(&self) -> (r: Option<(RetryAfter, Option<&str>)>)
        ensures
            self.status.spec_major() != Major::TemporaryError ==> r is None,
            self.status.spec_major() == Major::TemporaryError ==> (r matches Some((retry, message))
                && retry == (if self.parameters.len() > 0 {
                match spec_parse_retry(self.parameters@[0]@) {
                    Some(x) => x,
                    None => RetryAfter::Unknown,
                }
            } else {
                RetryAfter::Unknown
            }) && (if self.parameters.len() > 1 {
                message matches Some(m) && m@ == self.parameters@[1]@
            } else {
                message is None
            })),
    {
        if self.status.major() != Major::TemporaryError {
            return None;
        }
        let retry = if self.parameters.len() > 0 {
            let text = chars_of(self.parameters[0].as_str());
            match RetryAfter::parse(text.as_slice()) {
                Some(x) => x,
                None => RetryAfter::Unknown,
            }
        } else {
            RetryAfter::Unknown
        };
        let message = if self.parameters.len() > 1 {
            Some(self.parameters[1].as_str())
        } else {
            None
        };
        Some((retry, message))
    }

    /// A certificate request's scope and explanation.
    pub fn certificate_request(&self) -> (r: Option<(Option<CertificateScope>, Option<&str>)>)
        ensures
            self.status.spec_major() != Major::CertificateRequired ==> r is None,
            self.status.spec_major() == Major::CertificateRequired ==> (r matches Some((
                scope,
                explanation,
            )) && (if self.parameters.len() > 0 {
                scope_means(self.parameters@[0]@, scope)
            } else {
                scope is None
            }) && (if self.parameters.len() > 1 {
                explanation matches Some(m) && m@ == self.parameters@[1]@
            } else {
                explanation is None
            })),
    {
        if self.status.major() != Major::CertificateRequired {
            return None;
        }
        let scope = if self.parameters.len() > 0 {
            let text = chars_of(self.parameters[0].as_str());
            CertificateScope::parse(text.as_slice())
        } else {
            None
        };
        let explanation = if self.parameters.len() > 1 {
            Some(self.parameters[1].as_str())
        } else {
            None
        };
        Some((scope, explanation))
    }

    /// An error's human-readable message: a permanent error's only
    /// parameter, or a temporary error's second.
    pub fn message(&self) -> (r: Option<&str>)
        ensures
            if self.status.spec_major() == Major::PermanentError && self.parameters.len() > 0 {
                r matches Some(t) && t@ == self.parameters@[0]@
            } else if self.status.spec_major() == Major::TemporaryError && self.parameters.len()
                > 1 {
                r matches Some(t) && t@ == self.parameters@[1]@
            } else {
                r is None
            },
    {
        let major = self.status.major();
        if major == Major::PermanentError && self.parameters.len() > 0 {
            Some(self.parameters[0].as_str())
        } else if major == Major::TemporaryError && self.parameters.len() > 1 {
            Some(self.parameters[1].as_str())
        } else {
            None
        }
    }
}

/// A success's parameters, borrowed from its header.
#[derive(Clone, Copy, Debug, PartialEq, Eq)]
pub struct Success<'a> {
    pub size: Size,
    pub media_type: &'a str,
    pub version: Option<&'a str>,
}


// ── What the parser accepts, it accepts again ──────────────────────────────

/// The parameters as a header line carries them: each after a space.
pub open spec fn parameter_text(parameters: Seq<Seq<char>>) -> Seq<char>
    decreases parameters.len(),
{
    if parameters.len() == 0 {
        seq![]
    } else {
        parameter_text(parameters.drop_last()) + seq![' '] + parameters.last()
    }
}

/// A code's two digits as characters.
pub open spec fn code_chars(code: u8) -> Seq<char> {
    seq![digit_char((code / 10) as nat), digit_char((code % 10) as nat)]
}

/// An ASCII character encodes as its own byte.
proof fn lemma_encode_ascii(c: char)
    requires
        (c as u32) < 0x80,
    ensures
        encode_utf8(seq![c]) == seq![c as u8],
{
    reveal_with_fuel(encode_utf8, 2);
    let n = c as u32;
    assert((n & 0x7Fu32) as u8 == n as u8) by (bit_vector)
        requires
            n < 0x80,
    ;
    assert(seq![c].drop_first() =~= Seq::<char>::empty());
}

/// The bytes of a header line are the UTF-8 of its characters.
proof fn lemma_header_wire_chars(code: u8, parameters: Seq<Seq<char>>)
    requires
        code < 100,
    ensures
        spec_header_wire(code, parameters) == encode_utf8(
            code_chars(code) + parameter_text(parameters) + seq!['\r', '\n'],
        ),
    decreases parameters.len(),
{
    let cc = code_chars(code);
    let a = digit_char((code / 10) as nat);
    let b = digit_char((code % 10) as nat);
    assert(a as u32 == 48 + code / 10 && b as u32 == 48 + code % 10);
    lemma_encode_ascii(a);
    lemma_encode_ascii(b);
    lemma_encode_ascii('\r');
    lemma_encode_ascii('\n');
    lemma_encode_append(seq![a], seq![b]);
    assert(seq![a] + seq![b] =~= cc);
    lemma_encode_append(seq!['\r'], seq!['\n']);
    assert(seq!['\r'] + seq!['\n'] =~= seq!['\r', '\n']);
    let crlf = encode_utf8(seq!['\r', '\n']);
    assert(crlf =~= seq![13u8, 10u8]);
    if parameters.len() == 0 {
        lemma_encode_append(cc, seq!['\r', '\n']);
        assert(cc + parameter_text(parameters) + seq!['\r', '\n'] =~= cc + seq!['\r', '\n']);
        assert(encode_utf8(cc) =~= seq![(48 + code / 10) as u8, (48 + code % 10) as u8]);
    } else {
        let before = parameters.drop_last();
        let last = parameters.last();
        lemma_header_wire_chars(code, before);
        let head = cc + parameter_text(before);
        lemma_encode_append(head, seq!['\r', '\n']);
        assert(cc + parameter_text(before) + seq!['\r', '\n'] =~= head + seq!['\r', '\n']);
        let w = spec_header_wire(code, before);
        assert(w =~= encode_utf8(head) + seq![13u8, 10u8]);
        assert(w.take(w.len() - 2) =~= encode_utf8(head));
        lemma_encode_ascii(' ');
        lemma_encode_append(head, seq![' ']);
        lemma_encode_append(head + seq![' '], last);
        lemma_encode_append(head + seq![' '] + last, seq!['\r', '\n']);
        assert(cc + parameter_text(parameters) + seq!['\r', '\n'] =~= head + seq![' '] + last
            + seq!['\r', '\n']);
    }
}

/// Joining with spaces after one more piece adds a space and that piece.
proof fn lemma_join_push(pieces: Seq<Seq<char>>, last: Seq<char>)
    requires
        pieces.len() > 0,
    ensures
        join(pieces.push(last), ' ') == join(pieces, ' ') + seq![' '] + last,
    decreases pieces.len(),
{
    let all = pieces.push(last);
    assert(all[0] == pieces[0]);
    if pieces.len() == 1 {
        assert(all.drop_first() =~= seq![last]);
        assert(join(seq![last], ' ') == last);
        assert(join(all, ' ') == pieces[0] + seq![' '] + last);
    } else {
        lemma_join_push(pieces.drop_first(), last);
        assert(all.drop_first() =~= pieces.drop_first().push(last));
        assert(join(all, ' ') =~= join(pieces, ' ') + seq![' '] + last);
    }
}

/// The parameters' text is a space, then the parameters joined by spaces.
proof fn lemma_parameter_text_join(parameters: Seq<Seq<char>>)
    requires
        parameters.len() > 0,
    ensures
        parameter_text(parameters) == seq![' '] + join(parameters, ' '),
    decreases parameters.len(),
{
    if parameters.len() == 1 {
        assert(parameters.drop_last() =~= Seq::<Seq<char>>::empty());
        assert(parameter_text(parameters.drop_last()) =~= Seq::<char>::empty());
        assert(parameters.last() == parameters[0]);
        assert(parameter_text(parameters) =~= seq![' '] + parameters[0]);
    } else {
        let before = parameters.drop_last();
        lemma_parameter_text_join(before);
        lemma_join_push(before, parameters.last());
        assert(before.push(parameters.last()) =~= parameters);
        assert(parameter_text(parameters) =~= seq![' '] + join(parameters, ' '));
    }
}

/// What the parser accepts survives being written and read again: a
/// status line read into a status and parameters, written out and read
/// back, gives the same status and parameters.
pub proof fn lemma_header_reparses(line: Seq<char>, status: Status)
    requires
        spec_parse_header(line) matches Ok((code, rest)) && status.spec_code() == code,
    ensures
        ({
            let (code, rest) = spec_parse_header(line).unwrap();
            let parameters = spec_split_parameters(status, rest);
            let wire = spec_header_wire(code, parameters);
            &&& valid_utf8(wire)
            &&& spec_parse_header(decode_utf8(wire)) matches Ok((code2, rest2)) && code2 == code
                && spec_split_parameters(status, rest2) == parameters
        }),
{
    let (code, rest) = spec_parse_header(line).unwrap();
    let l = strip_line_ending(line);
    let parameters = spec_split_parameters(status, rest);
    assert(code < 90);
    assert(code / 10 == digit_byte(l[0]) && code % 10 == digit_byte(l[1]));
    lemma_header_wire_chars(code, parameters);
    let cc = code_chars(code);
    let body = cc + parameter_text(parameters);
    let whole = body + seq!['\r', '\n'];
    vstd::utf8::encode_utf8_valid_utf8(whole);
    vstd::utf8::encode_utf8_decode_utf8(whole);
    assert(strip_line_ending(whole) =~= body);
    assert(body[0] == cc[0] && body[1] == cc[1]);
    assert(digit_byte(body[0]) == code / 10 && digit_byte(body[1]) == code % 10);
    if parameters.len() == 0 {
        assert(body =~= cc);
        assert(spec_split_parameters(status, seq![]) == Seq::<Seq<char>>::empty());
    } else {
        lemma_parameter_text_join(parameters);
        assert(body =~= cc + seq![' '] + join(parameters, ' '));
        assert(body[2] == ' ');
        assert(body.skip(3) =~= join(parameters, ' '));
        let n = status.spec_major().spec_leading_parameters();
        assert(rest.len() > 0);
        lemma_split_leading_shape(n, rest);
        assert(parameters.last().len() > 0);
        lemma_split_leading_join(n, parameters);
        assert(join(parameters, ' ').len() > 0) by {
            crate::scorpion::status::lemma_join_nonempty(parameters);
        }
    }
}

} // verus!
