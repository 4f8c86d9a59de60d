//! Kepler's request and response grammar. The request carries a
//! last-cached timestamp and an acceptable language; a success carries
//! length, last-updated and expires, and `7x` says nothing changed.
use vstd::prelude::*;
use vstd::string::StrSliceExecFns;
use vstd::string::StringSliceAdditionalSpecFns;
use vstd::utf8::encode_utf8;

use crate::text::{
    append_chars, chars_of, concat, decimal, decimal_chars, digit_char, is_digit, is_digit_char,
    is_ws, parse_i64, parse_signed, signed_decimal, signed_decimal_chars, slice_chars, split,
    split_char, splitn, splitn_char, string_of, trim, trim_end_crlf, trim_end_crlf_at,
    trim_start, trimmed, trimmed_start, views,
};

verus! {

broadcast use vstd::string::group_string_axioms;

/// Kepler's status classes, one per leading digit; codes run 10 to 79.
#[derive(Clone, Copy, Debug, PartialEq, Eq, Structural)]
pub enum Status {
    /// `1x`: input expected; the meta is the prompt.
    Input,
    /// `2x`: success; cache metadata, and a body follows.
    Success,
    /// `3x`: redirection; the meta is a URI reference.
    Redirect,
    /// `4x`: temporary failure.
    TemporaryFailure,
    /// `5x`: permanent failure.
    PermanentFailure,
    /// `6x`: authentication required.
    AuthRequired,
    /// `7x`: unchanged since the request's last-cached time.
    Unchanged,
}

/// The class a code's leading digit names.
pub open spec fn spec_status(code: u8) -> Option<Status> {
    let d = code / 10;
    if d == 1 {
        Some(Status::Input)
    } else if d == 2 {
        Some(Status::Success)
    } else if d == 3 {
        Some(Status::Redirect)
    } else if d == 4 {
        Some(Status::TemporaryFailure)
    } else if d == 5 {
        Some(Status::PermanentFailure)
    } else if d == 6 {
        Some(Status::AuthRequired)
    } else if d == 7 {
        Some(Status::Unchanged)
    } else {
        None
    }
}

impl Status {
    /// The class of a two-digit code, or `None` outside 10 to 79.
    pub fn from_code(code: u8) -> (r: Option<Self>)
        ensures
            r == spec_status(code),
    {
        match code / 10 {
            1 => Some(Self::Input),
            2 => Some(Self::Success),
            3 => Some(Self::Redirect),
            4 => Some(Self::TemporaryFailure),
            5 => Some(Self::PermanentFailure),
            6 => Some(Self::AuthRequired),
            7 => Some(Self::Unchanged),
            _ => None,
        }
    }
}

/// The cache metadata of a `2x`: seconds from the epoch, `-1` unknown.
#[derive(Clone, Copy, Debug, PartialEq, Eq, Structural)]
pub struct CacheInfo {
    /// Body length in bytes; `-1` when unknown, the body then running to
    /// the end of the stream.
    pub length: i64,
    /// When the document last changed; `-1` if unknown.
    pub last_updated: i64,
    /// When the document goes stale; `-1` if unknown.
    pub expires: i64,
}

impl CacheInfo {
    /// Whether the body length was declared.
    pub fn has_length(&self) -> (r: bool)
        ensures
            r == (self.length >= 0),
    {
        self.length >= 0
    }
}

/// A parsed response header.
#[derive(Clone, Debug, PartialEq, Eq)]
pub enum Header {
    /// `2x`: cache metadata, MIME type, and a body to follow.
    Success { code: u8, cache: CacheInfo, mimetype: String },
    /// `7x`: unchanged; when it expires. No body follows.
    Unchanged { code: u8, expires: i64 },
    /// Every other class: a code and an optional message.
    Meta { code: u8, status: Status, meta: String },
}

/// A header over character sequences.
pub enum HeaderModel {
    Success { code: u8, cache: CacheInfo, mimetype: Seq<char> },
    Unchanged { code: u8, expires: i64 },
    Meta { code: u8, status: Status, meta: Seq<char> },
}

impl View for Header {
    type V = HeaderModel;

    open spec fn view(&self) -> HeaderModel {
        match self {
            Header::Success { code, cache, mimetype } => HeaderModel::Success {
                code: *code,
                cache: *cache,
                mimetype: mimetype@,
            },
            Header::Unchanged { code, expires } => HeaderModel::Unchanged {
                code: *code,
                expires: *expires,
            },
            Header::Meta { code, status, meta } => HeaderModel::Meta {
                code: *code,
                status: *status,
                meta: meta@,
            },
        }
    }
}

impl Header {
    /// The two-digit code.
    pub fn code(&self) -> (r: u8)
        ensures
            r == match self {
                Header::Success { code, .. } => *code,
                Header::Unchanged { code, .. } => *code,
                Header::Meta { code, .. } => *code,
            },
    {
        match self {
            Self::Success { code, .. } | Self::Unchanged { code, .. } | Self::Meta { code, .. } => {
                *code
            },
        }
    }

    /// The status class.
    pub fn status(&self) -> (r: Status)
        ensures
            r == match self {
                Header::Success { .. } => Status::Success,
                Header::Unchanged { .. } => Status::Unchanged,
                Header::Meta { status, .. } => *status,
            },
    {
        match self {
            Self::Success { .. } => Status::Success,
            Self::Unchanged { .. } => Status::Unchanged,
            Self::Meta { status, .. } => *status,
        }
    }
}

/// What a malformed header looked like.
#[derive(Clone, Debug, PartialEq, Eq)]
pub struct MalformedHeader(pub String);

impl MalformedHeader {
    /// A sentence saying what went wrong.
    pub fn to_string(&self) -> (r: String)
        ensures
            r@ == "malformed kepler header: "@ + self.0@,
    {
        concat("malformed kepler header: ", self.0.as_str())
    }
}

/// The request line: URI, the last-cached time, the language, CRLF.
pub open spec fn spec_request_line(uri: Seq<char>, last_cached: i64, language: Seq<char>) -> Seq<char> {
    uri + seq![' '] + signed_decimal(last_cached as int) + seq![' '] + language + seq!['\r', '\n']
}

/// Builds a request line; `last_cached` is `0` when nothing is cached.
pub fn request_line(uri: &str, last_cached: i64, language: &str) -> (r: String)
    ensures
        r@ == spec_request_line(uri@, last_cached, language@),
{
    let mut v = chars_of(uri);
    v.push(' ');
    let d = signed_decimal_chars(last_cached);
    append_chars(&mut v, d.as_slice());
    v.push(' ');
    let l = chars_of(language);
    append_chars(&mut v, l.as_slice());
    v.push('\r');
    v.push('\n');
    assert(v@ =~= spec_request_line(uri@, last_cached, language@));
    string_of(v.as_slice())
}

/// A parsed request.
#[derive(Clone, Debug, PartialEq, Eq)]
pub struct Request {
    pub uri: String,
    pub last_cached: i64,
    pub language: String,
}

/// The protocol's cap on a request, in bytes.
pub const MAX_URI: usize = 1024;

/// What a request line reads as: its line ending dropped, at most
/// `MAX_URI` bytes, then space-separated fields: a non-empty URI, the
/// last-cached time (0 when absent), the language (empty when absent).
pub open spec fn spec_parse_request(line: Seq<char>) -> Result<(Seq<char>, i64, Seq<char>), Seq<char>> {
    let l = trim_end_crlf(line);
    let f = split(l, ' ');
    if encode_utf8(l).len() > MAX_URI {
        Err("request exceeds 1024 bytes"@)
    } else if f[0].len() == 0 {
        Err(l)
    } else if f.len() > 1 && parse_signed(f[1]) is None {
        Err(l)
    } else {
        Ok(
            (
                f[0],
                if f.len() > 1 {
                    parse_signed(f[1]).unwrap() as i64
                } else {
                    0
                },
                if f.len() > 2 {
                    f[2]
                } else {
                    seq![]
                },
            ),
        )
    }
}

/// Reads a request line, which is what a server does.
pub fn parse_request(line: &str) -> (r: Result<Request, MalformedHeader>)
    ensures
        match spec_parse_request(line@) {
            Ok((u, t, l)) => r matches Ok(q) && q.uri@ == u && q.last_cached == t && q.language@
                == l,
            Err(e) => r matches Err(MalformedHeader(m)) && m@ == e,
        },
{
    let all = chars_of(line);
    let end = trim_end_crlf_at(all.as_slice());
    let text = line.substring_char(0, end);
    assert(text@ == trim_end_crlf(line@));
    assert(text.spec_bytes() == encode_utf8(text@));
    if text.as_bytes().len() > MAX_URI {
        proof {
            reveal_strlit("request exceeds 1024 bytes");
        }
        return Err(MalformedHeader("request exceeds 1024 bytes".to_string()));
    }
    let l = slice_chars(all.as_slice(), 0, end);
    assert(l@ == text@);
    let fields = split_char(l.as_slice(), ' ');
    proof {
        crate::text::lemma_split_nonempty(l@, ' ');
    }
    let ghost f = split(l@, ' ');
    assert(fields[0]@ == f[0]);
    if fields[0].len() == 0 {
        return Err(MalformedHeader(string_of(l.as_slice())));
    }
    let last_cached = if fields.len() > 1 {
        assert(fields[1]@ == f[1]);
        match parse_i64(fields[1].as_slice()) {
            Some(t) => t,
            None => return Err(MalformedHeader(string_of(l.as_slice()))),
        }
    } else {
        0
    };
    let language = if fields.len() > 2 {
        assert(fields[2]@ == f[2]);
        string_of(fields[2].as_slice())
    } else {
        String::new()
    };
    Ok(Request { uri: string_of(fields[0].as_slice()), last_cached, language })
}

/// The code its two leading digits spell.
pub open spec fn two_digit_code(l: Seq<char>) -> u8 {
    ((l[0] as int - 48) * 10 + (l[1] as int - 48)) as u8
}

/// What a header line reads as: its line ending dropped, two digits naming
/// a class, the rest after leading whitespace. A `2x` needs three numbers
/// and a non-empty MIME type (which keeps any parameters), a `7x` a number;
/// every other class takes the rest as its message. Anything else is
/// malformed and keeps the line.
pub open spec fn spec_parse_header(line: Seq<char>) -> Result<HeaderModel, Seq<char>> {
    let l = trim_end_crlf(line);
    if l.len() < 2 || !is_digit(l[0]) || !is_digit(l[1]) {
        Err(l)
    } else {
        let code = two_digit_code(l);
        let rest = trim_start(l.skip(2));
        match spec_status(code) {
            None => Err(l),
            Some(Status::Success) => {
                let p = splitn(rest, 4, ' ');
                if p.len() == 4 && parse_signed(p[0]) is Some && parse_signed(p[1]) is Some
                    && parse_signed(p[2]) is Some && trim(p[3]).len() > 0 {
                    Ok(
                        HeaderModel::Success {
                            code,
                            cache: CacheInfo {
                                length: parse_signed(p[0]).unwrap() as i64,
                                last_updated: parse_signed(p[1]).unwrap() as i64,
                                expires: parse_signed(p[2]).unwrap() as i64,
                            },
                            mimetype: trim(p[3]),
                        },
                    )
                } else {
                    Err(l)
                }
            },
            Some(Status::Unchanged) => match parse_signed(split(rest, ' ')[0]) {
                Some(e) => Ok(HeaderModel::Unchanged { code, expires: e as i64 }),
                None => Err(l),
            },
            Some(s) => Ok(HeaderModel::Meta { code, status: s, meta: rest }),
        }
    }
}

/// Reads a response header line.
pub fn parse_header(line: &str) -> (r: Result<Header, MalformedHeader>)
    ensures
        match spec_parse_header(line@) {
            Ok(h) => r matches Ok(x) && x@ == h,
            Err(e) => r matches Err(MalformedHeader(m)) && m@ == e,
        },
{
    let all = chars_of(line);
    let end = trim_end_crlf_at(all.as_slice());
    let l = slice_chars(all.as_slice(), 0, end);
    if l.len() < 2 || !is_digit_char(l[0]) || !is_digit_char(l[1]) {
        return Err(MalformedHeader(string_of(l.as_slice())));
    }
    let code: u8 = ((l[0] as u32 - 48) * 10 + (l[1] as u32 - 48)) as u8;
    assert(code == two_digit_code(l@));
    let status = match Status::from_code(code) {
        Some(s) => s,
        None => return Err(MalformedHeader(string_of(l.as_slice()))),
    };
    let after = slice_chars(l.as_slice(), 2, l.len());
    assert(after@ =~= l@.skip(2));
    let rest = trimmed_start(after.as_slice());
    match status {
        Status::Success => {
            let p = splitn_char(rest.as_slice(), 4, ' ');
            if p.len() != 4 {
                return Err(MalformedHeader(string_of(l.as_slice())));
            }
            let ghost ps = views(p@);
            assert(p[0]@ == ps[0] && p[1]@ == ps[1] && p[2]@ == ps[2] && p[3]@ == ps[3]);
            let length = match parse_i64(p[0].as_slice()) {
                Some(n) => n,
                None => return Err(MalformedHeader(string_of(l.as_slice()))),
            };
            let last_updated = match parse_i64(p[1].as_slice()) {
                Some(n) => n,
                None => return Err(MalformedHeader(string_of(l.as_slice()))),
            };
            let expires = match parse_i64(p[2].as_slice()) {
                Some(n) => n,
                None => return Err(MalformedHeader(string_of(l.as_slice()))),
            };
            let mimetype = trimmed(p[3].as_slice());
            if mimetype.len() == 0 {
                return Err(MalformedHeader(string_of(l.as_slice())));
            }
            Ok(
                Header::Success {
                    code,
                    cache: CacheInfo { length, last_updated, expires },
                    mimetype: string_of(mimetype.as_slice()),
                },
            )
        },
        Status::Unchanged => {
            let f = split_char(rest.as_slice(), ' ');
            proof {
                crate::text::lemma_split_nonempty(rest@, ' ');
            }
            assert(f[0]@ == split(rest@, ' ')[0]);
            match parse_i64(f[0].as_slice()) {
                Some(e) => Ok(Header::Unchanged { code, expires: e }),
                None => Err(MalformedHeader(string_of(l.as_slice()))),
            }
        },
        _ => Ok(Header::Meta { code, status, meta: string_of(rest.as_slice()) }),
    }
}

/// A header on the wire, CRLF included: a `2x` writes its three numbers and
/// MIME type, a `7x` its expiry, any other class its message when it has
/// one.
pub open spec fn spec_format_header(h: HeaderModel) -> Seq<char> {
    match h {
        HeaderModel::Success { code, cache, mimetype } => decimal(code as nat) + seq![' ']
            + signed_decimal(cache.length as int) + seq![' '] + signed_decimal(
            cache.last_updated as int,
        ) + seq![' '] + signed_decimal(cache.expires as int) + seq![' '] + mimetype + seq![
            '\r',
            '\n',
        ],
        HeaderModel::Unchanged { code, expires } => decimal(code as nat) + seq![' ']
            + signed_decimal(expires as int) + seq!['\r', '\n'],
        HeaderModel::Meta { code, meta, .. } => if meta.len() == 0 {
            decimal(code as nat) + seq!['\r', '\n']
        } else {
            decimal(code as nat) + seq![' '] + meta + seq!['\r', '\n']
        },
    }
}

/// Renders a header back to the wire.
pub fn format_header(header: &Header) -> (r: String)
    ensures
        r@ == spec_format_header(header@),
{
    let mut v: Vec<char> = Vec::new();
    match header {
        Header::Success { code, cache, mimetype } => {
            append_chars(&mut v, decimal_chars(*code as u64).as_slice());
            v.push(' ');
            append_chars(&mut v, signed_decimal_chars(cache.length).as_slice());
            v.push(' ');
            append_chars(&mut v, signed_decimal_chars(cache.last_updated).as_slice());
            v.push(' ');
            append_chars(&mut v, signed_decimal_chars(cache.expires).as_slice());
            v.push(' ');
            append_chars(&mut v, chars_of(mimetype.as_str()).as_slice());
        },
        Header::Unchanged { code, expires } => {
            append_chars(&mut v, decimal_chars(*code as u64).as_slice());
            v.push(' ');
            append_chars(&mut v, signed_decimal_chars(*expires).as_slice());
        },
        Header::Meta { code, meta, .. } => {
            append_chars(&mut v, decimal_chars(*code as u64).as_slice());
            let m = chars_of(meta.as_str());
            if m.len() > 0 {
                v.push(' ');
                append_chars(&mut v, m.as_slice());
            }
        },
    }
    v.push('\r');
    v.push('\n');
    assert(v@ =~= spec_format_header(header@));
    string_of(v.as_slice())
}

/// A header that the wire form can carry: its code fits its class, a MIME
/// type is non-empty and trimmed, and a message neither starts with
/// whitespace nor ends in a line break.
pub open spec fn well_formed(h: HeaderModel) -> bool {
    match h {
        HeaderModel::Success { code, mimetype, .. } => 20 <= code <= 29 && mimetype.len() > 0
            && trim(mimetype) == mimetype,
        HeaderModel::Unchanged { code, .. } => 70 <= code <= 79,
        HeaderModel::Meta { code, status, meta } => 10 <= code <= 69 && !(20 <= code <= 29)
            && spec_status(code) == Some(status) && (meta.len() > 0 ==> !is_ws(meta[0])
            && meta.last() != '\r' && meta.last() != '\n'),
    }
}

/// A rendered header reads back as itself.
pub proof fn lemma_header_round_trip(h: HeaderModel)
    requires
        well_formed(h),
    ensures
        spec_parse_header(spec_format_header(h)) == Ok::<HeaderModel, Seq<char>>(h),
{
    match h {
        HeaderModel::Success { code, cache, mimetype } => {
            lemma_success_round_trip(code, cache, mimetype);
        },
        HeaderModel::Unchanged { code, expires } => {
            lemma_unchanged_round_trip(code, expires);
        },
        HeaderModel::Meta { code, status, meta } => {
            lemma_meta_round_trip(code, status, meta);
        },
    }
}

/// The line of a rendered header, its CRLF dropped, starts with the code's
/// two digits.
proof fn lemma_code_digits(code: u8, body: Seq<char>)
    requires
        10 <= code <= 99,
        body.len() >= 2,
        body.take(2) == decimal(code as nat),
    ensures
        is_digit(body[0]) && is_digit(body[1]),
        two_digit_code(body) == code,
{
    crate::text::lemma_two_digits(code as nat);
    assert(body[0] == body.take(2)[0] && body[1] == body.take(2)[1]);
}

proof fn lemma_success_round_trip(code: u8, cache: CacheInfo, mimetype: Seq<char>)
    requires
        well_formed(HeaderModel::Success { code, cache, mimetype }),
    ensures
        spec_parse_header(spec_format_header(HeaderModel::Success { code, cache, mimetype }))
            == Ok::<HeaderModel, Seq<char>>(HeaderModel::Success { code, cache, mimetype }),
{
    let h = HeaderModel::Success { code, cache, mimetype };
    let line = spec_format_header(h);
    let d = decimal(code as nat);
    crate::text::lemma_two_digits(code as nat);
    let a = signed_decimal(cache.length as int);
    let b = signed_decimal(cache.last_updated as int);
    let c = signed_decimal(cache.expires as int);
    crate::text::lemma_signed_round_trip(cache.length);
    crate::text::lemma_signed_round_trip(cache.last_updated);
    crate::text::lemma_signed_round_trip(cache.expires);
    crate::text::lemma_trimmed_ends(mimetype);
    let rest = a + seq![' '] + b + seq![' '] + c + seq![' '] + mimetype;
    let body = d + seq![' '] + rest;
    assert(line =~= body + seq!['\r', '\n']);
    assert(body.last() == mimetype.last());
    crate::text::lemma_trim_end_crlf_of_line(body);
    assert(body.take(2) =~= d);
    lemma_code_digits(code, body);
    assert(body.skip(2) =~= seq![' '] + rest);
    lemma_trim_start_one_space(rest);
    lemma_splitn_three(a, b, c, mimetype);
    let p = splitn(rest, 4, ' ');
    assert(p.len() == 4 && p[0] == a && p[1] == b && p[2] == c && p[3] == mimetype);
    assert(spec_status(code) == Some(Status::Success));
}

proof fn lemma_unchanged_round_trip(code: u8, expires: i64)
    requires
        well_formed(HeaderModel::Unchanged { code, expires }),
    ensures
        spec_parse_header(spec_format_header(HeaderModel::Unchanged { code, expires })) == Ok::<
            HeaderModel,
            Seq<char>,
        >(HeaderModel::Unchanged { code, expires }),
{
    let h = HeaderModel::Unchanged { code, expires };
    let line = spec_format_header(h);
    let d = decimal(code as nat);
    crate::text::lemma_two_digits(code as nat);
    let e = signed_decimal(expires as int);
    crate::text::lemma_signed_round_trip(expires);
    let body = d + seq![' '] + e;
    assert(line =~= body + seq!['\r', '\n']);
    assert(body.last() == e.last());
    crate::text::lemma_trim_end_crlf_of_line(body);
    assert(body.take(2) =~= d);
    lemma_code_digits(code, body);
    assert(body.skip(2) =~= seq![' '] + e);
    lemma_trim_start_one_space(e);
    crate::text::lemma_split_none(e, ' ');
    assert(spec_status(code) == Some(Status::Unchanged));
}

proof fn lemma_meta_round_trip(code: u8, status: Status, meta: Seq<char>)
    requires
        well_formed(HeaderModel::Meta { code, status, meta }),
    ensures
        spec_parse_header(spec_format_header(HeaderModel::Meta { code, status, meta })) == Ok::<
            HeaderModel,
            Seq<char>,
        >(HeaderModel::Meta { code, status, meta }),
{
    let h = HeaderModel::Meta { code, status, meta };
    let line = spec_format_header(h);
    let d = decimal(code as nat);
    crate::text::lemma_two_digits(code as nat);
    if meta.len() == 0 {
        let body = d;
        assert(line =~= body + seq!['\r', '\n']);
        crate::text::lemma_trim_end_crlf_of_line(body);
        assert(body.take(2) =~= d);
        lemma_code_digits(code, body);
        assert(body.skip(2) =~= Seq::<char>::empty());
        assert(trim_start(body.skip(2)) =~= meta);
    } else {
        let body = d + seq![' '] + meta;
        assert(line =~= body + seq!['\r', '\n']);
        assert(body.last() == meta.last());
        crate::text::lemma_trim_end_crlf_of_line(body);
        assert(body.take(2) =~= d);
        lemma_code_digits(code, body);
        assert(body.skip(2) =~= seq![' '] + meta);
        lemma_trim_start_one_space(meta);
    }
}

/// One space before text that starts with no whitespace is all that
/// `trim_start` drops.
proof fn lemma_trim_start_one_space(s: Seq<char>)
    requires
        s.len() > 0 ==> !is_ws(s[0]),
    ensures
        trim_start(seq![' '] + s) == s,
{
    assert(trim_start(s) == s);
    assert(is_ws(' '));
    assert((seq![' '] + s)[0] == ' ');
    assert((seq![' '] + s).drop_first() =~= s);
}

/// Three space-free numbers and a tail split in four at their spaces.
proof fn lemma_splitn_three(a: Seq<char>, b: Seq<char>, c: Seq<char>, m: Seq<char>)
    requires
        forall|j: int| 0 <= j < a.len() ==> #[trigger] a[j] != ' ',
        forall|j: int| 0 <= j < b.len() ==> #[trigger] b[j] != ' ',
        forall|j: int| 0 <= j < c.len() ==> #[trigger] c[j] != ' ',
    ensures
        splitn(a + seq![' '] + b + seq![' '] + c + seq![' '] + m, 4, ' ') == seq![a, b, c, m],
{
    let s3 = c + seq![' '] + m;
    let s2 = b + seq![' '] + s3;
    let s1 = a + seq![' '] + s2;
    assert(a + seq![' '] + b + seq![' '] + c + seq![' '] + m =~= s1);
    lemma_split_once_at(a, s2);
    lemma_split_once_at(b, s3);
    lemma_split_once_at(c, m);
    assert(splitn(m, 1, ' ') == seq![m]);
    assert(splitn(s3, 2, ' ') =~= seq![c, m]);
    assert(splitn(s2, 3, ' ') =~= seq![b, c, m]);
    assert(splitn(s1, 4, ' ') =~= seq![a, b, c, m]);
}

proof fn lemma_split_once_at(a: Seq<char>, b: Seq<char>)
    requires
        forall|j: int| 0 <= j < a.len() ==> #[trigger] a[j] != ' ',
    ensures
        crate::text::split_once(a + seq![' '] + b, ' ') == Some((a, b)),
{
    let s = a + seq![' '] + b;
    crate::text::lemma_find_at(s, ' ', a.len() as int);
    assert(s.take(a.len() as int) =~= a);
    assert(s.skip(a.len() + 1 as int) =~= b);
}

/// What a client writes, a server reads back: a request line parses into
/// its URI, its last-cached time and its language, when the URI is
/// non-empty and neither it nor the language holds a space, the language
/// does not end in a line break, and the line is within the cap.
pub proof fn lemma_request_reads_back(uri: Seq<char>, last_cached: i64, language: Seq<char>)
    requires
        uri.len() > 0,
        forall|j: int| 0 <= j < uri.len() ==> #[trigger] uri[j] != ' ',
        forall|j: int| 0 <= j < language.len() ==> #[trigger] language[j] != ' ',
        language.len() > 0 ==> language.last() != '\r' && language.last() != '\n',
        encode_utf8(
            uri + seq![' '] + signed_decimal(last_cached as int) + seq![' '] + language,
        ).len() <= MAX_URI,
    ensures
        spec_parse_request(spec_request_line(uri, last_cached, language)) == Ok::<
            (Seq<char>, i64, Seq<char>),
            Seq<char>,
        >((uri, last_cached, language)),
{
    let t = signed_decimal(last_cached as int);
    crate::text::lemma_signed_round_trip(last_cached);
    let text = uri + seq![' '] + t + seq![' '] + language;
    let line = spec_request_line(uri, last_cached, language);
    assert(line =~= text + seq!['\r', '\n']);
    assert(text.last() != '\r' && text.last() != '\n') by {
        if language.len() > 0 {
            assert(text.last() == language.last());
        } else {
            assert(text.last() == ' ');
        }
    }
    crate::text::lemma_trim_end_crlf_of_line(text);
    crate::text::lemma_split_none(language, ' ');
    crate::text::lemma_split_at(t, language, ' ');
    assert(uri + seq![' '] + (t + seq![' '] + language) =~= text);
    crate::text::lemma_split_at(uri, t + seq![' '] + language, ' ');
}

} // verus!
