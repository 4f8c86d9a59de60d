//! Scorpion request lines: a subprotocol byte, a parameter, a space, a URL.
use vstd::prelude::*;
use vstd::utf8::{decode_utf8, encode_utf8, valid_utf8};

use crate::bytes::append_bytes;
use crate::text::{
    append_chars, chars_of, decimal, decimal_chars, find, find_char, is_digit, parse_u64,
    parse_unsigned, slice_chars, split_once, split_once_char, string_of, strip_line_ending,
    strip_line_ending_at,
};

verus! {

broadcast use vstd::string::group_string_axioms;

/// The four things a request can ask for.
#[derive(Clone, Copy, Debug, PartialEq, Eq, Hash)]
pub enum Subprotocol {
    /// `R`: download a file, optionally a range of it.
    Receive,
    /// `S`: upload a file.
    Send,
    /// `I`: open an interactive session.
    Interactive,
    /// `M`: ask for metadata only.
    Meta,
}

impl Subprotocol {
    /// The subprotocol's letter.
    pub open spec fn spec_char(self) -> char {
        match self {
            Subprotocol::Receive => 'R',
            Subprotocol::Send => 'S',
            Subprotocol::Interactive => 'I',
            Subprotocol::Meta => 'M',
        }
    }

    /// The subprotocol that a letter names.
    pub open spec fn spec_from_char(c: char) -> Option<Subprotocol> {
        if c == 'R' {
            Some(Subprotocol::Receive)
        } else if c == 'S' {
            Some(Subprotocol::Send)
        } else if c == 'I' {
            Some(Subprotocol::Interactive)
        } else if c == 'M' {
            Some(Subprotocol::Meta)
        } else {
            None
        }
    }

    /// The byte that opens a request of this subprotocol.
    pub fn byte(self) -> (r: u8)
        ensures
            r as char == self.spec_char(),
    {
        match self {
            Self::Receive => 82,
            Self::Send => 83,
            Self::Interactive => 73,
            Self::Meta => 77,
        }
    }

    /// The subprotocol for a request's first byte.
    pub fn from_byte(byte: u8) -> (r: Option<Self>)
        ensures
            r == Self::spec_from_char(byte as char),
    {
        match byte {
            82 => Some(Self::Receive),
            83 => Some(Self::Send),
            73 => Some(Self::Interactive),
            77 => Some(Self::Meta),
            _ => None,
        }
    }

    /// The subprotocol's letter as a string.
    pub fn to_string(&self) -> (r: String)
        ensures
            r@ == seq![self.spec_char()],
    {
        let mut v: Vec<char> = Vec::new();
        v.push(
            match self {
                Self::Receive => 'R',
                Self::Send => 'S',
                Self::Interactive => 'I',
                Self::Meta => 'M',
            },
        );
        assert(v@ =~= seq![self.spec_char()]);
        string_of(v.as_slice())
    }
}

/// Every subprotocol's letter names it back.
pub proof fn lemma_subprotocol_round_trip(subprotocol: Subprotocol)
    ensures
        Subprotocol::spec_from_char(subprotocol.spec_char()) == Some(subprotocol),
{
}

/// A byte range of a file: `start` up to, not including, `end`; no `end`
/// runs to the end of the file.
#[derive(Clone, Copy, Debug, PartialEq, Eq)]
pub struct Range {
    pub start: u64,
    pub end: Option<u64>,
}

/// The range that a `start-end` parameter spells, `end` optional.
pub open spec fn spec_parse_range(text: Seq<char>) -> Option<Range> {
    match split_once(text, '-') {
        None => None,
        Some((a, b)) => match parse_unsigned(a, u64::MAX as nat) {
            None => None,
            Some(start) => if b.len() == 0 {
                Some(Range { start: start as u64, end: None })
            } else {
                match parse_unsigned(b, u64::MAX as nat) {
                    Some(end) => Some(Range { start: start as u64, end: Some(end as u64) }),
                    None => None,
                }
            },
        },
    }
}

/// How a range is written: `start-end`, or `start-` when it is open.
pub open spec fn spec_render_range(range: Range) -> Seq<char> {
    match range.end {
        Some(end) => decimal(range.start as nat) + seq!['-'] + decimal(end as nat),
        None => decimal(range.start as nat) + seq!['-'],
    }
}

impl Range {
    /// The range `start..end`.
    pub fn new(start: u64, end: u64) -> (r: Self)
        ensures
            r == (Range { start, end: Some(end) }),
    {
        Self { start, end: Some(end) }
    }

    /// The range from `start` to the end of the file.
    pub fn from(start: u64) -> (r: Self)
        ensures
            r == (Range { start, end: None }),
    {
        Self { start, end: None }
    }

    /// The number of bytes, or `None` when the range is open; an end before
    /// the start is an empty range.
    pub fn len(self) -> (r: Option<u64>)
        ensures
            match self.end {
                Some(end) => r == Some(if end >= self.start {
                    (end - self.start) as u64
                } else {
                    0u64
                }),
                None => r is None,
            },
    {
        match self.end {
            Some(end) => Some(
                if end >= self.start {
                    end - self.start
                } else {
                    0
                },
            ),
            None => None,
        }
    }

    /// Whether the range is closed and holds no bytes.
    pub fn is_empty(self) -> (r: bool)
        ensures
            r == (self.end matches Some(end) && end <= self.start),
    {
        self.len() == Some(0u64)
    }

    /// Reads a `start-end` or `start-` parameter.
    pub fn parse(text: &str) -> (r: Option<Self>)
        ensures
            r == spec_parse_range(text@),
    {
        let chars = chars_of(text);
        Self::parse_chars(chars.as_slice())
    }

    fn parse_chars(text: &[char]) -> (r: Option<Self>)
        ensures
            r == spec_parse_range(text@),
    {
        let (a, b) = match split_once_char(text, '-') {
            Some(pair) => pair,
            None => return None,
        };
        let start = match parse_u64(a.as_slice()) {
            Some(n) => n,
            None => return None,
        };
        if b.len() == 0 {
            return Some(Self { start, end: None });
        }
        match parse_u64(b.as_slice()) {
            Some(end) => Some(Self { start, end: Some(end) }),
            None => None,
        }
    }

    fn render_chars(self) -> (v: Vec<char>)
        ensures
            v@ == spec_render_range(self),
    {
        let mut v = decimal_chars(self.start);
        v.push('-');
        match self.end {
            Some(end) => {
                let e = decimal_chars(end);
                append_chars(&mut v, e.as_slice());
            },
            None => {},
        }
        v
    }

    /// The range as a request writes it.
    pub fn to_string(&self) -> (r: String)
        ensures
            r@ == spec_render_range(*self),
    {
        let v = self.render_chars();
        string_of(v.as_slice())
    }
}

/// Writing a range and reading it back gives the same range.
pub proof fn lemma_range_round_trip(range: Range)
    ensures
        spec_parse_range(spec_render_range(range)) == Some(range),
{
    let s = spec_render_range(range);
    let a = decimal(range.start as nat);
    crate::text::lemma_decimal_round_trip(range.start as nat);
    assert forall|j: int| 0 <= j < a.len() implies s[j] != '-' by {
        assert(s[j] == a[j]);
        assert(is_digit(a[j]));
    }
    assert(s[a.len() as int] == '-');
    crate::text::lemma_find_at(s, '-', a.len() as int);
    assert(s.take(a.len() as int) =~= a);
    match range.end {
        Some(end) => {
            crate::text::lemma_decimal_round_trip(end as nat);
            assert(s.skip(a.len() as int + 1) =~= decimal(end as nat));
        },
        None => {
            assert(s.skip(a.len() as int + 1) =~= Seq::<char>::empty());
        },
    }
}

/// A request's parameter, read according to its subprotocol.
#[derive(Clone, Debug, PartialEq, Eq, Default)]
pub enum Parameter {
    /// No parameter.
    #[default]
    Empty,
    /// `R`: a byte range.
    Range(Range),
    /// `S`: the version being replaced.
    Version(String),
    /// `S`: an authentication code and the version being replaced.
    Hmac { hmac: String, version: String },
    /// `I`: the client's terminal capabilities.
    Capabilities(String),
    /// `M`: the media type wanted.
    DesiredType(String),
}

/// How a parameter is written.
pub open spec fn spec_render_parameter(p: Parameter) -> Seq<char> {
    match p {
        Parameter::Empty => seq![],
        Parameter::Range(range) => spec_render_range(range),
        Parameter::Version(v) => v@,
        Parameter::Hmac { hmac, version } => hmac@ + seq!['@'] + version@,
        Parameter::Capabilities(c) => c@,
        Parameter::DesiredType(t) => t@,
    }
}

/// Why a request line was refused.
#[derive(Clone, Copy, Debug, PartialEq, Eq)]
pub enum RequestError {
    /// Not a subprotocol byte, parameter, space and URL.
    Malformed,
    /// The first byte names no subprotocol.
    UnknownSubprotocol,
    /// An `R` parameter that is not a range.
    MalformedRange,
    /// The URL has no scheme.
    RelativeUrl,
    /// The line is over the cap.
    TooLong,
}

impl RequestError {
    /// The sentence a refusal is reported with.
    pub open spec fn spec_message(self) -> Seq<char> {
        match self {
            RequestError::Malformed => "request line is malformed"@,
            RequestError::UnknownSubprotocol => "first byte is not a known subprotocol"@,
            RequestError::MalformedRange => "range parameter is malformed"@,
            RequestError::RelativeUrl => "request URL has no scheme, and the scheme is mandatory"@,
            RequestError::TooLong => "request line exceeds the permitted length"@,
        }
    }

    /// A sentence saying what went wrong.
    pub fn to_string(&self) -> (r: String)
        ensures
            r@ == self.spec_message(),
    {
        match self {
            Self::Malformed => "request line is malformed".to_string(),
            Self::UnknownSubprotocol => "first byte is not a known subprotocol".to_string(),
            Self::MalformedRange => "range parameter is malformed".to_string(),
            Self::RelativeUrl => "request URL has no scheme, and the scheme is mandatory".to_string(),
            Self::TooLong => "request line exceeds the permitted length".to_string(),
        }
    }
}

/// The parameter that `text` spells under `subprotocol`, described over the
/// text of its fields.
pub open spec fn parameter_means(subprotocol: Subprotocol, text: Seq<char>, p: Parameter) -> bool {
    if text.len() == 0 {
        p == Parameter::Empty
    } else {
        match subprotocol {
            Subprotocol::Receive => spec_parse_range(text) matches Some(range) && p
                == Parameter::Range(range),
            Subprotocol::Send => match split_once(text, '@') {
                Some((h, v)) => p matches Parameter::Hmac { hmac, version } && hmac@ == h
                    && version@ == v,
                None => p matches Parameter::Version(v) && v@ == text,
            },
            Subprotocol::Interactive => p matches Parameter::Capabilities(c) && c@ == text,
            Subprotocol::Meta => p matches Parameter::DesiredType(t) && t@ == text,
        }
    }
}

/// Two parameters say the same: the same kind, the same range, the same
/// texts.
pub open spec fn same_parameter(a: Parameter, b: Parameter) -> bool {
    match a {
        Parameter::Empty => b is Empty,
        Parameter::Range(x) => b matches Parameter::Range(y) && x == y,
        Parameter::Version(v) => b matches Parameter::Version(w) && v@ == w@,
        Parameter::Hmac { hmac, version } => b matches Parameter::Hmac { hmac: h, version: v }
            && hmac@ == h@ && version@ == v@,
        Parameter::Capabilities(c) => b matches Parameter::Capabilities(d) && c@ == d@,
        Parameter::DesiredType(t) => b matches Parameter::DesiredType(u) && t@ == u@,
    }
}

/// A parameter's text means one parameter: any two it means say the same.
pub proof fn lemma_parameter_means_one(
    subprotocol: Subprotocol,
    text: Seq<char>,
    a: Parameter,
    b: Parameter,
)
    requires
        parameter_means(subprotocol, text, a),
        parameter_means(subprotocol, text, b),
    ensures
        same_parameter(a, b),
{
}

/// A parameter is refused only when an `R` parameter is not a range.
pub open spec fn parameter_refused(subprotocol: Subprotocol, text: Seq<char>) -> bool {
    text.len() > 0 && subprotocol == Subprotocol::Receive && spec_parse_range(text) is None
}

impl Parameter {
    /// The parameter as a request line carries it.
    pub fn render(&self) -> (r: String)
        ensures
            r@ == spec_render_parameter(*self),
    {
        match self {
            Self::Empty => String::new(),
            Self::Range(range) => range.to_string(),
            Self::Version(version) => version.clone(),
            Self::Hmac { hmac, version } => {
                let mut v = chars_of(hmac.as_str());
                v.push('@');
                let w = chars_of(version.as_str());
                append_chars(&mut v, w.as_slice());
                string_of(v.as_slice())
            },
            Self::Capabilities(codes) => codes.clone(),
            Self::DesiredType(kind) => kind.clone(),
        }
    }

    /// Reads a parameter against its subprotocol: the same text is a range
    /// under `R` and a media type under `M`.
    pub fn parse(subprotocol: Subprotocol, text: &str) -> (r: Result<Self, RequestError>)
        ensures
            match r {
                Ok(p) => !parameter_refused(subprotocol, text@) && parameter_means(
                    subprotocol,
                    text@,
                    p,
                ),
                Err(e) => parameter_refused(subprotocol, text@) && e == RequestError::MalformedRange,
            },
    {
        let chars = chars_of(text);
        Self::parse_chars(subprotocol, chars.as_slice())
    }

    fn parse_chars(subprotocol: Subprotocol, text: &[char]) -> (r: Result<Self, RequestError>)
        ensures
            match r {
                Ok(p) => !parameter_refused(subprotocol, text@) && parameter_means(
                    subprotocol,
                    text@,
                    p,
                ),
                Err(e) => parameter_refused(subprotocol, text@) && e == RequestError::MalformedRange,
            },
    {
        if text.len() == 0 {
            return Ok(Self::Empty);
        }
        match subprotocol {
            Subprotocol::Receive => match Range::parse_chars(text) {
                Some(range) => Ok(Self::Range(range)),
                None => Err(RequestError::MalformedRange),
            },
            Subprotocol::Send => match split_once_char(text, '@') {
                Some((hmac, version)) => Ok(
                    Self::Hmac {
                        hmac: string_of(hmac.as_slice()),
                        version: string_of(version.as_slice()),
                    },
                ),
                None => Ok(Self::Version(string_of(text))),
            },
            Subprotocol::Interactive => Ok(Self::Capabilities(string_of(text))),
            Subprotocol::Meta => Ok(Self::DesiredType(string_of(text))),
        }
    }
}

/// A whole request.
#[derive(Clone, Debug, PartialEq, Eq)]
pub struct Request {
    pub subprotocol: Subprotocol,
    pub parameter: Parameter,
    /// Absolute: the scheme is mandatory.
    pub url: String,
}

/// An ASCII letter.
pub open spec fn is_ascii_alpha(c: char) -> bool {
    ('a' <= c && c <= 'z') || ('A' <= c && c <= 'Z')
}

/// A character that may follow the first letter of a URL scheme.
pub open spec fn is_scheme_char(c: char) -> bool {
    is_ascii_alpha(c) || is_digit(c) || c == '+' || c == '-' || c == '.'
}

/// Whether a URL begins with a scheme: a letter, then letters, digits, `+`,
/// `-` or `.`, up to its first colon.
pub open spec fn spec_has_scheme(url: Seq<char>) -> bool {
    match find(url, ':') {
        None => false,
        Some(i) => i > 0 && is_ascii_alpha(url[0]) && forall|j: int|
            1 <= j < i ==> is_scheme_char(#[trigger] url[j]),
    }
}

/// A URL without its fragment.
pub open spec fn spec_strip_fragment(url: Seq<char>) -> Seq<char> {
    match split_once(url, '#') {
        Some((head, _)) => head,
        None => url,
    }
}

fn has_scheme(url: &[char]) -> (r: bool)
    ensures
        r == spec_has_scheme(url@),
{
    let colon = match find_char(url, ':') {
        Some(i) => i,
        None => return false,
    };
    proof {
        crate::text::lemma_find(url@, ':');
    }
    if colon == 0 {
        return false;
    }
    let first = url[0];
    if !(('a' <= first && first <= 'z') || ('A' <= first && first <= 'Z')) {
        return false;
    }
    let mut j: usize = 1;
    while j < colon
        invariant
            1 <= j <= colon < url.len(),
            find(url@, ':') == Some(colon as int),
            is_ascii_alpha(url@[0]),
            forall|k: int| 1 <= k < j ==> is_scheme_char(#[trigger] url@[k]),
        decreases colon - j,
    {
        let c = url[j];
        if !(('a' <= c && c <= 'z') || ('A' <= c && c <= 'Z') || ('0' <= c && c <= '9') || c
            == '+' || c == '-' || c == '.') {
            assert(!is_scheme_char(url@[j as int]));
            return false;
        }
        j = j + 1;
    }
    true
}

/// A request's line, decoded to characters, refused for a reason or read.
pub open spec fn spec_parse_request(line: Seq<char>) -> Result<
    (Subprotocol, Seq<char>, Seq<char>),
    RequestError,
> {
    let line = strip_line_ending(line);
    if line.len() == 0 {
        Err(RequestError::Malformed)
    } else {
        match Subprotocol::spec_from_char(line[0]) {
            None => Err(RequestError::UnknownSubprotocol),
            Some(sub) => match split_once(line.drop_first(), ' ') {
                None => Err(RequestError::Malformed),
                Some((param, url)) => if url.len() == 0 {
                    Err(RequestError::Malformed)
                } else if !spec_has_scheme(url) {
                    Err(RequestError::RelativeUrl)
                } else if parameter_refused(sub, param) {
                    Err(RequestError::MalformedRange)
                } else {
                    Ok((sub, param, url))
                },
            },
        }
    }
}

/// The bytes of a request line: the subprotocol byte, the parameter, a space,
/// the URL without its fragment, and CRLF.
pub open spec fn spec_request_wire(r: Request) -> Seq<u8> {
    seq![r.subprotocol.spec_char() as u8] + encode_utf8(spec_render_parameter(r.parameter))
        + seq![32u8] + encode_utf8(spec_strip_fragment(r.url@)) + seq![13u8, 10u8]
}

impl Request {
    /// Download the whole file.
    pub fn receive(url: &str) -> (r: Self)
        ensures
            r.subprotocol == Subprotocol::Receive,
            r.parameter == Parameter::Empty,
            r.url@ == url@,
    {
        Self { subprotocol: Subprotocol::Receive, parameter: Parameter::Empty, url: url.to_string() }
    }

    /// Download part of a file.
    pub fn receive_range(url: &str, range: Range) -> (r: Self)
        ensures
            r.subprotocol == Subprotocol::Receive,
            r.parameter == Parameter::Range(range),
            r.url@ == url@,
    {
        Self {
            subprotocol: Subprotocol::Receive,
            parameter: Parameter::Range(range),
            url: url.to_string(),
        }
    }

    /// Ask for metadata.
    pub fn meta(url: &str) -> (r: Self)
        ensures
            r.subprotocol == Subprotocol::Meta,
            r.parameter == Parameter::Empty,
            r.url@ == url@,
    {
        Self { subprotocol: Subprotocol::Meta, parameter: Parameter::Empty, url: url.to_string() }
    }

    /// Upload, replacing `version` when one is given.
    pub fn send(url: &str, version: Option<String>) -> (r: Self)
        ensures
            r.subprotocol == Subprotocol::Send,
            r.parameter == match version {
                Some(v) => Parameter::Version(v),
                None => Parameter::Empty,
            },
            r.url@ == url@,
    {
        Self {
            subprotocol: Subprotocol::Send,
            parameter: match version {
                Some(v) => Parameter::Version(v),
                None => Parameter::Empty,
            },
            url: url.to_string(),
        }
    }

    /// Open an interactive session, declaring `capabilities` when given.
    pub fn interactive(url: &str, capabilities: Option<String>) -> (r: Self)
        ensures
            r.subprotocol == Subprotocol::Interactive,
            r.parameter == match capabilities {
                Some(c) => Parameter::Capabilities(c),
                None => Parameter::Empty,
            },
            r.url@ == url@,
    {
        Self {
            subprotocol: Subprotocol::Interactive,
            parameter: match capabilities {
                Some(c) => Parameter::Capabilities(c),
                None => Parameter::Empty,
            },
            url: url.to_string(),
        }
    }

    /// The request line as sent: the fragment never leaves the client.
    pub fn to_wire(&self) -> (r: Vec<u8>)
        ensures
            r@ == spec_request_wire(*self),
    {
        let url = chars_of(self.url.as_str());
        let end = match find_char(url.as_slice(), '#') {
            Some(i) => {
                proof {
                    crate::text::lemma_find(url@, '#');
                }
                i
            },
            None => url.len(),
        };
        let stripped = string_of(slice_chars(url.as_slice(), 0, end).as_slice());
        assert(stripped@ == spec_strip_fragment(self.url@));
        let mut line: Vec<u8> = Vec::new();
        line.push(self.subprotocol.byte());
        let rendered = self.parameter.render();
        append_bytes(&mut line, rendered.as_str().as_bytes());
        line.push(32);
        append_bytes(&mut line, stripped.as_str().as_bytes());
        line.push(13);
        line.push(10);
        line
    }

    /// Reads a request line; a trailing CRLF or LF is optional.
    pub fn parse(line: &str) -> (r: Result<Self, RequestError>)
        ensures
            match spec_parse_request(line@) {
                Ok((sub, param, url)) => r matches Ok(req) && req.subprotocol == sub
                    && parameter_means(sub, param, req.parameter) && req.url@ == url,
                Err(e) => r == Err::<Self, RequestError>(e),
            },
    {
        let all = chars_of(line);
        let end = strip_line_ending_at(all.as_slice());
        let text = slice_chars(all.as_slice(), 0, end);
        if text.len() == 0 {
            return Err(RequestError::Malformed);
        }
        let first = text[0];
        let subprotocol = if first == 'R' {
            Subprotocol::Receive
        } else if first == 'S' {
            Subprotocol::Send
        } else if first == 'I' {
            Subprotocol::Interactive
        } else if first == 'M' {
            Subprotocol::Meta
        } else {
            return Err(RequestError::UnknownSubprotocol);
        };
        let rest = slice_chars(text.as_slice(), 1, text.len());
        assert(rest@ =~= text@.drop_first());
        let (parameter, url) = match split_once_char(rest.as_slice(), ' ') {
            Some(pair) => pair,
            None => return Err(RequestError::Malformed),
        };
        if url.len() == 0 {
            return Err(RequestError::Malformed);
        }
        if !has_scheme(url.as_slice()) {
            return Err(RequestError::RelativeUrl);
        }
        let parameter = Parameter::parse_chars(subprotocol, parameter.as_slice())?;
        Ok(Self { subprotocol, parameter, url: string_of(url.as_slice()) })
    }
}


// ── What the parser accepts, it accepts again ──────────────────────────────

/// A single ASCII letter encodes as its own byte.
proof fn lemma_encode_letter(c: char)
    requires
        c == 'R' || c == 'S' || c == 'I' || c == 'M' || c == ' ' || c == '\r' || c == '\n',
    ensures
        encode_utf8(seq![c]) == seq![c as u8],
{
    reveal_with_fuel(encode_utf8, 2);
    let n = c as u32;
    assert(n < 0x80) by {
        if c == 'R' {
            assert('R' as u32 == 82u32);
        } else if c == 'S' {
            assert('S' as u32 == 83u32);
        } else if c == 'I' {
            assert('I' as u32 == 73u32);
        } else if c == 'M' {
            assert('M' as u32 == 77u32);
        } else if c == ' ' {
            assert(' ' as u32 == 32u32);
        } else if c == '\r' {
            assert('\r' as u32 == 13u32);
        } else {
            assert('\n' as u32 == 10u32);
        }
    }
    assert((n & 0x7Fu32) as u8 == n as u8) by (bit_vector)
        requires
            n < 0x80,
    ;
    assert(seq![c].drop_first() =~= Seq::<char>::empty());
}

/// A prefix of text cut at the first `c` joins back with it.
proof fn lemma_split_once_joins(s: Seq<char>, c: char)
    requires
        split_once(s, c) is Some,
    ensures
        ({
            let (a, b) = split_once(s, c).unwrap();
            a + seq![c] + b == s
        }),
{
    crate::text::lemma_find(s, c);
    let i = find(s, c).unwrap();
    assert(s.take(i) + seq![c] + s.skip(i + 1) =~= s);
}

/// A URL that has a scheme keeps it, and stays non-empty, once its
/// fragment is cut.
proof fn lemma_fragment_keeps_scheme(url: Seq<char>)
    requires
        spec_has_scheme(url),
    ensures
        spec_has_scheme(spec_strip_fragment(url)),
        spec_strip_fragment(url).len() > 0,
{
    crate::text::lemma_find(url, ':');
    let i = find(url, ':').unwrap();
    crate::text::lemma_find(url, '#');
    match find(url, '#') {
        None => {},
        Some(k) => {
            assert(k > i) by {
                if k <= i {
                    if k == 0 {
                        assert(is_ascii_alpha(url[0]));
                    } else if k < i {
                        assert(is_scheme_char(url[k]));
                    }
                }
            }
            let u = url.take(k);
            assert(u[i] == ':');
            assert forall|j: int| 0 <= j < i implies u[j] != ':' by {
                assert(u[j] == url[j]);
            }
            crate::text::lemma_find_at(u, ':', i);
            assert forall|j: int| 1 <= j < i implies is_scheme_char(#[trigger] u[j]) by {
                assert(u[j] == url[j]);
            }
            assert(u[0] == url[0]);
        },
    }
}

/// A parameter, as written, holds no space, reads back as the same
/// parameter, and is not refused, when it was read from text without
/// spaces.
proof fn lemma_parameter_reparses(sub: Subprotocol, text: Seq<char>, p: Parameter)
    requires
        parameter_means(sub, text, p),
        !parameter_refused(sub, text),
        forall|j: int| 0 <= j < text.len() ==> text[j] != ' ',
    ensures
        forall|j: int|
            0 <= j < spec_render_parameter(p).len() ==> spec_render_parameter(p)[j] != ' ',
        parameter_means(sub, spec_render_parameter(p), p),
        !parameter_refused(sub, spec_render_parameter(p)),
{
    let rendered = spec_render_parameter(p);
    if text.len() == 0 {
        assert(rendered =~= Seq::<char>::empty());
    } else {
        match sub {
            Subprotocol::Receive => {
                let range = spec_parse_range(text).unwrap();
                lemma_range_round_trip(range);
                let a = decimal(range.start as nat);
                crate::text::lemma_decimal_round_trip(range.start as nat);
                assert forall|j: int| 0 <= j < rendered.len() implies rendered[j] != ' ' by {
                    if j < a.len() {
                        assert(rendered[j] == a[j]);
                        assert(is_digit(a[j]));
                    } else if j > a.len() {
                        let e = decimal(range.end.unwrap() as nat);
                        crate::text::lemma_decimal_round_trip(range.end.unwrap() as nat);
                        assert(rendered[j] == e[j - a.len() - 1]);
                        assert(is_digit(e[j - a.len() - 1]));
                    }
                }
            },
            Subprotocol::Send => {
                match split_once(text, '@') {
                    Some((h, v)) => {
                        lemma_split_once_joins(text, '@');
                        assert(rendered == h + seq!['@'] + v);
                    },
                    None => {},
                }
                assert(rendered == text);
            },
            _ => {
                assert(rendered == text);
            },
        }
    }
}

/// What the parser accepts survives being written and read again: a
/// request read from a line, written out and read back, has the same
/// subprotocol, a parameter that says the same, and its URL without the
/// fragment.
pub proof fn lemma_request_reparses(line: Seq<char>, r: Request)
    requires
        spec_parse_request(line) matches Ok((sub, text, url)) && r.subprotocol == sub
            && parameter_means(sub, text, r.parameter) && r.url@ == url,
    ensures
        valid_utf8(spec_request_wire(r)),
        spec_parse_request(decode_utf8(spec_request_wire(r))) == Ok::<
            (Subprotocol, Seq<char>, Seq<char>),
            RequestError,
        >((r.subprotocol, spec_render_parameter(r.parameter), spec_strip_fragment(r.url@))),
        parameter_means(r.subprotocol, spec_render_parameter(r.parameter), r.parameter),
        forall|p: Parameter|
            #[trigger] parameter_means(r.subprotocol, spec_render_parameter(r.parameter), p)
                ==> same_parameter(p, r.parameter),
{
    let (sub, text, url) = spec_parse_request(line).unwrap();
    let l = strip_line_ending(line);
    let rest = l.drop_first();
    crate::text::lemma_find(rest, ' ');
    assert forall|j: int| 0 <= j < text.len() implies text[j] != ' ' by {
        assert(text[j] == rest[j]);
    }
    lemma_parameter_reparses(sub, text, r.parameter);
    assert forall|p: Parameter|
        #[trigger] parameter_means(r.subprotocol, spec_render_parameter(r.parameter), p) implies same_parameter(
        p,
        r.parameter,
    ) by {
        lemma_parameter_means_one(r.subprotocol, spec_render_parameter(r.parameter), p, r.parameter);
    }
    lemma_fragment_keeps_scheme(url);
    let c = sub.spec_char();
    let p = spec_render_parameter(r.parameter);
    let u = spec_strip_fragment(url);
    let body = seq![c] + p + seq![' '] + u;
    let whole = body + seq!['\r', '\n'];
    lemma_encode_letter(c);
    lemma_encode_letter(' ');
    crate::bytes::lemma_encode_append(seq![c], p);
    crate::bytes::lemma_encode_append(seq![c] + p, seq![' ']);
    crate::bytes::lemma_encode_append(seq![c] + p + seq![' '], u);
    crate::bytes::lemma_encode_append(body, seq!['\r', '\n']);
    assert(encode_utf8(seq!['\r', '\n']) =~= seq![13u8, 10u8]) by {
        lemma_encode_letter('\r');
        lemma_encode_letter('\n');
        crate::bytes::lemma_encode_append(seq!['\r'], seq!['\n']);
        assert(seq!['\r'] + seq!['\n'] =~= seq!['\r', '\n']);
    }
    assert(spec_request_wire(r) =~= encode_utf8(whole));
    vstd::utf8::encode_utf8_valid_utf8(whole);
    vstd::utf8::encode_utf8_decode_utf8(whole);
    assert(strip_line_ending(whole) =~= body);
    assert(body[0] == c);
    lemma_subprotocol_round_trip(sub);
    let after = body.drop_first();
    assert(after =~= p + seq![' '] + u);
    assert(after[p.len() as int] == ' ');
    assert forall|j: int| 0 <= j < p.len() implies after[j] != ' ' by {
        assert(after[j] == p[j]);
    }
    crate::text::lemma_find_at(after, ' ', p.len() as int);
    assert(after.take(p.len() as int) =~= p);
    assert(after.skip(p.len() as int + 1) =~= u);
}

} // verus!
