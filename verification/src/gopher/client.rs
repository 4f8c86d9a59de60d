//! What a gopher client decides: where a URL points and what line to send,
//! the MIME an item type suggests, and how a Gopher+ reply is framed. The
//! connection itself is the caller's.
use vstd::prelude::*;
use vstd::utf8::decode_utf8;

use crate::bytes::{copy_range, lossy_text, string_from_utf8_lossy};
use crate::gopher::plus::{
    attr_run, block_views, parse_attributes, parse_header, spec_parse_header, spec_token,
    AttributeBlock, MalformedHeader, PlusHeader, PlusRequest,
};
use crate::text::{
    append_chars, chars_of, concat, lines, string_of, trim, trimmed, until_period,
};
use crate::urls::{parse_url, url_parse, UrlModel};

verus! {

broadcast use vstd::string::group_string_axioms;

/// Gopher's well-known port.
pub const DEFAULT_PORT: u16 = 70;

/// What can go wrong fetching a gopher resource. Gopher has no status line,
/// so there is no protocol-error variant.
#[derive(Clone, Debug, PartialEq, Eq)]
pub enum ClientError {
    /// The URL could not be parsed, or it lacks a host.
    BadUrl(String),
    /// The TCP connection could not be established.
    Connect(String),
    /// A read or write failed mid-exchange.
    Io(String),
    /// A Gopher+ reply did not begin with a well-formed header.
    BadPlusHeader(String),
    /// A Gopher+ server answered with an error; the text it sent.
    PlusError(String),
}

impl ClientError {
    /// A sentence saying what went wrong.
    pub fn to_string(&self) -> (r: String)
        ensures
            r@ == match self {
                ClientError::BadUrl(m) => "bad url: "@ + m@,
                ClientError::Connect(m) => "connect: "@ + m@,
                ClientError::Io(m) => "io: "@ + m@,
                ClientError::BadPlusHeader(m) => "malformed gopher+ header: "@ + m@,
                ClientError::PlusError(m) => "gopher+ error: "@ + m@,
            },
    {
        match self {
            ClientError::BadUrl(m) => concat("bad url: ", m.as_str()),
            ClientError::Connect(m) => concat("connect: ", m.as_str()),
            ClientError::Io(m) => concat("io: ", m.as_str()),
            ClientError::BadPlusHeader(m) => concat("malformed gopher+ header: ", m.as_str()),
            ClientError::PlusError(m) => concat("gopher+ error: ", m.as_str()),
        }
    }
}

impl From<MalformedHeader> for ClientError {
    fn from(error: MalformedHeader) -> (r: Self) {
        ClientError::BadPlusHeader(error.0)
    }
}

impl vstd::std_specs::convert::FromSpecImpl<MalformedHeader> for ClientError {
    open spec fn obeys_from_spec() -> bool {
        true
    }

    open spec fn from_spec(v: MalformedHeader) -> Self {
        ClientError::BadPlusHeader(v.0)
    }
}

/// One gopher reply: the body, and the MIME its item type suggests.
#[derive(Clone, Debug, PartialEq, Eq)]
pub struct Response {
    pub mime: String,
    pub body: Vec<u8>,
}

/// The MIME a client assumes for an item type; gopher itself carries none.
pub open spec fn spec_mime(t: char) -> Seq<char> {
    if t == '0' {
        "text/plain"@
    } else if t == '1' || t == '7' {
        "application/gopher-menu"@
    } else if t == 'h' {
        "text/html"@
    } else if t == 'g' {
        "image/gif"@
    } else if t == 'I' || t == ':' {
        "image/*"@
    } else if t == 's' || t == '<' {
        "audio/*"@
    } else {
        "application/octet-stream"@
    }
}

/// A best-effort MIME type for an item type. Menus report
/// `application/gopher-menu`; unknown types are opaque bytes.
pub fn mime_for_item_type(item_type: char) -> (r: &'static str)
    ensures
        r@ == spec_mime(item_type),
{
    match item_type {
        '0' => "text/plain",
        '1' | '7' => "application/gopher-menu",
        'h' => "text/html",
        'g' => "image/gif",
        'I' | ':' => "image/*",
        's' | '<' => "audio/*",
        _ => "application/octet-stream",
    }
}

/// A URL path's item type and selector: the first character after the
/// leading `/` is the type and the rest the selector; an empty path is the
/// root menu.
pub open spec fn spec_split_path(path: Seq<char>) -> (char, Seq<char>) {
    let p = if path.len() > 0 && path[0] == '/' {
        path.drop_first()
    } else {
        path
    };
    if p.len() == 0 {
        ('1', seq![])
    } else {
        (p[0], p.drop_first())
    }
}

/// Splits a URL path into its item type and selector.
pub fn split_path(path: &str) -> (r: (char, String))
    ensures
        r.0 == spec_split_path(path@).0,
        r.1@ == spec_split_path(path@).1,
{
    let chars = chars_of(path);
    let start: usize = if chars.len() > 0 && chars[0] == '/' {
        1
    } else {
        0
    };
    if start == chars.len() {
        return ('1', String::new());
    }
    let rest = crate::text::slice_chars(chars.as_slice(), start + 1, chars.len());
    assert(rest@ =~= spec_split_path(path@).1);
    (chars[start], string_of(rest.as_slice()))
}

/// The RFC 1436 request: the selector, a tab and the search terms when
/// there are any, then CRLF.
pub open spec fn spec_request_line(selector: Seq<char>, query: Option<Seq<char>>) -> Seq<char> {
    match query {
        Some(q) => selector + seq!['\t'] + q + seq!['\r', '\n'],
        None => selector + seq!['\r', '\n'],
    }
}

/// Builds an RFC 1436 request line.
pub fn request_line(selector: &str, query: Option<&str>) -> (r: String)
    ensures
        r@ == spec_request_line(selector@, match query {
            Some(q) => Some(q@),
            None => None,
        }),
{
    let mut v = chars_of(selector);
    match query {
        Some(q) => {
            v.push('\t');
            let w = chars_of(q);
            append_chars(&mut v, w.as_slice());
        },
        None => {},
    }
    v.push('\r');
    v.push('\n');
    proof {
        match query {
            Some(q) => {
                assert(v@ =~= selector@ + seq!['\t'] + q@ + seq!['\r', '\n']);
            },
            None => {
                assert(v@ =~= selector@ + seq!['\r', '\n']);
            },
        }
    }
    string_of(v.as_slice())
}

/// The Gopher+ request: selector, tab, search (empty for a non-search
/// item), tab, the form's token, CRLF.
pub open spec fn spec_plus_request_line(selector: Seq<char>, search: Seq<char>, request: PlusRequest) -> Seq<char> {
    selector + seq!['\t'] + search + seq!['\t'] + spec_token(request) + seq!['\r', '\n']
}

/// Builds a Gopher+ request line.
pub fn plus_request_line(selector: &str, search: &str, request: &PlusRequest) -> (r: String)
    ensures
        r@ == spec_plus_request_line(selector@, search@, *request),
{
    let mut v = chars_of(selector);
    v.push('\t');
    let s = chars_of(search);
    append_chars(&mut v, s.as_slice());
    v.push('\t');
    let t = request.token();
    let tc = chars_of(t.as_str());
    append_chars(&mut v, tc.as_slice());
    v.push('\r');
    v.push('\n');
    assert(v@ =~= spec_plus_request_line(selector@, search@, *request));
    string_of(v.as_slice())
}

/// Where and how to fetch a gopher URL.
#[derive(Clone, Debug, PartialEq, Eq)]
pub struct FetchPlan {
    /// `gophers://`: the exchange runs over TLS.
    pub tls: bool,
    pub host: String,
    pub port: u16,
    /// The item type the URL names, from which the reply's MIME follows.
    pub item_type: char,
    /// The bytes to send, as text.
    pub request: String,
}

/// What a fetch of a parsed URL plans, given the line it sends for the
/// selector and query: a URL without a host is refused.
pub open spec fn plan_means(u: UrlModel, request: Seq<char>, r: Result<FetchPlan, ClientError>) -> bool {
    match u.1 {
        None => r matches Err(ClientError::BadUrl(m)) && m@ == "gopher URL has no host"@,
        Some(host) => r matches Ok(p) && p.tls == (u.0 == "gophers"@) && p.host@ == host
            && p.port == (match u.2 {
            Some(n) => n,
            None => DEFAULT_PORT,
        }) && p.item_type == spec_split_path(u.3).0 && p.request@ == request,
    }
}

fn plan_from_parts(parts: &crate::urls::UrlParts, request: String) -> (r: Result<FetchPlan, ClientError>)
    ensures
        plan_means(parts@, request@, r),
{
    proof {
        reveal_strlit("gophers");
        reveal_strlit("gopher URL has no host");
    }
    match &parts.host {
        None => Err(ClientError::BadUrl("gopher URL has no host".to_string())),
        Some(host) => {
            let (item_type, _) = split_path(parts.path.as_str());
            let tls = crate::text::eq_str(chars_of(parts.scheme.as_str()).as_slice(), "gophers");
            Ok(
                FetchPlan {
                    tls,
                    host: host.clone(),
                    port: match parts.port {
                        Some(n) => n,
                        None => DEFAULT_PORT,
                    },
                    item_type,
                    request,
                },
            )
        },
    }
}

/// Plans a plain fetch: the URL parsed, its host and port (70 by default),
/// and the request line made of its selector and, for a search, its query.
pub fn plan_fetch(url: &str) -> (r: Result<FetchPlan, ClientError>)
    ensures
        match url_parse(url@) {
            Err(e) => r matches Err(ClientError::BadUrl(m)) && m@ == e,
            Ok(u) => plan_means(u, spec_request_line(spec_split_path(u.3).1, u.4), r),
        },
{
    match parse_url(url) {
        Err(e) => Err(ClientError::BadUrl(e)),
        Ok(parts) => {
            let (_, selector) = split_path(parts.path.as_str());
            let query = match &parts.query {
                Some(q) => Some(q.as_str()),
                None => None,
            };
            let line = request_line(selector.as_str(), query);
            plan_from_parts(&parts, line)
        },
    }
}

/// Plans a Gopher+ fetch: as a plain one, but the line carries the search
/// field (empty when the URL has no query) and the form's token.
pub fn plan_fetch_plus(url: &str, request: &PlusRequest) -> (r: Result<FetchPlan, ClientError>)
    ensures
        match url_parse(url@) {
            Err(e) => r matches Err(ClientError::BadUrl(m)) && m@ == e,
            Ok(u) => plan_means(
                u,
                spec_plus_request_line(spec_split_path(u.3).1, match u.4 {
                    Some(q) => q,
                    None => seq![],
                }, *request),
                r,
            ),
        },
{
    match parse_url(url) {
        Err(e) => Err(ClientError::BadUrl(e)),
        Ok(parts) => {
            let (_, selector) = split_path(parts.path.as_str());
            let search = match &parts.query {
                Some(q) => q.as_str(),
                None => "",
            };
            proof {
                reveal_strlit("");
            }
            let line = plus_request_line(selector.as_str(), search, request);
            plan_from_parts(&parts, line)
        },
    }
}

// ── Gopher+ replies ────────────────────────────────────────────────────────

/// A Gopher+ reply: the header the server declared and the body, any period
/// terminator removed.
#[derive(Clone, Debug, PartialEq, Eq)]
pub struct PlusReply {
    pub header: PlusHeader,
    pub body: Vec<u8>,
}

/// Whether `b` ends with `t`.
pub open spec fn ends_with_bytes(b: Seq<u8>, t: Seq<u8>) -> bool {
    t.len() <= b.len() && b.skip(b.len() - t.len()) == t
}

/// A body without its trailing `.` line; the newline before the period
/// belongs to the last data line and stays.
pub open spec fn spec_strip_period(b: Seq<u8>) -> Seq<u8> {
    if ends_with_bytes(b, seq![13u8, 10u8, 46u8, 13u8, 10u8]) {
        b.take(b.len() - 3)
    } else if ends_with_bytes(b, seq![10u8, 46u8, 10u8]) {
        b.take(b.len() - 2)
    } else if ends_with_bytes(b, seq![13u8, 10u8, 46u8]) {
        b.take(b.len() - 1)
    } else if ends_with_bytes(b, seq![10u8, 46u8]) {
        b.take(b.len() - 1)
    } else {
        b
    }
}

fn ends_with(b: &[u8], t: &[u8]) -> (r: bool)
    ensures
        r == ends_with_bytes(b@, t@),
{
    if t.len() > b.len() {
        return false;
    }
    let off = b.len() - t.len();
    let mut i: usize = 0;
    while i < t.len()
        invariant
            off + t.len() == b.len(),
            i <= t.len(),
            forall|k: int| 0 <= k < i ==> b@[off + k] == t@[k],
        decreases t.len() - i,
    {
        if b[off + i] != t[i] {
            assert(b@.skip(off as int)[i as int] != t@[i as int]);
            return false;
        }
        i = i + 1;
    }
    assert(b@.skip(off as int) =~= t@);
    true
}

/// Removes a trailing `.` line from a body.
pub fn strip_period_terminator(body: Vec<u8>) -> (r: Vec<u8>)
    ensures
        r@ == spec_strip_period(body@),
{
    let crlf_dot_crlf: [u8; 5] = [13, 10, 46, 13, 10];
    let lf_dot_lf: [u8; 3] = [10, 46, 10];
    let crlf_dot: [u8; 3] = [13, 10, 46];
    let lf_dot: [u8; 2] = [10, 46];
    assert(crlf_dot_crlf@ =~= seq![13u8, 10u8, 46u8, 13u8, 10u8]);
    assert(lf_dot_lf@ =~= seq![10u8, 46u8, 10u8]);
    assert(crlf_dot@ =~= seq![13u8, 10u8, 46u8]);
    assert(lf_dot@ =~= seq![10u8, 46u8]);
    let n = body.len();
    if ends_with(body.as_slice(), crlf_dot_crlf.as_slice()) {
        copy_range(body.as_slice(), 0, n - 3)
    } else if ends_with(body.as_slice(), lf_dot_lf.as_slice()) {
        copy_range(body.as_slice(), 0, n - 2)
    } else if ends_with(body.as_slice(), crlf_dot.as_slice()) {
        copy_range(body.as_slice(), 0, n - 1)
    } else if ends_with(body.as_slice(), lf_dot.as_slice()) {
        copy_range(body.as_slice(), 0, n - 1)
    } else {
        body
    }
}

/// Reads the header line of a Gopher+ reply: an empty line means the server
/// closed without one.
pub fn read_plus_header(line: &str) -> (r: Result<PlusHeader, ClientError>)
    ensures
        line@.len() == 0 ==> (r matches Err(ClientError::BadPlusHeader(m)) && m@
            == "the server closed without a header"@),
        line@.len() > 0 ==> match spec_parse_header(line@) {
            Ok(h) => r == Ok::<PlusHeader, ClientError>(h),
            Err(text) => r matches Err(ClientError::BadPlusHeader(m)) && m@ == text,
        },
{
    if chars_of(line).len() == 0 {
        return Err(ClientError::BadPlusHeader("the server closed without a header".to_string()));
    }
    match parse_header(line) {
        Ok(h) => Ok(h),
        Err(e) => Err(ClientError::from(e)),
    }
}

/// What a Gopher+ reply comes to once its body is read: a period-terminated
/// or error body loses its terminator, and an error header makes the
/// trimmed body text the error.
pub fn finish_plus(header: PlusHeader, body: Vec<u8>) -> (r: Result<PlusReply, ClientError>)
    ensures
        ({
            let b = if header == PlusHeader::PeriodTerminated || header == PlusHeader::Error {
                spec_strip_period(body@)
            } else {
                body@
            };
            if header == PlusHeader::Error {
                r matches Err(ClientError::PlusError(m)) && m@ == trim(lossy_text(b))
            } else {
                r matches Ok(p) && p.header == header && p.body@ == b
            }
        }),
{
    let body = if header == PlusHeader::PeriodTerminated || header == PlusHeader::Error {
        strip_period_terminator(body)
    } else {
        body
    };
    if header == PlusHeader::Error {
        let text = string_from_utf8_lossy(body.as_slice());
        let t = trimmed(chars_of(text.as_str()).as_slice());
        return Err(ClientError::PlusError(string_of(t.as_slice())));
    }
    Ok(PlusReply { header, body })
}

/// The attribute blocks a reply carries, its body read as text.
pub fn reply_attributes(reply: &PlusReply) -> (r: Vec<AttributeBlock>)
    ensures
        block_views(r@) == attr_run(until_period(lines(lossy_text(reply.body@)))),
{
    let text = string_from_utf8_lossy(reply.body.as_slice());
    parse_attributes(text.as_str())
}

} // verus!
