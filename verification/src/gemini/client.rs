//! Gemini's vocabulary (status classes, responses, errors) and the parse of
//! a response off the wire.
use vstd::prelude::*;
use vstd::string::{StrSliceExecFns, StringSliceAdditionalSpecFns};
use vstd::utf8::{decode_utf8, encode_utf8, valid_utf8};

use crate::bytes::{copy_range, find_crlf, find_crlf_in, str_from_utf8};
use crate::gemini::tofu::{hex, same_fingerprint, spec_hex};
use crate::urls::{parse_url, url_parse, UrlParts};
use crate::text::{
    chars_of, concat, debug_quoted, debug_string, decimal, decimal_chars, find, find_char,
    is_digit, slice_chars, string_of, trim, trim_end_at, trim_start, trim_start_at,
};

verus! {

broadcast use vstd::string::group_string_axioms;

/// Gemini's well-known port.
pub const DEFAULT_PORT: u16 = 1965;

/// The protocol's cap on a request line, in bytes.
pub const MAX_REQUEST: usize = 1024;

/// The class of a response: the tens digit of its code.
#[derive(Clone, Copy, Debug, PartialEq, Eq, Structural)]
pub enum Status {
    Input,
    Success,
    Redirect,
    TemporaryFailure,
    PermanentFailure,
    CertificateRequired,
}

/// The class of a two-digit code, by its first digit.
pub open spec fn spec_status_of(code: u8) -> Option<Status> {
    let d = code / 10;
    if d == 1 {
        Some(Status::Input)
    } else if d == 2 {
        Some(Status::Success)
    } else if d == 3 {
        Some(Status::Redirect)
    } else if d == 4 {
        Some(Status::TemporaryFailure)
    } else if d == 5 {
        Some(Status::PermanentFailure)
    } else if d == 6 {
        Some(Status::CertificateRequired)
    } else {
        None
    }
}

impl Status {
    /// The class of a code, or `None` for a first digit the protocol does not
    /// define.
    pub fn from_code(code: u8) -> (r: Option<Self>)
        ensures
            r == spec_status_of(code),
    {
        match code / 10 {
            1 => Some(Self::Input),
            2 => Some(Self::Success),
            3 => Some(Self::Redirect),
            4 => Some(Self::TemporaryFailure),
            5 => Some(Self::PermanentFailure),
            6 => Some(Self::CertificateRequired),
            _ => None,
        }
    }
}

/// Gemini's six classes in the order of their first digits, 1 to 6.
pub open spec fn classes_in_order() -> Seq<Status> {
    seq![
        Status::Input,
        Status::Success,
        Status::Redirect,
        Status::TemporaryFailure,
        Status::PermanentFailure,
        Status::CertificateRequired,
    ]
}

/// The class of a code is fixed by its first digit: codes 10 to 69 fall in
/// the six classes in order, 1x input through 6x certificate required, and
/// every other code has none. Two codes share a class exactly when they
/// share a first digit.
pub proof fn lemma_classes_by_first_digit(code: u8, other: u8)
    ensures
        10 <= code < 70 ==> spec_status_of(code) == Some(classes_in_order()[code / 10 - 1]),
        code < 10 || code >= 70 ==> spec_status_of(code) is None,
        10 <= code < 70 && 10 <= other < 70 ==> (spec_status_of(code) == spec_status_of(other)
            <==> code / 10 == other / 10),
{
}

/// A response: its class, exact code, meta line and body.
#[derive(Clone, Debug, PartialEq, Eq)]
pub struct Response {
    pub status: Status,
    pub code: u8,
    pub meta: String,
    /// Empty unless the status is a success.
    pub body: Vec<u8>,
}

/// A success's media type: the meta up to its first `;`, trimmed, when that
/// is not empty.
pub open spec fn spec_mime(status: Status, meta: Seq<char>) -> Option<Seq<char>> {
    if status != Status::Success {
        None
    } else {
        let head = match find(meta, ';') {
            Some(i) => meta.take(i),
            None => meta,
        };
        if trim(head).len() == 0 {
            None
        } else {
            Some(trim(head))
        }
    }
}

impl Response {
    /// The media type of a success, without its parameters.
    pub fn mime(&self) -> (r: Option<&str>)
        ensures
            match spec_mime(self.status, self.meta@) {
                Some(m) => r matches Some(s) && s@ == m,
                None => r is None,
            },
    {
        if self.status != Status::Success {
            return None;
        }
        let chars = chars_of(self.meta.as_str());
        let end = match find_char(chars.as_slice(), ';') {
            Some(i) => {
                proof {
                    crate::text::lemma_find(chars@, ';');
                }
                i
            },
            None => chars.len(),
        };
        let head = slice_chars(chars.as_slice(), 0, end);
        assert(head@ == match find(self.meta@, ';') {
            Some(i) => self.meta@.take(i),
            None => self.meta@,
        });
        let a = trim_start_at(head.as_slice());
        let tail = slice_chars(head.as_slice(), a, head.len());
        let b = trim_end_at(tail.as_slice());
        if b == 0 {
            return None;
        }
        assert(trim(head@) =~= self.meta@.subrange(a as int, a + b));
        Some(self.meta.as_str().substring_char(a, a + b))
    }
}

/// Why a gemini exchange failed.
#[derive(Clone, Debug, PartialEq, Eq)]
pub enum ClientError {
    BadUrl(String),
    Connect(String),
    Io(String),
    /// The server said something the grammar does not allow.
    Protocol(String),
    /// The host's certificate is not the one pinned on first contact.
    CertificateChanged { host: String, pinned: String, seen: String },
}

impl ClientError {
    /// A sentence saying what went wrong.
    pub fn to_string(&self) -> (r: String)
        ensures
            r@ == match self {
                ClientError::BadUrl(m) => "bad url: "@ + m@,
                ClientError::Connect(m) => "connect: "@ + m@,
                ClientError::Io(m) => "io: "@ + m@,
                ClientError::Protocol(m) => "protocol: "@ + m@,
                ClientError::CertificateChanged { host, pinned, seen } => "certificate for "@
                    + host@ + " changed: pinned "@ + pinned@ + ", saw "@ + seen@,
            },
    {
        match self {
            Self::BadUrl(m) => concat("bad url: ", m.as_str()),
            Self::Connect(m) => concat("connect: ", m.as_str()),
            Self::Io(m) => concat("io: ", m.as_str()),
            Self::Protocol(m) => concat("protocol: ", m.as_str()),
            Self::CertificateChanged { host, pinned, seen } => {
                let a = concat("certificate for ", host.as_str());
                let b = concat(a.as_str(), " changed: pinned ");
                let c = concat(b.as_str(), pinned.as_str());
                let d = concat(c.as_str(), ", saw ");
                concat(d.as_str(), seen.as_str())
            },
        }
    }
}

/// Whether a response header names a status: its two leading characters
/// are digits.
pub open spec fn header_has_code(h: Seq<char>) -> bool {
    h.len() >= 2 && is_digit(h[0]) && is_digit(h[1])
}

/// The code that a header's two leading digits spell.
pub open spec fn header_code(h: Seq<char>) -> u8 {
    ((h[0] as int - 48) * 10 + (h[1] as int - 48)) as u8
}

/// What a whole response reads as: the status, code, meta and body, or
/// why it is refused: no CRLF, a header that is not UTF-8, a header
/// without two leading digits, or a class the protocol does not define. The
/// meta is what follows the digits, leading whitespace dropped; only a
/// success keeps the bytes after the header as its body.
pub open spec fn spec_response(raw: Seq<u8>) -> Result<(Status, u8, Seq<char>, Seq<u8>), Seq<char>> {
    match find_crlf(raw) {
        None => Err("response header has no CRLF"@),
        Some(split) => {
            let hb = raw.take(split);
            if !valid_utf8(hb) {
                Err("response header is not UTF-8"@)
            } else {
                let h = decode_utf8(hb);
                if !header_has_code(h) {
                    Err("bad gemini status: "@ + debug_quoted(h))
                } else {
                    match spec_status_of(header_code(h)) {
                        None => Err("unknown gemini status class: "@ + decimal(
                            header_code(h) as nat,
                        )),
                        Some(status) => Ok(
                            (
                                status,
                                header_code(h),
                                trim_start(h.skip(2)),
                                if status == Status::Success {
                                    raw.skip(split + 2)
                                } else {
                                    Seq::<u8>::empty()
                                },
                            ),
                        ),
                    }
                }
            }
        },
    }
}

/// Parses a whole response: a status line ending in CRLF, then the body.
/// Every refusal is a protocol error: no CRLF, a header that is not UTF-8,
/// a header without two leading digits, or a class the protocol does not define.
pub fn parse_response(raw: &[u8]) -> (r: Result<Response, ClientError>)
    ensures
        match spec_response(raw@) {
            Ok((status, code, meta, body)) => r matches Ok(resp) && resp.status == status
                && resp.code == code && resp.meta@ == meta && resp.body@ == body,
            Err(m) => r matches Err(ClientError::Protocol(x)) && x@ == m,
        },
{
    let split = match find_crlf_in(raw) {
        Some(i) => i,
        None => return Err(ClientError::Protocol("response header has no CRLF".to_string())),
    };
    proof {
        crate::bytes::lemma_find_crlf(raw@);
    }
    let header_bytes: &[u8] = &raw[0..split];
    assert(header_bytes@ =~= raw@.take(split as int));
    let header = match str_from_utf8(header_bytes) {
        Some(h) => h,
        None => return Err(ClientError::Protocol("response header is not UTF-8".to_string())),
    };
    let h = chars_of(header);
    if h.len() < 2 || !('0' <= h[0] && h[0] <= '9') || !('0' <= h[1] && h[1] <= '9') {
        let shown = debug_string(header);
        return Err(ClientError::Protocol(concat("bad gemini status: ", shown.as_str())));
    }
    let code = ((h[0] as u32 - 48) * 10 + (h[1] as u32 - 48)) as u8;
    let rest = slice_chars(h.as_slice(), 2, h.len());
    let start = trim_start_at(rest.as_slice());
    let meta = string_of(slice_chars(rest.as_slice(), start, rest.len()).as_slice());
    let status = match Status::from_code(code) {
        Some(s) => s,
        None => {
            let digits = decimal_chars(code as u64);
            let text = string_of(digits.as_slice());
            return Err(
                ClientError::Protocol(concat("unknown gemini status class: ", text.as_str())),
            );
        },
    };
    assert(split + 1 < raw.len());
    let body = if status == Status::Success {
        copy_range(raw, split + 2, raw.len())
    } else {
        Vec::new()
    };
    assert(body@ =~= (if status == Status::Success {
        raw@.skip(split + 2)
    } else {
        Seq::<u8>::empty()
    }));
    Ok(Response { status, code, meta, body })
}


/// The request an exchange sends for the URL serialised as `url`: the URL
/// and CRLF, refused when over the protocol's 1024 bytes.
pub fn request_for(url: &str) -> (r: Result<String, ClientError>)
    ensures
        ({
            let req = url@ + seq!['\r', '\n'];
            if encode_utf8(req).len() > MAX_REQUEST {
                r matches Err(ClientError::Protocol(m)) && m@ == "request exceeds 1024 bytes"@
            } else {
                r matches Ok(x) && x@ == req
            }
        }),
{
    proof {
        reveal_strlit("\r\n");
        assert("\r\n"@ =~= seq!['\r', '\n']);
    }
    let request = concat(url, "\r\n");
    let rs = request.as_str();
    let n = rs.as_bytes().len();
    assert(rs.spec_bytes() == encode_utf8(request@));
    if n > MAX_REQUEST {
        return Err(ClientError::Protocol("request exceeds 1024 bytes".to_string()));
    }
    Ok(request)
}

/// Where a gemini URL leads: its host, and its port or 1965.
pub fn target(parts: &UrlParts) -> (r: Result<(String, u16), ClientError>)
    ensures
        match parts.host {
            None => r matches Err(ClientError::BadUrl(m)) && m@ == "gemini URL has no host"@,
            Some(h) => r matches Ok((host, port)) && host@ == h@ && port == (match parts.port {
                Some(p) => p,
                None => DEFAULT_PORT,
            }),
        },
{
    match &parts.host {
        None => Err(ClientError::BadUrl("gemini URL has no host".to_string())),
        Some(h) => Ok(
            (
                h.clone(),
                match parts.port {
                    Some(p) => p,
                    None => DEFAULT_PORT,
                },
            ),
        ),
    }
}

/// Where a gemini URL, given as text, leads: a URL that does not parse is
/// refused with the parser's words; a parsed one goes as `target` says.
pub fn plan_fetch(url: &str) -> (r: Result<(String, u16), ClientError>)
    ensures
        match url_parse(url@) {
            Err(e) => r matches Err(ClientError::BadUrl(m)) && m@ == e,
            Ok(u) => match u.1 {
                None => r matches Err(ClientError::BadUrl(m)) && m@ == "gemini URL has no host"@,
                Some(h) => r matches Ok((host, port)) && host@ == h && port == (match u.2 {
                    Some(p) => p,
                    None => DEFAULT_PORT,
                }),
            },
        },
{
    match parse_url(url) {
        Err(e) => Err(ClientError::BadUrl(e)),
        Ok(parts) => target(&parts),
    }
}

/// What a failed handshake is reported as: a changed certificate when the
/// host had a pin and a different one was presented, else a connection
/// failure with the handshake's own words.
pub fn handshake_failure(
    host: &str,
    pinned: Option<[u8; 32]>,
    seen: Option<[u8; 32]>,
    detail: &str,
) -> (r: ClientError)
    ensures
        match (pinned, seen) {
            (Some(p), Some(s)) if p@ != s@ => r matches ClientError::CertificateChanged {
                host: h,
                pinned: ph,
                seen: sh,
            } && h@ == host@ && ph@ == spec_hex(p@) && sh@ == spec_hex(s@),
            _ => r matches ClientError::Connect(m) && m@ == "tls handshake: "@ + detail@,
        },
{
    match (pinned, seen) {
        (Some(p), Some(s)) => {
            if !same_fingerprint(&p, &s) {
                return ClientError::CertificateChanged {
                    host: host.to_string(),
                    pinned: hex(&p),
                    seen: hex(&s),
                };
            }
        },
        _ => {},
    }
    ClientError::Connect(concat("tls handshake: ", detail))
}

/// What to pin after a clean handshake: the presented fingerprint, on a
/// first contact only.
pub fn pin_to_record(pinned: Option<[u8; 32]>, seen: Option<[u8; 32]>) -> (r: Option<[u8; 32]>)
    ensures
        r == (if pinned is None {
            seen
        } else {
            None
        }),
{
    if pinned.is_none() {
        seen
    } else {
        None
    }
}

} // verus!
