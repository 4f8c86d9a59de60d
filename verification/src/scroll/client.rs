//! What a scroll client decides: where a URL leads, how it reads the lines
//! before the body, and what a failure is reported as. The TLS connection
//! is the caller's.
use vstd::prelude::*;
use vstd::utf8::{decode_utf8, valid_utf8};

use crate::bytes::str_from_utf8;
use crate::gemini::client::ClientError as GeminiError;
use crate::scroll::wire::{Header, DEFAULT_PORT};
use crate::text::{chars_of, concat, eq_str};
use crate::urls::{parse_url, url_parse, UrlParts};

verus! {

broadcast use vstd::string::group_string_axioms;

/// The longest line read before the body.
pub const MAX_LINE: usize = 4096;

/// Why a fetch failed.
#[derive(Clone, Debug, PartialEq, Eq)]
pub enum ClientError {
    BadUrl(String),
    Connect(String),
    Io(String),
    Protocol(String),
    /// The host's certificate is not the one pinned on first contact.
    CertificateChanged { host: String, pinned: String, seen: String },
}

impl ClientError {
    /// A sentence saying what went wrong.
    pub fn to_string(&self) -> (r: String)
        ensures
            r@ == match self {
                ClientError::BadUrl(m) => "bad url: "@ + m@,
                ClientError::Connect(m) => "connect: "@ + m@,
                ClientError::Io(m) => "io: "@ + m@,
                ClientError::Protocol(m) => "protocol: "@ + m@,
                ClientError::CertificateChanged { host, pinned, seen } => "certificate for "@
                    + host@ + " changed: pinned "@ + pinned@ + ", saw "@ + seen@,
            },
    {
        match self {
            ClientError::BadUrl(m) => concat("bad url: ", m.as_str()),
            ClientError::Connect(m) => concat("connect: ", m.as_str()),
            ClientError::Io(m) => concat("io: ", m.as_str()),
            ClientError::Protocol(m) => concat("protocol: ", m.as_str()),
            ClientError::CertificateChanged { host, pinned, seen } => {
                let a = concat("certificate for ", host.as_str());
                let b = concat(a.as_str(), " changed: pinned ");
                let c = concat(b.as_str(), pinned.as_str());
                let d = concat(c.as_str(), ", saw ");
                concat(d.as_str(), seen.as_str())
            },
        }
    }

    /// A failure of the gemini connection a scroll fetch rides on, as the
    /// same kind of failure.
    pub fn from_gemini(error: GeminiError) -> (r: Self)
        ensures
            match error {
                GeminiError::BadUrl(m) => r matches ClientError::BadUrl(x) && x@ == m@,
                GeminiError::Connect(m) => r matches ClientError::Connect(x) && x@ == m@,
                GeminiError::Io(m) => r matches ClientError::Io(x) && x@ == m@,
                GeminiError::Protocol(m) => r matches ClientError::Protocol(x) && x@ == m@,
                GeminiError::CertificateChanged { host, pinned, seen } => r
                    matches ClientError::CertificateChanged { host: h, pinned: p, seen: s }
                    && h@ == host@ && p@ == pinned@ && s@ == seen@,
            },
    {
        match error {
            GeminiError::BadUrl(m) => ClientError::BadUrl(m),
            GeminiError::Connect(m) => ClientError::Connect(m),
            GeminiError::Io(m) => ClientError::Io(m),
            GeminiError::Protocol(m) => ClientError::Protocol(m),
            GeminiError::CertificateChanged { host, pinned, seen } => {
                ClientError::CertificateChanged { host, pinned, seen }
            },
        }
    }
}

/// A response: the header and any body.
#[derive(Clone, Debug, PartialEq, Eq)]
pub struct Response {
    pub header: Header,
    pub body: Vec<u8>,
}

/// Where a scroll URL, given as text, leads: a URL that does not parse is
/// refused with the parser's words; a parsed one goes as `target` says.
pub fn plan_fetch(url: &str) -> (r: Result<(String, u16), ClientError>)
    ensures
        match url_parse(url@) {
            Err(e) => r matches Err(ClientError::BadUrl(m)) && m@ == e,
            Ok(u) => if u.0 != "scroll"@ {
                r matches Err(ClientError::BadUrl(m)) && m@ == "scheme "@ + u.0 + " is not scroll"@
            } else {
                match u.1 {
                    None => r matches Err(ClientError::BadUrl(m)) && m@ == "scroll URL has no host"@,
                    Some(h) => r matches Ok((host, port)) && host@ == h && port == (match u.2 {
                        Some(p) => p,
                        None => DEFAULT_PORT,
                    }),
                }
            },
        },
{
    match parse_url(url) {
        Err(e) => Err(ClientError::BadUrl(e)),
        Ok(parts) => target(&parts),
    }
}

/// Where a scroll URL leads: it must be `scroll` with a host; the port is
/// 5699 unless given.
pub fn target(parts: &UrlParts) -> (r: Result<(String, u16), ClientError>)
    ensures
        if parts.scheme@ != "scroll"@ {
            r matches Err(ClientError::BadUrl(m)) && m@ == "scheme "@ + parts.scheme@
                + " is not scroll"@
        } else {
            match parts.host {
                None => r matches Err(ClientError::BadUrl(m)) && m@ == "scroll URL has no host"@,
                Some(h) => r matches Ok((host, port)) && host@ == h@ && port == (match parts.port {
                    Some(p) => p,
                    None => DEFAULT_PORT,
                }),
            }
        },
{
    proof {
        reveal_strlit("scroll");
    }
    if !eq_str(chars_of(parts.scheme.as_str()).as_slice(), "scroll") {
        let a = concat("scheme ", parts.scheme.as_str());
        return Err(ClientError::BadUrl(concat(a.as_str(), " is not scroll")));
    }
    match &parts.host {
        None => Err(ClientError::BadUrl("scroll URL has no host".to_string())),
        Some(h) => Ok(
            (
                h.clone(),
                match parts.port {
                    Some(p) => p,
                    None => DEFAULT_PORT,
                },
            ),
        ),
    }
}

/// Takes what one read of a line before the body gave (`None` once the
/// stream has ended): the end of the stream or a line feed closes the line
/// (`true`); a line past 4096 bytes is refused.
pub fn take_line_byte(line: &mut Vec<u8>, byte: Option<u8>) -> (r: Result<bool, ClientError>)
    ensures
        match byte {
            None => r matches Ok(done) && done && final(line)@ == old(line)@,
            Some(b) => if b == 10 {
                r matches Ok(done) && done && final(line)@ == old(line)@
            } else {
                final(line)@ == old(line)@.push(b) && if final(line)@.len() > MAX_LINE {
                    r matches Err(ClientError::Protocol(m)) && m@ == "header line is unreasonable"@
                } else {
                    r matches Ok(done) && !done
                }
            },
        },
{
    match byte {
        None => Ok(true),
        Some(b) => {
            if b == 10 {
                return Ok(true);
            }
            line.push(b);
            if line.len() > MAX_LINE {
                return Err(ClientError::Protocol("header line is unreasonable".to_string()));
            }
            Ok(false)
        },
    }
}

/// A line's bytes as text, which must be UTF-8.
pub fn line_text(line: &[u8]) -> (r: Result<String, ClientError>)
    ensures
        if valid_utf8(line@) {
            r matches Ok(s) && s@ == decode_utf8(line@)
        } else {
            r matches Err(ClientError::Protocol(m)) && m@ == "header is not UTF-8"@
        },
{
    match str_from_utf8(line) {
        Some(t) => Ok(t.to_string()),
        None => Err(ClientError::Protocol("header is not UTF-8".to_string())),
    }
}

} // verus!
