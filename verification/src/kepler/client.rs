//! What a kepler client decides: where a URL leads and whether over TLS,
//! the request it sends, how it reads the header line, and how much body
//! follows it. The socket is the caller's.
use vstd::prelude::*;
use vstd::string::StringSliceAdditionalSpecFns;
use vstd::utf8::{decode_utf8, encode_utf8, valid_utf8};

use crate::bytes::str_from_utf8;
use crate::kepler::wire::{
    parse_header, request_line, spec_parse_header, spec_request_line, CacheInfo, Header,
    HeaderModel, MalformedHeader, MAX_URI,
};
use crate::text::{chars_of, concat, eq_str};
use crate::urls::{parse_url, url_parse, UrlModel};

verus! {

broadcast use vstd::string::group_string_axioms;

/// Kepler's plaintext port.
pub const DEFAULT_PORT: u16 = 2009;

/// Kepler's port over TLS (`keplers://`).
pub const DEFAULT_TLS_PORT: u16 = 10009;

/// Why a fetch failed.
#[derive(Clone, Debug, PartialEq, Eq)]
pub enum ClientError {
    BadUrl(String),
    Connect(String),
    Io(String),
    Protocol(String),
}

impl ClientError {
    /// A sentence saying what went wrong.
    pub fn to_string(&self) -> (r: String)
        ensures
            r@ == match self {
                ClientError::BadUrl(m) => "bad url: "@ + m@,
                ClientError::Connect(m) => "connect: "@ + m@,
                ClientError::Io(m) => "io: "@ + m@,
                ClientError::Protocol(m) => "protocol: "@ + m@,
            },
    {
        match self {
            ClientError::BadUrl(m) => concat("bad url: ", m.as_str()),
            ClientError::Connect(m) => concat("connect: ", m.as_str()),
            ClientError::Io(m) => concat("io: ", m.as_str()),
            ClientError::Protocol(m) => concat("protocol: ", m.as_str()),
        }
    }
}

/// A response: the header and any body.
#[derive(Clone, Debug, PartialEq, Eq)]
pub struct Response {
    pub header: Header,
    pub body: Vec<u8>,
}

impl Response {
    /// A success's cache metadata.
    pub fn cache(&self) -> (r: Option<CacheInfo>)
        ensures
            r == match self.header {
                Header::Success { cache, .. } => Some(cache),
                _ => None,
            },
    {
        match &self.header {
            Header::Success { cache, .. } => Some(*cache),
            _ => None,
        }
    }

    /// A success's media type.
    pub fn mime(&self) -> (r: Option<&str>)
        ensures
            match self.header {
                Header::Success { mimetype, .. } => r matches Some(m) && m@ == mimetype@,
                _ => r is None,
            },
    {
        match &self.header {
            Header::Success { mimetype, .. } => Some(mimetype.as_str()),
            _ => None,
        }
    }
}

/// Where a fetch goes: the host, the port, and whether over TLS.
#[derive(Clone, Debug, PartialEq, Eq)]
pub struct Target {
    pub host: String,
    pub port: u16,
    pub secure: bool,
}

/// What a parsed URL of `uri_bytes` bytes leads to: the URI within 1024
/// bytes, without a fragment, with a host, and `kepler` (plaintext) or
/// `keplers` (TLS), the port defaulting by scheme; each refusal is its
/// reason.
pub open spec fn spec_target(u: UrlModel, uri_bytes: nat) -> Result<(Seq<char>, u16, bool), Seq<char>> {
    if uri_bytes > MAX_URI {
        Err("URI exceeds 1024 bytes"@)
    } else if u.6 is Some {
        Err("kepler URIs carry no fragment"@)
    } else if u.1 is None {
        Err("kepler URL has no host"@)
    } else if u.0 != "kepler"@ && u.0 != "keplers"@ {
        Err("scheme "@ + u.0 + " is not kepler"@)
    } else {
        let secure = u.0 == "keplers"@;
        Ok(
            (
                u.1.unwrap(),
                match u.2 {
                    Some(p) => p,
                    None => if secure {
                        DEFAULT_TLS_PORT
                    } else {
                        DEFAULT_PORT
                    },
                },
                secure,
            ),
        )
    }
}

/// Plans a fetch: the URL parsed and checked, and the request line with
/// the last-cached time and the wanted language.
pub fn plan_fetch(url: &str, last_cached: i64, language: &str) -> (r: Result<
    (Target, String),
    ClientError,
>)
    ensures
        match url_parse(url@) {
            Err(e) => r matches Err(ClientError::BadUrl(m)) && m@ == e,
            Ok(u) => match spec_target(u, encode_utf8(url@).len()) {
                Err(m) => r matches Err(ClientError::BadUrl(x)) && x@ == m,
                Ok((h, p, s)) => r matches Ok((t, line)) && t.host@ == h && t.port == p
                    && t.secure == s && line@ == spec_request_line(url@, last_cached, language@),
            },
        },
{
    let parts = match parse_url(url) {
        Ok(p) => p,
        Err(e) => return Err(ClientError::BadUrl(e)),
    };
    let n = url.as_bytes().len();
    assert(url.spec_bytes() == encode_utf8(url@));
    if n > MAX_URI {
        return Err(ClientError::BadUrl("URI exceeds 1024 bytes".to_string()));
    }
    if parts.fragment.is_some() {
        return Err(ClientError::BadUrl("kepler URIs carry no fragment".to_string()));
    }
    let host = match &parts.host {
        Some(h) => h.clone(),
        None => return Err(ClientError::BadUrl("kepler URL has no host".to_string())),
    };
    proof {
        reveal_strlit("kepler");
        reveal_strlit("keplers");
        assert("kepler"@.len() != "keplers"@.len());
    }
    let scheme = chars_of(parts.scheme.as_str());
    let secure = if eq_str(scheme.as_slice(), "kepler") {
        false
    } else if eq_str(scheme.as_slice(), "keplers") {
        true
    } else {
        let a = concat("scheme ", parts.scheme.as_str());
        return Err(ClientError::BadUrl(concat(a.as_str(), " is not kepler")));
    };
    let port = match parts.port {
        Some(p) => p,
        None => if secure {
            DEFAULT_TLS_PORT
        } else {
            DEFAULT_PORT
        },
    };
    Ok((Target { host, port, secure }, request_line(url, last_cached, language)))
}

/// Takes what one read of the header line gave (`None` once the stream has
/// ended): the end of the stream or a line feed closes the line (`true`);
/// a line past 1024 bytes is refused.
pub fn take_header_byte(line: &mut Vec<u8>, byte: Option<u8>) -> (r: Result<bool, ClientError>)
    ensures
        match byte {
            None => r matches Ok(done) && done && final(line)@ == old(line)@,
            Some(b) => if b == 10 {
                r matches Ok(done) && done && final(line)@ == old(line)@
            } else {
                final(line)@ == old(line)@.push(b) && if final(line)@.len() > MAX_URI {
                    r matches Err(ClientError::Protocol(m)) && m@ == "header line is unreasonable"@
                } else {
                    r matches Ok(done) && !done
                }
            },
        },
{
    match byte {
        None => Ok(true),
        Some(b) => {
            if b == 10 {
                return Ok(true);
            }
            line.push(b);
            if line.len() > MAX_URI {
                return Err(ClientError::Protocol("header line is unreasonable".to_string()));
            }
            Ok(false)
        },
    }
}

/// Reads the header line's bytes: UTF-8, then a header.
pub fn header_of(line: &[u8]) -> (r: Result<Header, ClientError>)
    ensures
        if !valid_utf8(line@) {
            r matches Err(ClientError::Protocol(m)) && m@ == "header is not UTF-8"@
        } else {
            match spec_parse_header(decode_utf8(line@)) {
                Ok(h) => r matches Ok(x) && x@ == h,
                Err(e) => r matches Err(ClientError::Protocol(m)) && m@ == e,
            }
        },
{
    let text = match str_from_utf8(line) {
        Some(t) => t,
        None => return Err(ClientError::Protocol("header is not UTF-8".to_string())),
    };
    match parse_header(text) {
        Ok(h) => Ok(h),
        Err(MalformedHeader(m)) => Err(ClientError::Protocol(m)),
    }
}

/// How much body follows a header.
#[derive(Clone, Copy, Debug, PartialEq, Eq, Structural)]
pub enum BodyPlan {
    /// None: only a success carries a body.
    Empty,
    /// The declared length.
    Exact(u64),
    /// Everything until the stream ends: the length was not declared.
    ToEnd,
}

/// How much body a header calls for.
pub fn plan_body(header: &Header) -> (r: BodyPlan)
    ensures
        r == match header@ {
            HeaderModel::Success { cache, .. } => if cache.length >= 0 {
                BodyPlan::Exact(cache.length as u64)
            } else {
                BodyPlan::ToEnd
            },
            _ => BodyPlan::Empty,
        },
{
    match header {
        Header::Success { cache, .. } => if cache.has_length() {
            BodyPlan::Exact(cache.length as u64)
        } else {
            BodyPlan::ToEnd
        },
        _ => BodyPlan::Empty,
    }
}

} // verus!
