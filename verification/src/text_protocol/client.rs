//! What a text-protocol client decides: where an IRI points, and how the
//! header line of a reply reads. The connection itself is the caller's.
use vstd::prelude::*;
use vstd::utf8::{decode_utf8, valid_utf8};

use crate::bytes::str_from_utf8;
use crate::text::{chars_of, concat, debug_quoted, debug_string, eq_str};
use crate::text_protocol::{
    parse_header, spec_parse_header, Header, DEFAULT_PORT, DEFAULT_TLS_PORT,
};
use crate::urls::{parse_url, url_parse};

verus! {

broadcast use vstd::string::group_string_axioms;

#[derive(Clone, Debug, PartialEq, Eq)]
pub enum ClientError {
    BadUrl(String),
    Connect(String),
    Io(String),
    /// The reply's first line was not one of the three the protocol has.
    Protocol(String),
}

impl ClientError {
    /// A sentence saying what went wrong.
    pub fn to_string(&self) -> (r: String)
        ensures
            r@ == match self {
                ClientError::BadUrl(m) => "bad url: "@ + m@,
                ClientError::Connect(m) => "connect: "@ + m@,
                ClientError::Io(m) => "io: "@ + m@,
                ClientError::Protocol(m) => "protocol: "@ + m@,
            },
    {
        match self {
            ClientError::BadUrl(m) => concat("bad url: ", m.as_str()),
            ClientError::Connect(m) => concat("connect: ", m.as_str()),
            ClientError::Io(m) => concat("io: ", m.as_str()),
            ClientError::Protocol(m) => concat("protocol: ", m.as_str()),
        }
    }
}

/// One response: the header, and the body for a `20`.
#[derive(Clone, Debug, PartialEq, Eq)]
pub struct Response {
    pub header: Header,
    pub body: Vec<u8>,
}

/// Where to connect for a `text://` IRI: its host, and its port or the
/// default of the transport (plain TCP or TLS). Another scheme, or an IRI
/// without a host, is refused.
pub fn plan_fetch(iri: &str, tls: bool) -> (r: Result<(String, u16), ClientError>)
    ensures
        match url_parse(iri@) {
            Err(e) => r matches Err(ClientError::BadUrl(m)) && m@ == e,
            Ok(u) => if u.0 != "text"@ {
                r matches Err(ClientError::BadUrl(m)) && m@ == "scheme "@ + u.0 + " is not text"@
            } else {
                match u.1 {
                    None => r matches Err(ClientError::BadUrl(m)) && m@ == "text IRI has no host"@,
                    Some(h) => r matches Ok((host, port)) && host@ == h && port == (match u.2 {
                        Some(n) => n,
                        None => if tls {
                            DEFAULT_TLS_PORT
                        } else {
                            DEFAULT_PORT
                        },
                    }),
                }
            },
        },
{
    let parts = match parse_url(iri) {
        Ok(p) => p,
        Err(e) => return Err(ClientError::BadUrl(e)),
    };
    proof {
        reveal_strlit("text");
    }
    if !eq_str(chars_of(parts.scheme.as_str()).as_slice(), "text") {
        let a = concat("scheme ", parts.scheme.as_str());
        return Err(ClientError::BadUrl(concat(a.as_str(), " is not text")));
    }
    match &parts.host {
        None => Err(ClientError::BadUrl("text IRI has no host".to_string())),
        Some(h) => {
            let port = match parts.port {
                Some(n) => n,
                None => if tls {
                    DEFAULT_TLS_PORT
                } else {
                    DEFAULT_PORT
                },
            };
            Ok((h.clone(), port))
        },
    }
}

/// Reads the header line of a reply (its bytes up to the line feed): it
/// must be UTF-8 and one of the three statuses.
pub fn read_header(line: &[u8]) -> (r: Result<Header, ClientError>)
    ensures
        !valid_utf8(line@) ==> (r matches Err(ClientError::Protocol(m)) && m@
            == "header is not UTF-8"@),
        valid_utf8(line@) ==> match spec_parse_header(decode_utf8(line@)) {
            Some((s, m)) => r matches Ok(h) && h.status == s && h.meta@ == m,
            None => r matches Err(ClientError::Protocol(m)) && m@ == "not a text-protocol status: "@
                + debug_quoted(decode_utf8(line@)),
        },
{
    let text = match str_from_utf8(line) {
        Some(t) => t,
        None => return Err(ClientError::Protocol("header is not UTF-8".to_string())),
    };
    match parse_header(text) {
        Some(h) => Ok(h),
        None => {
            let q = debug_string(text);
            Err(ClientError::Protocol(concat("not a text-protocol status: ", q.as_str())))
        },
    }
}


/// Takes what one read of the header line gave (`None` once the stream has
/// ended): the end of the stream or a line feed closes the line (`true`);
/// a line past 4096 bytes is refused.
pub fn take_header_byte(line: &mut Vec<u8>, byte: Option<u8>) -> (r: Result<bool, ClientError>)
    ensures
        match byte {
            None => r matches Ok(done) && done && final(line)@ == old(line)@,
            Some(b) => if b == 10 {
                r matches Ok(done) && done && final(line)@ == old(line)@
            } else {
                final(line)@ == old(line)@.push(b) && if final(line)@.len() > 4096 {
                    r matches Err(ClientError::Protocol(m)) && m@ == "header line is unreasonable"@
                } else {
                    r matches Ok(done) && !done
                }
            },
        },
{
    match byte {
        None => Ok(true),
        Some(b) => {
            if b == 10 {
                return Ok(true);
            }
            line.push(b);
            if line.len() > 4096 {
                return Err(ClientError::Protocol("header line is unreasonable".to_string()));
            }
            Ok(false)
        },
    }
}

} // verus!
