//! What a spartan client decides: where a URL points and what it uploads,
//! the request line, and how a raw response reads. The connection itself is
//! the caller's.
use vstd::prelude::*;
use vstd::utf8::{decode_utf8, encode_utf8, valid_utf8};

use crate::bytes::{copy_range, find_crlf, find_crlf_in, str_from_utf8};
use crate::spartan::{spec_status, Status, SPARTAN_PORT};
use crate::text::{
    append_chars, chars_of, concat, debug_quoted, debug_string, decimal, decimal_chars,
    parse_u8, parse_unsigned, split_once, split_once_char, string_of, trim, trimmed,
};
use crate::urls::{parse_url, pct_decode, percent_decode, url_parse};

verus! {

broadcast use vstd::string::group_string_axioms;

/// A parsed response: the status digit and meta, and the body, which only a
/// success carries.
#[derive(Debug, Clone, PartialEq, Eq)]
pub struct Response {
    pub status: Status,
    /// MIME type, redirect path or message.
    pub meta: String,
    pub body: Vec<u8>,
}

impl Response {
    /// For a redirect, the path to request again on the same host.
    pub fn redirect_path(&self) -> (r: Option<&str>)
        ensures
            self.status == Status::Redirect ==> (r matches Some(p) && p@ == self.meta@),
            self.status != Status::Redirect ==> r is None,
    {
        if self.status == Status::Redirect {
            Some(self.meta.as_str())
        } else {
            None
        }
    }
}

/// Why a request failed before a response was read.
#[derive(Debug)]
pub enum ClientError {
    BadUrl(String),
    Io(String),
    /// Which step ran out of time.
    Timeout(&'static str),
    Protocol(String),
    BodyTooLarge { max: usize },
}

impl ClientError {
    /// A sentence saying what went wrong.
    pub fn to_string(&self) -> (r: String)
        ensures
            r@ == match self {
                ClientError::BadUrl(m) => "bad spartan URL: "@ + m@,
                ClientError::Io(m) => "spartan IO error: "@ + m@,
                ClientError::Timeout(step) => "spartan "@ + step@ + " timed out"@,
                ClientError::Protocol(m) => "spartan protocol error: "@ + m@,
                ClientError::BodyTooLarge { max } => "spartan response body exceeds "@ + decimal(
                    *max as nat,
                ) + " bytes"@,
            },
    {
        match self {
            ClientError::BadUrl(m) => concat("bad spartan URL: ", m.as_str()),
            ClientError::Io(m) => concat("spartan IO error: ", m.as_str()),
            ClientError::Timeout(step) => {
                let a = concat("spartan ", step);
                concat(a.as_str(), " timed out")
            },
            ClientError::Protocol(m) => concat("spartan protocol error: ", m.as_str()),
            ClientError::BodyTooLarge { max } => {
                let d = string_of(decimal_chars(*max as u64).as_slice());
                let a = concat("spartan response body exceeds ", d.as_str());
                concat(a.as_str(), " bytes")
            },
        }
    }
}

/// The request line: host, path and the data block's length, then CRLF.
pub open spec fn spec_request_line(host: Seq<char>, path: Seq<char>, len: nat) -> Seq<char> {
    host + seq![' '] + path + seq![' '] + decimal(len) + seq!['\r', '\n']
}

/// Builds a request line.
pub fn request_line(host: &str, path: &str, data_len: usize) -> (r: String)
    ensures
        r@ == spec_request_line(host@, path@, data_len as nat),
{
    let mut v = chars_of(host);
    v.push(' ');
    append_chars(&mut v, chars_of(path).as_slice());
    v.push(' ');
    append_chars(&mut v, decimal_chars(data_len as u64).as_slice());
    v.push('\r');
    v.push('\n');
    assert(v@ =~= spec_request_line(host@, path@, data_len as nat));
    string_of(v.as_slice())
}

/// What a raw response reads as: a status line up to the first CRLF, in
/// UTF-8, a decimal digit naming a status, and the rest after the first
/// space, trimmed, as the meta; each refusal is a message.
pub open spec fn spec_parse_response(raw: Seq<u8>) -> Result<(Status, Seq<char>, Seq<u8>), Seq<char>> {
    match find_crlf(raw) {
        None => Err("status line has no CRLF"@),
        Some(split) => {
            let lb = raw.take(split);
            if !valid_utf8(lb) {
                Err("status line is not UTF-8"@)
            } else {
                let line = decode_utf8(lb);
                let (code, meta) = match split_once(line, ' ') {
                    Some((c, m)) => (c, trim(m)),
                    None => (line, seq![]),
                };
                match parse_unsigned(code, 255) {
                    None => Err("bad status line: "@ + debug_quoted(line)),
                    Some(n) => match spec_status(n as u8) {
                        None => Err("unknown status digit: "@ + decimal(n)),
                        Some(s) => Ok(
                            (
                                s,
                                meta,
                                if s == Status::Success {
                                    raw.skip(split + 2)
                                } else {
                                    seq![]
                                },
                            ),
                        ),
                    },
                }
            }
        },
    }
}

/// Splits a raw response into its status line and body.
pub fn parse_response(raw: &[u8]) -> (r: Result<Response, ClientError>)
    ensures
        match spec_parse_response(raw@) {
            Ok((s, m, b)) => r matches Ok(x) && x.status == s && x.meta@ == m && x.body@ == b,
            Err(e) => r matches Err(ClientError::Protocol(x)) && x@ == e,
        },
{
    let split = match find_crlf_in(raw) {
        Some(i) => i,
        None => return Err(ClientError::Protocol("status line has no CRLF".to_string())),
    };
    proof {
        crate::bytes::lemma_find_crlf(raw@);
    }
    assert(split + 2 <= raw.len());
    let line_bytes = copy_range(raw, 0, split);
    assert(line_bytes@ =~= raw@.take(split as int));
    let line = match str_from_utf8(line_bytes.as_slice()) {
        Some(l) => l,
        None => return Err(ClientError::Protocol("status line is not UTF-8".to_string())),
    };
    let cs = chars_of(line);
    let (code, meta) = match split_once_char(cs.as_slice(), ' ') {
        Some((c, m)) => (c, trimmed(m.as_slice())),
        None => (cs, Vec::new()),
    };
    let n = match parse_u8(code.as_slice()) {
        Some(n) => n,
        None => {
            let q = debug_string(line);
            return Err(ClientError::Protocol(concat("bad status line: ", q.as_str())));
        },
    };
    let status = match Status::from_code(n) {
        Some(s) => s,
        None => {
            let d = string_of(decimal_chars(n as u64).as_slice());
            return Err(ClientError::Protocol(concat("unknown status digit: ", d.as_str())));
        },
    };
    let body = if status == Status::Success {
        let b = copy_range(raw, split + 2, raw.len());
        assert(b@ =~= raw@.skip(split + 2));
        b
    } else {
        Vec::new()
    };
    Ok(Response { status, meta: string_of(meta.as_slice()), body })
}

/// What IDNA's domain-to-ASCII makes of a domain, or the text of its
/// errors: a function of the domain alone.
pub uninterp spec fn idna_ascii(domain: Seq<char>) -> Result<Seq<char>, Seq<char>>;

/// `idna::domain_to_ascii`: the result is `idna_ascii` of the domain; the
/// UTS 46 processing itself is not stated here.
#[verifier::external_body]
fn domain_to_ascii(domain: &str) -> (r: Result<String, String>)
    ensures
        match idna_ascii(domain@) {
            Ok(a) => r matches Ok(x) && x@ == a,
            Err(e) => r matches Err(x) && x@ == e,
        },
{
    idna::domain_to_ascii(domain).map_err(|error| error.to_string())
}

/// Every character is ASCII.
pub open spec fn all_ascii(s: Seq<char>) -> bool {
    forall|i: int| 0 <= i < s.len() ==> (#[trigger] s[i] as u32) < 128
}

fn is_all_ascii(s: &[char]) -> (r: bool)
    ensures
        r == all_ascii(s@),
{
    let mut i: usize = 0;
    while i < s.len()
        invariant
            i <= s.len(),
            forall|k: int| 0 <= k < i ==> (s@[k] as u32) < 128,
        decreases s.len() - i,
    {
        if s[i] as u32 >= 128 {
            return false;
        }
        i = i + 1;
    }
    true
}

/// The host as it goes on the request line: plain ASCII without `%` as it
/// is; otherwise percent-decoded, which must be UTF-8, and run through IDNA
/// unless that already made it ASCII.
pub open spec fn spec_request_host(raw: Seq<char>) -> Result<Seq<char>, Seq<char>> {
    if all_ascii(raw) && !raw.contains('%') {
        Ok(raw)
    } else {
        let bytes = pct_decode(encode_utf8(raw));
        if !valid_utf8(bytes) {
            Err("host is not UTF-8"@)
        } else if all_ascii(decode_utf8(bytes)) {
            Ok(decode_utf8(bytes))
        } else {
            match idna_ascii(decode_utf8(bytes)) {
                Ok(a) => Ok(a),
                Err(e) => Err("IDN conversion failed: "@ + e),
            }
        }
    }
}

fn request_host(raw: &str) -> (r: Result<String, ClientError>)
    ensures
        match spec_request_host(raw@) {
            Ok(h) => r matches Ok(x) && x@ == h,
            Err(e) => r matches Err(ClientError::BadUrl(x)) && x@ == e,
        },
{
    let cs = chars_of(raw);
    let has_percent = match crate::text::find_char(cs.as_slice(), '%') {
        Some(_) => true,
        None => false,
    };
    proof {
        crate::text::lemma_find(cs@, '%');
        if raw@.contains('%') {
            let k = choose|k: int| 0 <= k < raw@.len() && raw@[k] == '%';
            assert(cs@[k] == '%');
        }
    }
    if is_all_ascii(cs.as_slice()) && !has_percent {
        return Ok(raw.to_string());
    }
    let bytes = percent_decode(raw);
    let decoded = match str_from_utf8(bytes.as_slice()) {
        Some(d) => d,
        None => return Err(ClientError::BadUrl("host is not UTF-8".to_string())),
    };
    if is_all_ascii(chars_of(decoded).as_slice()) {
        return Ok(decoded.to_string());
    }
    match domain_to_ascii(decoded) {
        Ok(a) => Ok(a),
        Err(e) => Err(ClientError::BadUrl(concat("IDN conversion failed: ", e.as_str()))),
    }
}

/// Maps a `spartan://` URL to its request components: the host as the
/// request line carries it, the port (300 by default), the path (`/` when
/// empty), and the query, percent-decoded, as the data to upload. Any other
/// scheme, or a URL without a host, is refused.
pub fn split_url(input: &str) -> (r: Result<(String, u16, String, Option<Vec<u8>>), ClientError>)
    ensures
        match url_parse(input@) {
            Err(e) => r matches Err(ClientError::BadUrl(x)) && x@ == e,
            Ok(u) => if u.0 != "spartan"@ {
                r matches Err(ClientError::BadUrl(x)) && x@ == "expected spartan:// scheme, got "@
                    + u.0 + "://"@
            } else {
                match u.1 {
                    None => r matches Err(ClientError::BadUrl(x)) && x@ == "URL has no host"@,
                    Some(h) => match spec_request_host(h) {
                        Err(e) => r matches Err(ClientError::BadUrl(x)) && x@ == e,
                        Ok(rh) => r matches Ok(t) && t.0@ == rh && t.1 == (match u.2 {
                            Some(n) => n,
                            None => SPARTAN_PORT,
                        }) && t.2@ == (if u.3.len() == 0 {
                            seq!['/']
                        } else {
                            u.3
                        }) && match u.4 {
                            Some(q) => t.3 matches Some(d) && d@ == pct_decode(encode_utf8(q)),
                            None => t.3 is None,
                        },
                    },
                }
            },
        },
{
    let parts = match parse_url(input) {
        Ok(p) => p,
        Err(e) => return Err(ClientError::BadUrl(e)),
    };
    proof {
        reveal_strlit("spartan");
    }
    if !crate::text::eq_str(chars_of(parts.scheme.as_str()).as_slice(), "spartan") {
        let a = concat("expected spartan:// scheme, got ", parts.scheme.as_str());
        return Err(ClientError::BadUrl(concat(a.as_str(), "://")));
    }
    let host = match &parts.host {
        Some(h) => match request_host(h.as_str()) {
            Ok(x) => x,
            Err(e) => return Err(e),
        },
        None => return Err(ClientError::BadUrl("URL has no host".to_string())),
    };
    let port = match parts.port {
        Some(n) => n,
        None => SPARTAN_PORT,
    };
    let path = if chars_of(parts.path.as_str()).len() == 0 {
        proof {
            reveal_strlit("/");
        }
        "/".to_string()
    } else {
        parts.path.clone()
    };
    let data = match &parts.query {
        Some(q) => Some(percent_decode(q.as_str())),
        None => None,
    };
    Ok((host, port, path, data))
}

} // verus!
