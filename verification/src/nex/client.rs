//! What a nex client decides: where a URL leads, the line it sends, and
//! when the answer has grown past its limit. The socket is the caller's.
use vstd::prelude::*;

use crate::nex::NEX_PORT;
use crate::text::{chars_of, concat, decimal, decimal_chars, eq_str, string_of};
use crate::urls::{parse_url, url_parse, UrlModel, UrlParts};

verus! {

broadcast use vstd::string::group_string_axioms;

/// Why a fetch failed. Nex has no protocol-level errors: a finished
/// exchange is whatever bytes the server sent.
#[derive(Debug)]
pub enum ClientError {
    BadUrl(String),
    Io(String),
    /// Which step ran out of time.
    Timeout(&'static str),
    BodyTooLarge { max: usize },
}

impl ClientError {
    /// A sentence saying what went wrong.
    pub fn to_string(&self) -> (r: String)
        ensures
            r@ == match self {
                ClientError::BadUrl(m) => "bad nex URL: "@ + m@,
                ClientError::Io(m) => "nex IO error: "@ + m@,
                ClientError::Timeout(step) => "nex "@ + step@ + " timed out"@,
                ClientError::BodyTooLarge { max } => "nex response exceeds "@ + decimal(
                    *max as nat,
                ) + " bytes"@,
            },
    {
        match self {
            ClientError::BadUrl(m) => concat("bad nex URL: ", m.as_str()),
            ClientError::Io(m) => concat("nex IO error: ", m.as_str()),
            ClientError::Timeout(step) => {
                let a = concat("nex ", step);
                concat(a.as_str(), " timed out")
            },
            ClientError::BodyTooLarge { max } => {
                let d = string_of(decimal_chars(*max as u64).as_slice());
                let a = concat("nex response exceeds ", d.as_str());
                concat(a.as_str(), " bytes")
            },
        }
    }
}

/// Where a parsed URL leads: it must be `nex://` with a host; the port is
/// 1900 unless given; the path is what is asked for.
pub open spec fn spec_target(u: UrlModel) -> Result<(Seq<char>, u16, Seq<char>), Seq<char>> {
    if u.0 != "nex"@ {
        Err("expected nex:// scheme, got "@ + u.0 + "://"@)
    } else {
        match u.1 {
            None => Err("URL has no host"@),
            Some(h) => Ok(
                (
                    h,
                    match u.2 {
                        Some(p) => p,
                        None => NEX_PORT,
                    },
                    u.3,
                ),
            ),
        }
    }
}

/// The host, port and path a parsed URL leads to, or why it leads nowhere.
pub fn target(parts: &UrlParts) -> (r: Result<(String, u16, String), ClientError>)
    ensures
        match spec_target(parts@) {
            Ok((h, p, path)) => r matches Ok((host, port, pa)) && host@ == h && port == p && pa@
                == path,
            Err(m) => r matches Err(ClientError::BadUrl(x)) && x@ == m,
        },
{
    proof {
        reveal_strlit("nex");
    }
    if !eq_str(chars_of(parts.scheme.as_str()).as_slice(), "nex") {
        let a = concat("expected nex:// scheme, got ", parts.scheme.as_str());
        return Err(ClientError::BadUrl(concat(a.as_str(), "://")));
    }
    let host = match &parts.host {
        Some(h) => h.clone(),
        None => return Err(ClientError::BadUrl("URL has no host".to_string())),
    };
    let port = match parts.port {
        Some(p) => p,
        None => NEX_PORT,
    };
    Ok((host, port, parts.path.clone()))
}

/// Where a `nex://` URL leads: the URL parsed, then `target`.
pub fn plan_fetch(url: &str) -> (r: Result<(String, u16, String), ClientError>)
    ensures
        match url_parse(url@) {
            Err(e) => r matches Err(ClientError::BadUrl(m)) && m@ == e,
            Ok(u) => match spec_target(u) {
                Ok((h, p, path)) => r matches Ok((host, port, pa)) && host@ == h && port == p
                    && pa@ == path,
                Err(m) => r matches Err(ClientError::BadUrl(x)) && x@ == m,
            },
        },
{
    match parse_url(url) {
        Err(e) => Err(ClientError::BadUrl(e)),
        Ok(parts) => target(&parts),
    }
}

/// The line a client sends: the path, which may be empty, and CRLF.
pub fn request_line(path: &str) -> (r: String)
    ensures
        r@ == path@ + seq!['\r', '\n'],
{
    proof {
        reveal_strlit("\r\n");
    }
    concat(path, "\r\n")
}

/// Adds a chunk of the answer to what has come so far, and says whether
/// the whole is still within `max_body` bytes.
pub fn take_chunk(body: &mut Vec<u8>, chunk: &[u8], max_body: usize) -> (r: bool)
    requires
        old(body)@.len() + chunk@.len() <= usize::MAX,
    ensures
        final(body)@ == old(body)@ + chunk@,
        r == (final(body)@.len() <= max_body),
{
    let ghost start = body@;
    let mut i: usize = 0;
    while i < chunk.len()
        invariant
            i <= chunk.len(),
            body@ == start + chunk@.take(i as int),
            start.len() + chunk@.len() <= usize::MAX,
        decreases chunk.len() - i,
    {
        body.push(chunk[i]);
        i = i + 1;
        assert(body@ =~= start + chunk@.take(i as int));
    }
    assert(chunk@.take(chunk.len() as int) =~= chunk@);
    body.len() <= max_body
}

} // verus!
