//! What a finger client decides: the query a URL names and where to send
//! it. The connection itself is the caller's.
use vstd::prelude::*;

use crate::bytes::{lossy_text, string_from_utf8_lossy};
use crate::finger::Query;
use crate::text::{chars_of, concat, opt_view, slice_chars, string_of};
use crate::urls::{parse_url, url_parse, UrlModel, UrlParts};

verus! {

broadcast use vstd::string::group_string_axioms;

/// Finger's well-known port.
pub const DEFAULT_PORT: u16 = 79;

/// What can go wrong fingering a host.
#[derive(Clone, Debug, PartialEq, Eq)]
pub enum ClientError {
    /// The URL could not be parsed, or it lacks a host.
    BadUrl(String),
    /// The TCP connection could not be established.
    Connect(String),
    /// A read or write failed mid-exchange.
    Io(String),
}

impl ClientError {
    /// A sentence saying what went wrong.
    pub fn to_string(&self) -> (r: String)
        ensures
            r@ == match self {
                ClientError::BadUrl(m) => "bad url: "@ + m@,
                ClientError::Connect(m) => "connect: "@ + m@,
                ClientError::Io(m) => "io: "@ + m@,
            },
    {
        match self {
            ClientError::BadUrl(m) => concat("bad url: ", m.as_str()),
            ClientError::Connect(m) => concat("connect: ", m.as_str()),
            ClientError::Io(m) => concat("io: ", m.as_str()),
        }
    }
}

/// A finger reply: free-form text, kept as bytes since RFC 1288 fixes no
/// encoding.
#[derive(Clone, Debug, PartialEq, Eq)]
pub struct Response {
    pub body: Vec<u8>,
}

impl Response {
    /// The reply as text, anything that is not UTF-8 replaced.
    pub fn text(&self) -> (r: String)
        ensures
            r@ == lossy_text(self.body@),
    {
        string_from_utf8_lossy(self.body.as_slice())
    }
}

/// A URL path without its leading slashes.
pub open spec fn strip_slashes(p: Seq<char>) -> Seq<char>
    decreases p.len(),
{
    if p.len() > 0 && p[0] == '/' {
        strip_slashes(p.drop_first())
    } else {
        p
    }
}

/// The user a URL names: its path without leading slashes if that is not
/// empty, else its user name, else none (the host's listing).
pub open spec fn spec_target(path: Seq<char>, username: Seq<char>) -> Option<Seq<char>> {
    if strip_slashes(path).len() > 0 {
        Some(strip_slashes(path))
    } else if username.len() > 0 {
        Some(username)
    } else {
        None
    }
}

/// The query a parsed finger URL names; it is never verbose.
pub fn query_from_url(url: &UrlParts) -> (r: Query)
    ensures
        opt_view(r.user) == spec_target(url.path@, url.username@),
        !r.verbose,
{
    let p = chars_of(url.path.as_str());
    let mut i: usize = 0;
    assert(p@.skip(0) =~= p@);
    while i < p.len() && p[i] == '/'
        invariant
            i <= p.len(),
            strip_slashes(p@) == strip_slashes(p@.skip(i as int)),
        decreases p.len() - i,
    {
        assert(p@.skip(i as int).drop_first() =~= p@.skip(i + 1));
        i = i + 1;
    }
    let rest = slice_chars(p.as_slice(), i, p.len());
    assert(rest@ =~= p@.skip(i as int));
    let user = if rest.len() > 0 {
        Some(string_of(rest.as_slice()))
    } else if chars_of(url.username.as_str()).len() > 0 {
        Some(url.username.clone())
    } else {
        None
    };
    Query { user, verbose: false }
}

/// Where and what to ask for a finger URL.
#[derive(Clone, Debug, PartialEq, Eq)]
pub struct FetchPlan {
    pub host: String,
    pub port: u16,
    pub query: Query,
}

/// Plans a fetch of a `finger://` URL: a URL without a host is refused, the
/// port is 79 unless given, and the query is the one the URL names.
pub fn plan_fetch(url: &str) -> (r: Result<FetchPlan, ClientError>)
    ensures
        match url_parse(url@) {
            Err(e) => r matches Err(ClientError::BadUrl(m)) && m@ == e,
            Ok(u) => match u.1 {
                None => r matches Err(ClientError::BadUrl(m)) && m@ == "finger URL has no host"@,
                Some(h) => r matches Ok(p) && p.host@ == h && p.port == (match u.2 {
                    Some(n) => n,
                    None => DEFAULT_PORT,
                }) && opt_view(p.query.user) == spec_target(u.3, u.5) && !p.query.verbose,
            },
        },
{
    match parse_url(url) {
        Err(e) => Err(ClientError::BadUrl(e)),
        Ok(parts) => {
            let query = query_from_url(&parts);
            match &parts.host {
                None => Err(ClientError::BadUrl("finger URL has no host".to_string())),
                Some(h) => Ok(
                    FetchPlan {
                        host: h.clone(),
                        port: match parts.port {
                            Some(n) => n,
                            None => DEFAULT_PORT,
                        },
                        query,
                    },
                ),
            }
        },
    }
}

} // verus!
