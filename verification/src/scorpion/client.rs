//! What a scorpion client decides: where a URL leads, how much body a
//! response header calls for, and what a failure is reported as. The
//! socket is the caller's.
use vstd::prelude::*;

use crate::bytes::str_from_utf8;
use crate::scorpion::request::Range;
use crate::scorpion::response::{spec_parse_size, Header, ResponseError, Size};
use crate::scorpion::status::Major;
use crate::scorpion::{DEFAULT_PORT, MAX_REQUEST_LINE};
use crate::text::{concat, decimal, decimal_chars, string_of};
use crate::urls::{parse_url, url_parse};

verus! {

broadcast use vstd::string::group_string_axioms;

/// `std::io::Error`, carried through as it is.
#[verifier::external_type_specification]
#[verifier::external_body]
pub struct ExIoError(std::io::Error);

/// Why an exchange failed.
#[derive(Debug)]
pub enum ClientError {
    Io(std::io::Error),
    Response(ResponseError),
    /// The URL does not parse or names no host.
    Url(String),
    /// The declared size is over the client's limit.
    BodyTooLarge { declared: u64, limit: u64 },
    /// The stream ended before the declared size.
    Truncated { declared: u64, received: u64 },
}

/// `std::io::Error`'s `Display`, which for an error from the system is the
/// system's own message: nothing is stated of the text.
#[verifier::external_body]
fn io_error_text(error: &std::io::Error) -> String {
    format!("{error}")
}

fn decimal_string(n: u64) -> (r: String)
    ensures
        r@ == decimal(n as nat),
{
    string_of(decimal_chars(n).as_slice())
}

impl ClientError {
    /// A sentence saying what went wrong, after `scorpion: `; an I/O
    /// error's own text is the system's.
    pub fn to_string(&self) -> (r: String)
        ensures
            match self {
                ClientError::Io(_) => "scorpion: "@.is_prefix_of(r@),
                ClientError::Response(e) => r@ == "scorpion: "@ + e.spec_message(),
                ClientError::Url(d) => r@ == "scorpion: "@ + d@,
                ClientError::BodyTooLarge { declared, limit } => r@ == "scorpion: server declared "@
                    + decimal(*declared as nat) + " bytes, over the "@ + decimal(*limit as nat)
                    + "-byte limit"@,
                ClientError::Truncated { declared, received } => r@
                    == "scorpion: server declared "@ + decimal(*declared as nat)
                    + " bytes but sent "@ + decimal(*received as nat),
            },
    {
        match self {
            ClientError::Io(e) => {
                let t = io_error_text(e);
                let r = concat("scorpion: ", t.as_str());
                assert(r@.subrange(0, "scorpion: "@.len() as int) =~= "scorpion: "@);
                r
            },
            ClientError::Response(e) => {
                let t = e.to_string();
                concat("scorpion: ", t.as_str())
            },
            ClientError::Url(d) => concat("scorpion: ", d.as_str()),
            ClientError::BodyTooLarge { declared, limit } => {
                let a = concat("scorpion: server declared ", decimal_string(*declared).as_str());
                let b = concat(a.as_str(), " bytes, over the ");
                let c = concat(b.as_str(), decimal_string(*limit).as_str());
                concat(c.as_str(), "-byte limit")
            },
            ClientError::Truncated { declared, received } => {
                let a = concat("scorpion: server declared ", decimal_string(*declared).as_str());
                let b = concat(a.as_str(), " bytes but sent ");
                concat(b.as_str(), decimal_string(*received).as_str())
            },
        }
    }
}

/// A response: its header and whatever body it carried.
#[derive(Clone, Debug)]
pub struct Response {
    pub header: Header,
    pub body: Vec<u8>,
}

impl Response {
    /// The body as text, when it is UTF-8.
    pub fn text(&self) -> (r: Option<&str>)
        ensures
            match r {
                Some(t) => vstd::utf8::valid_utf8(self.body@) && t@ == vstd::utf8::decode_utf8(
                    self.body@,
                ),
                None => !vstd::utf8::valid_utf8(self.body@),
            },
    {
        str_from_utf8(self.body.as_slice())
    }
}

/// What a client accepts.
#[derive(Clone, Copy, Debug)]
pub struct Limits {
    /// The largest body read.
    pub max_body: u64,
    /// The longest status line read.
    pub max_header: usize,
}

impl Default for Limits {
    /// 32 MiB of body and the protocol's line cap.
    fn default() -> (r: Self)
        ensures
            r.max_body == 32 * 1024 * 1024,
            r.max_header == MAX_REQUEST_LINE,
    {
        Limits { max_body: 32 * 1024 * 1024, max_header: MAX_REQUEST_LINE }
    }
}

/// How much body a response carries.
#[derive(Clone, Copy, Debug, PartialEq, Eq, Structural)]
pub enum BodyPlan {
    /// No body: not a success.
    Empty,
    /// Exactly this many bytes; fewer is a truncated response.
    Exact(u64),
    /// Up to this many bytes, or until the stream ends.
    UpTo(u64),
}

/// The size a success declares, or why it declares none.
pub open spec fn spec_declared(h: Header) -> Result<Size, ResponseError> {
    if h.parameters.len() < 2 {
        Err(ResponseError::MissingParameters)
    } else {
        match spec_parse_size(h.parameters@[0]@) {
            None => Err(ResponseError::MalformedSize),
            Some(size) => Ok(size),
        }
    }
}

/// How much body to read after a header: none unless it is a success; for
/// a partial one, the requested range's length (or the limit, if the range
/// is open), never over the limit, since a range past the end of the file
/// is answered with what exists; for a whole file, its declared size,
/// refused when over the limit, or, when unknown, whatever comes up to the
/// limit.
pub open spec fn spec_plan_body(h: Header, limits: Limits, range: Option<Range>) -> Result<
    BodyPlan,
    ResponseError,
> {
    if h.status.spec_major() != Major::Success {
        Ok(BodyPlan::Empty)
    } else {
        match spec_declared(h) {
            Err(e) => Err(e),
            Ok(size) => if h.status.spec_code() == 21 {
                let wanted: u64 = match range {
                    Some(g) => match g.end {
                        Some(end) => if end >= g.start {
                            (end - g.start) as u64
                        } else {
                            0
                        },
                        None => limits.max_body,
                    },
                    None => limits.max_body,
                };
                Ok(
                    BodyPlan::UpTo(
                        if wanted < limits.max_body {
                            wanted
                        } else {
                            limits.max_body
                        },
                    ),
                )
            } else {
                match size {
                    Size::Known(n) => Ok(BodyPlan::Exact(n)),
                    Size::Unknown => Ok(BodyPlan::UpTo(limits.max_body)),
                }
            },
        }
    }
}

/// Decides how much body a header calls for.
pub fn plan_body(header: &Header, limits: Limits, range: Option<Range>) -> (r: Result<
    BodyPlan,
    ClientError,
>)
    ensures
        match spec_plan_body(*header, limits, range) {
            Err(e) => r matches Err(ClientError::Response(x)) && x == e,
            Ok(BodyPlan::Exact(n)) => if n > limits.max_body {
                r matches Err(ClientError::BodyTooLarge { declared, limit }) && declared == n
                    && limit == limits.max_body
            } else {
                r matches Ok(p) && p == BodyPlan::Exact(n)
            },
            Ok(p) => r matches Ok(q) && q == p,
        },
{
    if header.status.major() != Major::Success {
        return Ok(BodyPlan::Empty);
    }
    let declared = match header.success() {
        Some(Ok(success)) => success.size,
        Some(Err(error)) => return Err(ClientError::Response(error)),
        None => Size::Unknown,
    };
    if header.status.code() == 21 {
        let wanted = match range {
            Some(g) => match g.len() {
                Some(n) => n,
                None => limits.max_body,
            },
            None => limits.max_body,
        };
        return Ok(BodyPlan::UpTo(if wanted < limits.max_body { wanted } else { limits.max_body }));
    }
    match declared {
        Size::Known(size) => {
            if size > limits.max_body {
                return Err(ClientError::BodyTooLarge { declared: size, limit: limits.max_body });
            }
            Ok(BodyPlan::Exact(size))
        },
        Size::Unknown => Ok(BodyPlan::UpTo(limits.max_body)),
    }
}

/// A stream that ended before a declared size reads as truncated.
pub fn truncated(declared: u64) -> (r: ClientError)
    ensures
        r matches ClientError::Truncated { declared: d, received } && d == declared && received
            == 0,
{
    ClientError::Truncated { declared, received: 0 }
}

/// The host and port a request URL names: its host, and its port or 1517.
pub fn authority(url: &str) -> (r: Result<(String, u16), ClientError>)
    ensures
        match url_parse(url@) {
            Err(e) => r matches Err(ClientError::Url(m)) && m@ == e,
            Ok(u) => match u.1 {
                None => r matches Err(ClientError::Url(m)) && m@ == url@ + " names no host"@,
                Some(h) => r matches Ok((host, port)) && host@ == h && port == (match u.2 {
                    Some(p) => p,
                    None => DEFAULT_PORT,
                }),
            },
        },
{
    let parts = match parse_url(url) {
        Ok(p) => p,
        Err(e) => return Err(ClientError::Url(e)),
    };
    let host = match parts.host {
        Some(h) => h,
        None => return Err(ClientError::Url(concat(url, " names no host"))),
    };
    let port = match parts.port {
        Some(p) => p,
        None => DEFAULT_PORT,
    };
    Ok((host, port))
}

} // verus!
