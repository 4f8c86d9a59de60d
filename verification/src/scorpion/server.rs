//! What a scorpion server decides: the request line it reads, which of the
//! source's operations a request calls, and the header and body a reply is
//! written as.
use vstd::prelude::*;
use vstd::string::StringSliceAdditionalSpecFns;
use vstd::utf8::{decode_utf8, valid_utf8};

use crate::bytes::{append_bytes, copy_range, str_from_utf8};
use crate::scorpion::document::{encode, spec_encode, spec_encode_error, Block, DocumentError};
use crate::scorpion::request::{Parameter, Range, Request, RequestError, Subprotocol};
use crate::scorpion::response::{spec_header_wire, Header};
use crate::scorpion::status::Status;
use crate::text::{chars_of, decimal, decimal_chars, string_of, string_views};

verus! {

broadcast use vstd::string::group_string_axioms;

/// What a source answers a request with.
#[derive(Clone, Debug)]
pub enum Reply {
    /// A whole file: `20`, its size, media type and any version.
    Content { body: Vec<u8>, media_type: String, version: Option<String> },
    /// Part of a file: `21`, with the size of the whole file.
    Partial { body: Vec<u8>, total: u64, media_type: String },
    /// `31` when permanent, else `30`.
    Redirect { url: String, permanent: bool },
    /// `10` with a prompt.
    Input(String),
    /// Any other status, with a message unless it is empty.
    Status(Status, String),
}

/// A reply as it goes out: the status code, the header's parameters and
/// the body.
pub open spec fn spec_render(r: Reply) -> (u8, Seq<Seq<char>>, Seq<u8>) {
    match r {
        Reply::Content { body, media_type, version } => (
            20,
            seq![decimal(body@.len()), media_type@] + match version {
                Some(v) => seq![v@],
                None => seq![],
            },
            body@,
        ),
        Reply::Partial { body, total, media_type } => (
            21,
            seq![decimal(total as nat), media_type@],
            body@,
        ),
        Reply::Redirect { url, permanent } => (
            if permanent {
                31
            } else {
                30
            },
            seq![url@],
            seq![],
        ),
        Reply::Input(prompt) => (10, seq![prompt@], seq![]),
        Reply::Status(status, message) => (
            status.spec_code(),
            if message@.len() == 0 {
                seq![]
            } else {
                seq![message@]
            },
            seq![],
        ),
    }
}

/// The bytes a reply puts on the wire: its header line, then its body.
pub open spec fn spec_reply_wire(r: Reply) -> Seq<u8> {
    let (code, parameters, body) = spec_render(r);
    spec_header_wire(code, parameters) + body
}

fn decimal_string(n: u64) -> (r: String)
    ensures
        r@ == decimal(n as nat),
{
    string_of(decimal_chars(n).as_slice())
}

impl Reply {
    /// A scorpion document as a whole file.
    pub fn document(blocks: &[Block]) -> (r: Result<Self, DocumentError>)
        ensures
            match spec_encode_error(blocks@) {
                Some(e) => r matches Err(x) && x == e,
                None => r matches Ok(Reply::Content { body, media_type, version }) && body@
                    == spec_encode(blocks@) && media_type@ == "application/x-scorpion"@
                    && version is None,
            },
    {
        match encode(blocks) {
            Err(e) => Err(e),
            Ok(body) => Ok(
                Reply::Content {
                    body,
                    media_type: "application/x-scorpion".to_string(),
                    version: None,
                },
            ),
        }
    }

    /// Plain UTF-8 text as a whole file.
    pub fn text(body: &str) -> (r: Self)
        ensures
            r matches Reply::Content { body: b, media_type, version } && b@
                == vstd::utf8::encode_utf8(body@) && media_type@ == "text/plain;charset=utf-8"@
                && version is None,
    {
        let bs = body.as_bytes();
        let bytes = copy_range(bs, 0, bs.len());
        assert(bytes@ =~= bs@);
        assert(body.spec_bytes() == vstd::utf8::encode_utf8(body@));
        Reply::Content {
            body: bytes,
            media_type: "text/plain;charset=utf-8".to_string(),
            version: None,
        }
    }

    /// `51 not found`.
    pub fn not_found() -> (r: Self)
        ensures
            r matches Reply::Status(s, m) && s.spec_code() == 51 && m@ == "not found"@,
    {
        Reply::Status(Status::NOT_FOUND(), "not found".to_string())
    }

    /// The header a reply is written with, and its body.
    pub fn render(&self) -> (r: (Header, &[u8]))
        ensures
            ({
                let (code, parameters, body) = spec_render(*self);
                r.0.status.spec_code() == code && string_views(r.0.parameters@) == parameters
                    && r.1@ == body
            }),
    {
        match self {
            Reply::Content { body, media_type, version } => {
                let mut parameters: Vec<String> = Vec::new();
                parameters.push(decimal_string(body.len() as u64));
                parameters.push(media_type.clone());
                match version {
                    Some(v) => parameters.push(v.clone()),
                    None => {},
                }
                let ghost ps = string_views(parameters@);
                proof {
                    assert(ps =~= seq![decimal(body@.len()), media_type@] + match version {
                        Some(v) => seq![v@],
                        None => Seq::<Seq<char>>::empty(),
                    });
                }
                (Header { status: Status::OK(), parameters }, body.as_slice())
            },
            Reply::Partial { body, total, media_type } => {
                let mut parameters: Vec<String> = Vec::new();
                // The whole file's size, not the part's: it tells the
                // client the file's extent.
                parameters.push(decimal_string(*total));
                parameters.push(media_type.clone());
                assert(string_views(parameters@) =~= seq![decimal(*total as nat), media_type@]);
                (Header { status: Status::PARTIAL(), parameters }, body.as_slice())
            },
            Reply::Redirect { url, permanent } => {
                let mut parameters: Vec<String> = Vec::new();
                parameters.push(url.clone());
                assert(string_views(parameters@) =~= seq![url@]);
                let status = if *permanent {
                    Status::PERMANENT_REDIRECT()
                } else {
                    Status::TEMPORARY_REDIRECT()
                };
                (Header { status, parameters }, &[])
            },
            Reply::Input(prompt) => {
                let mut parameters: Vec<String> = Vec::new();
                parameters.push(prompt.clone());
                assert(string_views(parameters@) =~= seq![prompt@]);
                (Header { status: Status::INPUT(), parameters }, &[])
            },
            Reply::Status(status, message) => {
                let mut parameters: Vec<String> = Vec::new();
                if chars_of(message.as_str()).len() > 0 {
                    parameters.push(message.clone());
                    assert(string_views(parameters@) =~= seq![message@]);
                } else {
                    assert(string_views(parameters@) =~= Seq::<Seq<char>>::empty());
                }
                (Header { status: *status, parameters }, &[])
            },
        }
    }

    /// The bytes the reply is written as.
    pub fn to_wire(&self) -> (r: Vec<u8>)
        ensures
            r@ == spec_reply_wire(*self),
    {
        let (header, body) = self.render();
        let mut out = header.to_wire();
        append_bytes(&mut out, body);
        out
    }

    /// The answer an operation a source does not offer gets: `59` and a
    /// sentence naming it.
    pub fn not_implemented(operation: &str) -> (r: Self)
        ensures
            r matches Reply::Status(s, m) && s.spec_code() == 59 && m@ == operation@
                + " is not implemented"@,
    {
        Reply::Status(Status::BAD_REQUEST(), crate::text::concat(operation, " is not implemented"))
    }
}

// ── Requests ───────────────────────────────────────────────────────────────

/// How reading the request line goes after one more read.
#[derive(Debug, Clone, Copy, PartialEq, Eq, Structural)]
pub enum LineStep {
    /// A line feed came, or the stream ended after some bytes.
    Done,
    /// The stream ended before any byte.
    Eof,
    /// Another byte would pass the cap.
    TooLong,
    /// Read on.
    More,
}

/// Takes what one read gave (`None` once the stream has ended).
pub fn take_line_byte(line: &mut Vec<u8>, byte: Option<u8>, max: usize) -> (r: LineStep)
    ensures
        match byte {
            None => final(line)@ == old(line)@ && r == (if old(line)@.len() == 0 {
                LineStep::Eof
            } else {
                LineStep::Done
            }),
            Some(b) => if b == 10 {
                final(line)@ == old(line)@ && r == LineStep::Done
            } else if old(line)@.len() >= max {
                final(line)@ == old(line)@ && r == LineStep::TooLong
            } else {
                final(line)@ == old(line)@.push(b) && r == LineStep::More
            },
        },
{
    match byte {
        None => if line.len() == 0 {
            LineStep::Eof
        } else {
            LineStep::Done
        },
        Some(b) => {
            if b == 10 {
                LineStep::Done
            } else if line.len() >= max {
                LineStep::TooLong
            } else {
                line.push(b);
                LineStep::More
            }
        },
    }
}

/// The text of a request line's bytes: a trailing carriage return dropped,
/// then UTF-8, or `None` when they are not.
pub open spec fn spec_line_text(line: Seq<u8>) -> Option<Seq<char>> {
    let l = if line.len() > 0 && line.last() == 13 {
        line.drop_last()
    } else {
        line
    };
    if valid_utf8(l) {
        Some(decode_utf8(l))
    } else {
        None
    }
}

/// Reads a request line's bytes as text.
pub fn line_text(line: &[u8]) -> (r: Option<String>)
    ensures
        match spec_line_text(line@) {
            Some(t) => r matches Some(s) && s@ == t,
            None => r is None,
        },
{
    let end = if line.len() > 0 && line[line.len() - 1] == 13 {
        line.len() - 1
    } else {
        line.len()
    };
    let l = copy_range(line, 0, end);
    assert(l@ =~= (if line@.len() > 0 && line@.last() == 13 {
        line@.drop_last()
    } else {
        line@
    }));
    match str_from_utf8(l.as_slice()) {
        Some(t) => Some(t.to_string()),
        None => None,
    }
}

/// A request line that does not parse is still answered: `59` and the
/// reason.
pub fn refusal(error: RequestError) -> (r: Reply)
    ensures
        r matches Reply::Status(s, m) && s.spec_code() == 59 && m@ == error.spec_message(),
{
    Reply::Status(Status::BAD_REQUEST(), error.to_string())
}

/// Which of a source's operations a request calls, with what.
#[derive(Clone, Debug, PartialEq, Eq)]
pub enum Operation {
    /// Fetch the URL, or the range of it.
    Receive { url: String, range: Option<Range> },
    /// Describe the URL, in the media type wanted if one is named.
    Meta { url: String, desired_type: Option<String> },
    /// Store at the URL.
    Send { url: String, parameter: Parameter },
    /// Start an interactive session, with the client's capabilities.
    Interactive { url: String, capabilities: String },
}

fn copy_parameter(p: &Parameter) -> (r: Parameter)
    ensures
        r == *p,
{
    match p {
        Parameter::Empty => Parameter::Empty,
        Parameter::Range(g) => Parameter::Range(*g),
        Parameter::Version(v) => Parameter::Version(v.clone()),
        Parameter::Hmac { hmac, version } => Parameter::Hmac {
            hmac: hmac.clone(),
            version: version.clone(),
        },
        Parameter::Capabilities(c) => Parameter::Capabilities(c.clone()),
        Parameter::DesiredType(t) => Parameter::DesiredType(t.clone()),
    }
}

/// The range a parameter asks for, if it is one.
pub open spec fn spec_asked_range(p: Parameter) -> Option<Range> {
    match p {
        Parameter::Range(g) => Some(g),
        _ => None,
    }
}

/// Which operation a request calls: the parameter is handed on where the
/// subprotocol takes it, and ignored where it does not.
pub fn operation(request: &Request) -> (r: Operation)
    ensures
        match request.subprotocol {
            Subprotocol::Receive => r matches Operation::Receive { url, range: asked } && url@
                == request.url@ && asked == spec_asked_range(request.parameter),
            Subprotocol::Meta => r matches Operation::Meta { url, desired_type } && url@
                == request.url@ && match request.parameter {
                Parameter::DesiredType(t) => desired_type matches Some(d) && d@ == t@,
                _ => desired_type is None,
            },
            Subprotocol::Send => r matches Operation::Send { url, parameter } && url@
                == request.url@ && parameter == request.parameter,
            Subprotocol::Interactive => r matches Operation::Interactive { url, capabilities }
                && url@ == request.url@ && capabilities@ == match request.parameter {
                Parameter::Capabilities(c) => c@,
                _ => Seq::<char>::empty(),
            },
        },
{
    let url = request.url.clone();
    match request.subprotocol {
        Subprotocol::Receive => {
            let range = match &request.parameter {
                Parameter::Range(g) => Some(*g),
                _ => None,
            };
            Operation::Receive { url, range }
        },
        Subprotocol::Meta => {
            let desired_type = match &request.parameter {
                Parameter::DesiredType(t) => Some(t.clone()),
                _ => None,
            };
            Operation::Meta { url, desired_type }
        },
        Subprotocol::Send => Operation::Send { url, parameter: copy_parameter(&request.parameter) },
        Subprotocol::Interactive => {
            let capabilities = match &request.parameter {
                Parameter::Capabilities(c) => c.clone(),
                _ => String::new(),
            };
            Operation::Interactive { url, capabilities }
        },
    }
}

} // verus!
