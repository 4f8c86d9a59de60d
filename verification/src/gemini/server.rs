//! What a gemini server decides: the request line it reads and accepts,
//! and the reply it sends back, a status line and, on success, a body.
use vstd::prelude::*;
use vstd::utf8::{decode_utf8, encode_utf8, valid_utf8};

use crate::bytes::str_from_utf8;
use crate::gemini::client::{header_code, spec_response, spec_status_of, Status, DEFAULT_PORT};
use crate::text::{
    append_chars, chars_of, concat, decimal, decimal_chars, eq_str, is_ws, slice_chars, string_of,
    trim_end_crlf, trim_end_crlf_at, trim_start,
};
use crate::urls::{parse_url, url_parse, UrlModel, UrlParts};

verus! {

broadcast use vstd::string::group_string_axioms;

/// A reply to one request.
#[derive(Debug, Clone, PartialEq, Eq)]
pub struct Reply {
    pub code: u8,
    /// The media type of a success, otherwise the prompt, target or reason.
    pub meta: String,
    /// Sent only with a success.
    pub body: Vec<u8>,
}

impl Reply {
    /// `20` with a media type and a body.
    pub fn success(mime: &str, body: &[u8]) -> (r: Self)
        ensures
            r.code == 20,
            r.meta@ == mime@,
            r.body@ == body@,
    {
        let mut b: Vec<u8> = Vec::new();
        crate::bytes::append_bytes(&mut b, body);
        Self { code: 20, meta: mime.to_string(), body: b }
    }

    /// `20 text/gemini` with a gemtext body.
    pub fn gemtext(body: &str) -> (r: Self)
        ensures
            r.code == 20,
            r.meta@ == seq!['t', 'e', 'x', 't', '/', 'g', 'e', 'm', 'i', 'n', 'i'],
            r.body@ == vstd::utf8::encode_utf8(body@),
    {
        proof {
            reveal_strlit("text/gemini");
        }
        Self::success("text/gemini", body.as_bytes())
    }

    /// `10`: ask the client for input.
    pub fn input(prompt: &str) -> (r: Self)
        ensures
            r.code == 10,
            r.meta@ == prompt@,
            r.body@.len() == 0,
    {
        Self::header(10, prompt)
    }

    /// `30`: send the client elsewhere.
    pub fn redirect(target: &str) -> (r: Self)
        ensures
            r.code == 30,
            r.meta@ == target@,
            r.body@.len() == 0,
    {
        Self::header(30, target)
    }

    /// `51`: nothing here.
    pub fn not_found(reason: &str) -> (r: Self)
        ensures
            r.code == 51,
            r.meta@ == reason@,
            r.body@.len() == 0,
    {
        Self::header(51, reason)
    }

    /// Any code with a meta and no body.
    pub fn header(code: u8, meta: &str) -> (r: Self)
        ensures
            r.code == code,
            r.meta@ == meta@,
            r.body@.len() == 0,
    {
        Self { code, meta: meta.to_string(), body: Vec::new() }
    }

    /// The code's class, if the protocol defines it.
    pub fn status(&self) -> (r: Option<Status>)
        ensures
            r == spec_status_of(self.code),
    {
        Status::from_code(self.code)
    }

    /// The status line: the code, a space, the meta and CRLF.
    pub fn header_line(&self) -> (r: String)
        ensures
            r@ == decimal(self.code as nat) + seq![' '] + self.meta@ + seq!['\r', '\n'],
    {
        let mut v = decimal_chars(self.code as u64);
        v.push(' ');
        let meta = chars_of(self.meta.as_str());
        append_chars(&mut v, meta.as_slice());
        v.push('\r');
        v.push('\n');
        string_of(v.as_slice())
    }
}


/// The bytes a reply puts on the wire: its status line, then its body when
/// it is a success; no other status carries one.
pub open spec fn spec_wire(r: Reply) -> Seq<u8> {
    encode_utf8(decimal(r.code as nat) + seq![' '] + r.meta@ + seq!['\r', '\n']) + if spec_status_of(
        r.code,
    ) == Some(Status::Success) {
        r.body@
    } else {
        seq![]
    }
}

impl Reply {
    /// What the reply puts on the wire.
    pub fn wire(&self) -> (r: Vec<u8>)
        ensures
            r@ == spec_wire(*self),
    {
        let header = self.header_line();
        let mut out = crate::bytes::copy_range(header.as_str().as_bytes(), 0, header.as_str().as_bytes().len());
        assert(out@ =~= encode_utf8(header@));
        if self.status() == Some(Status::Success) {
            crate::bytes::append_bytes(&mut out, self.body.as_slice());
        } else {
            assert(out@ =~= out@ + Seq::<u8>::empty());
        }
        out
    }
}

/// Gemini's port, for a server to bind.
pub const PORT: u16 = DEFAULT_PORT;

/// How reading the request line goes after one more read.
#[derive(Debug, Clone, Copy, PartialEq, Eq, Structural)]
pub enum RequestStep {
    /// The stream ended or a line feed came: the line is whole.
    Done,
    /// The line passed the cap: it is answered `59`.
    TooLong,
    /// Read on.
    More,
}

/// Takes what one read gave (`None` once the stream has ended): the end of
/// the stream or a line feed closes the line; any other byte is kept, and
/// a line longer than `max_request_line` is refused.
pub fn take_request_byte(line: &mut Vec<u8>, byte: Option<u8>, max_request_line: usize) -> (r:
    RequestStep)
    ensures
        match byte {
            None => r == RequestStep::Done && final(line)@ == old(line)@,
            Some(b) => if b == 10 {
                r == RequestStep::Done && final(line)@ == old(line)@
            } else {
                final(line)@ == old(line)@.push(b) && r == (if final(line)@.len()
                    > max_request_line {
                    RequestStep::TooLong
                } else {
                    RequestStep::More
                })
            },
        },
{
    match byte {
        None => RequestStep::Done,
        Some(b) => {
            if b == 10 {
                return RequestStep::Done;
            }
            line.push(b);
            if line.len() > max_request_line {
                RequestStep::TooLong
            } else {
                RequestStep::More
            }
        },
    }
}

/// The reply to a request line over the cap.
pub fn too_long() -> (r: Reply)
    ensures
        r.code == 59,
        r.meta@ == "request exceeds 1024 bytes"@,
        r.body@.len() == 0,
{
    Reply::header(59, "request exceeds 1024 bytes")
}

/// What a parsed request must be: a `gemini` URL with a host and without
/// a fragment; each refusal is its reason.
pub open spec fn spec_check_request(u: UrlModel) -> Result<(), Seq<char>> {
    if u.0 != "gemini"@ {
        Err("scheme "@ + u.0 + " is not gemini"@)
    } else if u.1 is None {
        Err("request has no host"@)
    } else if u.6 is Some {
        Err("request carries a fragment"@)
    } else {
        Ok(())
    }
}

/// Accepts a parsed request URL, or says why not.
pub fn check_request(parts: UrlParts) -> (r: Result<UrlParts, String>)
    ensures
        match spec_check_request(parts@) {
            Ok(_) => r matches Ok(p) && p@ == parts@,
            Err(m) => r matches Err(x) && x@ == m,
        },
{
    proof {
        reveal_strlit("gemini");
    }
    if !eq_str(chars_of(parts.scheme.as_str()).as_slice(), "gemini") {
        let a = concat("scheme ", parts.scheme.as_str());
        return Err(concat(a.as_str(), " is not gemini"));
    }
    if parts.host.is_none() {
        return Err("request has no host".to_string());
    }
    if parts.fragment.is_some() {
        // A fragment belongs to the client and never reaches a server.
        return Err("request carries a fragment".to_string());
    }
    Ok(parts)
}

/// Reads a request line into the absolute URL it must be: UTF-8, its
/// trailing CR and LF dropped, parsed, then checked; each refusal is the
/// reason a `59` reply gives.
pub fn parse_request(line: &[u8]) -> (r: Result<UrlParts, String>)
    ensures
        if !valid_utf8(line@) {
            r matches Err(m) && m@ == "request is not UTF-8"@
        } else {
            match url_parse(trim_end_crlf(decode_utf8(line@))) {
                Err(e) => r matches Err(m) && m@ == e,
                Ok(u) => match spec_check_request(u) {
                    Ok(_) => r matches Ok(p) && p@ == u,
                    Err(m) => r matches Err(x) && x@ == m,
                },
            }
        },
{
    let text = match str_from_utf8(line) {
        Some(t) => t,
        None => return Err("request is not UTF-8".to_string()),
    };
    let cs = chars_of(text);
    let j = trim_end_crlf_at(cs.as_slice());
    let trimmed = string_of(slice_chars(cs.as_slice(), 0, j).as_slice());
    match parse_url(trimmed.as_str()) {
        Err(e) => Err(e),
        Ok(parts) => check_request(parts),
    }
}


// ── What the client reads back ─────────────────────────────────────────────

/// No digit of a number's spelling is a carriage return.
proof fn lemma_digits_plain(n: nat)
    ensures
        forall|i: int| 0 <= i < decimal(n).len() ==> #[trigger] decimal(n)[i] != '\r',
{
    crate::text::lemma_decimal_round_trip(n);
    assert forall|i: int| 0 <= i < decimal(n).len() implies #[trigger] decimal(n)[i] != '\r' by {
        assert(crate::text::is_digit(decimal(n)[i]));
    }
}

/// What the server writes, the client reads back: a reply whose code has a
/// class and whose meta holds no carriage return and does not start with
/// whitespace parses into its class, code and meta, with its body when it
/// is a success and none otherwise.
pub proof fn lemma_reply_reads_back(r: Reply)
    requires
        spec_status_of(r.code) is Some,
        forall|i: int| 0 <= i < r.meta@.len() ==> #[trigger] r.meta@[i] != '\r',
        r.meta@.len() > 0 ==> !is_ws(r.meta@[0]),
    ensures
        spec_response(spec_wire(r)) == Ok::<(Status, u8, Seq<char>, Seq<u8>), Seq<char>>(
            (
                spec_status_of(r.code).unwrap(),
                r.code,
                r.meta@,
                if spec_status_of(r.code) == Some(Status::Success) {
                    r.body@
                } else {
                    Seq::<u8>::empty()
                },
            ),
        ),
{
    let status = spec_status_of(r.code).unwrap();
    let d = decimal(r.code as nat);
    assert(10 <= r.code < 70);
    crate::text::lemma_two_digits(r.code as nat);
    lemma_digits_plain(r.code as nat);
    let line = d + seq![' '] + r.meta@;
    let body = if status == Status::Success {
        r.body@
    } else {
        Seq::<u8>::empty()
    };
    assert forall|i: int| 0 <= i < line.len() implies #[trigger] line[i] != '\r' by {
        if i < d.len() {
            assert(line[i] == d[i]);
        } else if i > d.len() {
            assert(line[i] == r.meta@[i - d.len() - 1]);
        }
    }
    assert(d + seq![' '] + r.meta@ + seq!['\r', '\n'] =~= line + seq!['\r', '\n']);
    assert(spec_wire(r) == encode_utf8(line + seq!['\r', '\n']) + body);
    crate::bytes::lemma_crlf_line(line, body);
    let n = encode_utf8(line).len() as int;
    assert(spec_wire(r).take(n) == encode_utf8(line));
    assert(line[0] == d[0] && line[1] == d[1]);
    assert(crate::text::is_digit(line[0]) && crate::text::is_digit(line[1]));
    assert(header_code(line) == r.code) by {
        assert(crate::text::digit_char((r.code / 10) as nat) as int == r.code / 10 + 48);
        assert(crate::text::digit_char((r.code % 10) as nat) as int == r.code % 10 + 48);
    }
    assert(line.skip(2) =~= seq![' '] + r.meta@);
    assert(trim_start(seq![' '] + r.meta@) == r.meta@) by {
        assert(trim_start(r.meta@) == r.meta@);
        assert((seq![' '] + r.meta@)[0] == ' ');
        assert((seq![' '] + r.meta@).drop_first() =~= r.meta@);
    }
}

} // verus!
