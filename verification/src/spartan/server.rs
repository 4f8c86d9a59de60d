//! What a spartan server reads from a request line, and the bytes it
//! writes back. Listening, reading and handling are the caller's.
use vstd::prelude::*;
use vstd::utf8::{decode_utf8, encode_utf8, valid_utf8};

use crate::bytes::{append_bytes, str_from_utf8};
use crate::spartan::client::spec_request_line;
use crate::spartan::{spec_code, Status};
use crate::text::{
    chars_of, concat, decimal, decimal_chars, parse_unsigned, slice_chars, split, split_char,
    string_of, trim_end_crlf, trim_end_crlf_at,
};

verus! {

broadcast use vstd::string::group_string_axioms;

/// What a handler answers: one of the four responses.
#[derive(Debug, Clone, PartialEq, Eq)]
pub enum SpartanResponse {
    /// `2 <mime>` and the body.
    Success { mime: String, body: Vec<u8> },
    /// `3 <absolute path>`, on the same host.
    Redirect { path: String },
    /// `4 <message>`.
    ClientError { message: String },
    /// `5 <message>`.
    ServerError { message: String },
}

impl SpartanResponse {
    /// The status a response carries.
    pub open spec fn status_of(&self) -> Status {
        match self {
            SpartanResponse::Success { .. } => Status::Success,
            SpartanResponse::Redirect { .. } => Status::Redirect,
            SpartanResponse::ClientError { .. } => Status::ClientError,
            SpartanResponse::ServerError { .. } => Status::ServerError,
        }
    }

    /// The status of this response.
    pub fn status(&self) -> (r: Status)
        ensures
            r == self.status_of(),
    {
        match self {
            Self::Success { .. } => Status::Success,
            Self::Redirect { .. } => Status::Redirect,
            Self::ClientError { .. } => Status::ClientError,
            Self::ServerError { .. } => Status::ServerError,
        }
    }

    /// The meta line's text and the body of this response.
    pub open spec fn parts(&self) -> (Seq<char>, Seq<u8>) {
        match self {
            SpartanResponse::Success { mime, body } => (mime@, body@),
            SpartanResponse::Redirect { path } => (path@, seq![]),
            SpartanResponse::ClientError { message } => (message@, seq![]),
            SpartanResponse::ServerError { message } => (message@, seq![]),
        }
    }

    /// The response on the wire: the status digit, a space, the meta, CRLF,
    /// then the body, which only a success has.
    pub fn encode(&self) -> (r: Vec<u8>)
        ensures
            r@ == encode_utf8(
                decimal(spec_code(self.status_of()) as nat) + seq![' '] + self.parts().0 + seq![
                    '\r',
                    '\n',
                ],
            ) + self.parts().1,
    {
        let status = self.status();
        let (meta, body): (&str, &[u8]) = match self {
            Self::Success { mime, body } => (mime.as_str(), body.as_slice()),
            Self::Redirect { path } => (path.as_str(), &[]),
            Self::ClientError { message } => (message.as_str(), &[]),
            Self::ServerError { message } => (message.as_str(), &[]),
        };
        let mut v = decimal_chars(status.code() as u64);
        v.push(' ');
        crate::text::append_chars(&mut v, chars_of(meta).as_slice());
        v.push('\r');
        v.push('\n');
        assert(meta@ == self.parts().0);
        assert(v@ =~= decimal(spec_code(self.status_of()) as nat) + seq![' '] + self.parts().0
            + seq!['\r', '\n']);
        let line = string_of(v.as_slice());
        let mut out: Vec<u8> = Vec::new();
        append_bytes(&mut out, line.as_str().as_bytes());
        append_bytes(&mut out, body);
        assert(body@ =~= self.parts().1);
        assert(out@ =~= encode_utf8(line@) + self.parts().1);
        out
    }
}

/// Where reading a request line stands after a byte: complete at CRLF,
/// refused at the cap, or wanting more.
#[derive(Debug, Clone, Copy, PartialEq, Eq, Structural)]
pub enum LineProgress {
    Complete,
    TooLong,
    More,
}

/// The bytes so far end in CRLF.
pub open spec fn ends_in_crlf(line: Seq<u8>) -> bool {
    line.len() >= 2 && line[line.len() - 2] == 13 && line.last() == 10
}

/// Decides, after each byte read, whether the request line is complete
/// (it ends in CRLF), too long (it reached the cap), or not yet done.
pub fn line_progress(line: &[u8], max_request_line: usize) -> (r: LineProgress)
    ensures
        r == (if ends_in_crlf(line@) {
            LineProgress::Complete
        } else if line@.len() >= max_request_line {
            LineProgress::TooLong
        } else {
            LineProgress::More
        }),
{
    let n = line.len();
    if n >= 2 && line[n - 2] == 13 && line[n - 1] == 10 {
        LineProgress::Complete
    } else if n >= max_request_line {
        LineProgress::TooLong
    } else {
        LineProgress::More
    }
}

/// A host that names no port: not empty and without a colon, unless it is
/// a bracketed IPv6 address.
pub open spec fn host_ok(host: Seq<char>) -> bool {
    (host.len() > 0 && !host.contains(':')) || (host.len() > 0 && host[0] == '['
        && host.last() == ']')
}

/// What a request line reads as: UTF-8, its line ending dropped, exactly
/// three space-separated fields (host, absolute path, content length), and
/// a length within the server's upload limit; each refusal is the message
/// the server answers `4` with.
pub open spec fn spec_parse_request_line(line: Seq<u8>, max_upload: usize) -> Result<
    (Seq<char>, Seq<char>, nat),
    Seq<char>,
> {
    if !valid_utf8(line) {
        Err("Request line is not ASCII."@)
    } else {
        let l = trim_end_crlf(decode_utf8(line));
        let f = split(l, ' ');
        if f.len() != 3 {
            Err("Malformed request line."@)
        } else if !host_ok(f[0]) {
            Err("Malformed host."@)
        } else if !(f[1].len() > 0 && f[1][0] == '/') {
            Err("Path must be absolute."@)
        } else {
            match parse_unsigned(f[2], usize::MAX as nat) {
                None => Err("Malformed content-length."@),
                Some(n) => if n > max_upload {
                    Err(
                        "Data block exceeds this server's limit of "@ + decimal(max_upload as nat)
                            + " bytes."@,
                    )
                } else {
                    Ok((f[0], f[1], n))
                },
            }
        }
    }
}

fn holds(s: &[char], c: char) -> (r: bool)
    ensures
        r == s@.contains(c),
{
    let mut i: usize = 0;
    while i < s.len()
        invariant
            i <= s.len(),
            forall|k: int| 0 <= k < i ==> s@[k] != c,
        decreases s.len() - i,
    {
        if s[i] == c {
            assert(s@[i as int] == c);
            return true;
        }
        i = i + 1;
    }
    false
}

/// Reads a request line: the host, the path and the length of the data
/// block that follows it.
pub fn parse_request_line(line: &[u8], max_upload: usize) -> (r: Result<(String, String, usize), String>)
    ensures
        match spec_parse_request_line(line@, max_upload) {
            Ok((h, p, n)) => r matches Ok((h2, p2, n2)) && h2@ == h && p2@ == p && n2 == n,
            Err(e) => r matches Err(x) && x@ == e,
        },
{
    let text = match str_from_utf8(line) {
        Some(t) => t,
        None => return Err("Request line is not ASCII.".to_string()),
    };
    let all = chars_of(text);
    let end = trim_end_crlf_at(all.as_slice());
    let l = slice_chars(all.as_slice(), 0, end);
    let f = split_char(l.as_slice(), ' ');
    if f.len() != 3 {
        return Err("Malformed request line.".to_string());
    }
    let ghost fs = split(l@, ' ');
    assert(f[0]@ == fs[0] && f[1]@ == fs[1] && f[2]@ == fs[2]);
    let host = f[0].as_slice();
    let ok = (host.len() > 0 && !holds(host, ':')) || (host.len() > 0 && host[0] == '['
        && host[host.len() - 1] == ']');
    if !ok {
        return Err("Malformed host.".to_string());
    }
    let path = f[1].as_slice();
    if !(path.len() > 0 && path[0] == '/') {
        return Err("Path must be absolute.".to_string());
    }
    let n = match crate::text::parse_u64(f[2].as_slice()) {
        Some(n) => n,
        None => return Err("Malformed content-length.".to_string()),
    };
    if n > usize::MAX as u64 {
        return Err("Malformed content-length.".to_string());
    }
    let n = n as usize;
    if n > max_upload {
        let d = string_of(decimal_chars(max_upload as u64).as_slice());
        let a = concat("Data block exceeds this server's limit of ", d.as_str());
        return Err(concat(a.as_str(), " bytes."));
    }
    Ok((string_of(host), string_of(path), n))
}

/// What a client writes, the server reads back: a request line made of a
/// host, an absolute path and a length parses into them, when neither the
/// host nor the path holds a space, the host names no port, the path does
/// not end in a line break, and the length is within the upload limit.
pub proof fn lemma_request_line_reads_back(
    host: Seq<char>,
    path: Seq<char>,
    len: usize,
    max_upload: usize,
)
    requires
        host_ok(host),
        path.len() > 0 && path[0] == '/',
        forall|j: int| 0 <= j < host.len() ==> #[trigger] host[j] != ' ',
        forall|j: int| 0 <= j < path.len() ==> #[trigger] path[j] != ' ',
        len <= max_upload,
    ensures
        spec_parse_request_line(encode_utf8(spec_request_line(host, path, len as nat)), max_upload)
            == Ok::<(Seq<char>, Seq<char>, nat), Seq<char>>((host, path, len as nat)),
{
    let line = spec_request_line(host, path, len as nat);
    vstd::utf8::encode_utf8_valid_utf8(line);
    vstd::utf8::encode_utf8_decode_utf8(line);
    let d = decimal(len as nat);
    crate::text::lemma_decimal_round_trip(len as nat);
    crate::text::lemma_decimal_last_digit(len as nat);
    let text = host + seq![' '] + path + seq![' '] + d;
    assert(line =~= text + seq!['\r', '\n']);
    assert(text.last() == d.last());
    crate::text::lemma_trim_end_crlf_of_line(text);
    assert forall|j: int| 0 <= j < d.len() implies d[j] != ' ' by {
        assert(crate::text::is_digit(d[j]));
    }
    crate::text::lemma_split_none(d, ' ');
    crate::text::lemma_split_at(path, d, ' ');
    assert(host + seq![' '] + (path + seq![' '] + d) =~= text);
    crate::text::lemma_split_at(host, path + seq![' '] + d, ' ');
    assert(split(text, ' ') =~= seq![host, path, d]);
}

} // verus!
