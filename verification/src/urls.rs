//! Absolute URLs, parsed by the `url` crate and handed to the protocol
//! modules as plain parts.
use vstd::prelude::*;

use vstd::utf8::encode_utf8;

use crate::text::opt_view;

verus! {

/// The parts of an absolute URL that the clients and servers read.
#[derive(Clone, Debug, PartialEq, Eq)]
pub struct UrlParts {
    /// The scheme, lower-cased, without its colon.
    pub scheme: String,
    /// The host as the `url` crate serialises it (`host_str`), if the URL
    /// has one.
    pub host: Option<String>,
    /// An explicit port that is not the scheme's known default.
    pub port: Option<u16>,
    /// The path, percent-encoded as the URL standard serialises it.
    pub path: String,
    /// The query, without its `?`.
    pub query: Option<String>,
    /// The user name before an `@` in the authority, empty when there is
    /// none.
    pub username: String,
    /// The fragment, without its `#`.
    pub fragment: Option<String>,
}

/// The parts over character sequences: scheme, host, port, path, query,
/// user name, fragment.
pub type UrlModel = (
    Seq<char>,
    Option<Seq<char>>,
    Option<u16>,
    Seq<char>,
    Option<Seq<char>>,
    Seq<char>,
    Option<Seq<char>>,
);

impl View for UrlParts {
    type V = UrlModel;

    open spec fn view(&self) -> UrlModel {
        (
            self.scheme@,
            opt_view(self.host),
            self.port,
            self.path@,
            opt_view(self.query),
            self.username@,
            opt_view(self.fragment),
        )
    }
}

/// What `url::Url::parse` makes of a string, read through `scheme`,
/// `host_str`, `port`, `path`, `query`, `username` and `fragment`, or the
/// text of its error: a function of the string alone.
pub uninterp spec fn url_parse(input: Seq<char>) -> Result<UrlModel, Seq<char>>;

/// `url::Url::parse`, then the accessors that read the parts. The result is
/// `url_parse` of the input; what the URL standard does to a string is not
/// stated here.
#[verifier::external_body]
pub(crate) fn parse_url(input: &str) -> (r: Result<UrlParts, String>)
    ensures
        match url_parse(input@) {
            Ok(m) => r matches Ok(p) && p@ == m,
            Err(e) => r matches Err(x) && x@ == e,
        },
{
    match url::Url::parse(input) {
        Ok(u) => Ok(UrlParts {
            scheme: u.scheme().to_string(),
            host: u.host_str().map(String::from),
            port: u.port(),
            path: u.path().to_string(),
            query: u.query().map(String::from),
            username: u.username().to_string(),
            fragment: u.fragment().map(String::from),
        }),
        Err(e) => Err(e.to_string()),
    }
}

/// The value of an ASCII hexadecimal digit.
pub open spec fn hex_value(b: u8) -> Option<u8> {
    if 48 <= b <= 57 {
        Some((b - 48) as u8)
    } else if 65 <= b <= 70 {
        Some((b - 55) as u8)
    } else if 97 <= b <= 102 {
        Some((b - 87) as u8)
    } else {
        None
    }
}

/// Bytes percent-decoded: `%` and two hexadecimal digits become the byte
/// they spell; every other byte, a `%` without two digits after it
/// included, stays as it is.
pub open spec fn pct_decode(bs: Seq<u8>) -> Seq<u8>
    decreases bs.len(),
{
    if bs.len() == 0 {
        seq![]
    } else if bs[0] == 37 && bs.len() >= 3 && hex_value(bs[1]) is Some && hex_value(bs[2]) is Some {
        seq![(hex_value(bs[1]).unwrap() * 16 + hex_value(bs[2]).unwrap()) as u8] + pct_decode(
            bs.skip(3),
        )
    } else {
        seq![bs[0]] + pct_decode(bs.skip(1))
    }
}

/// `percent_encoding::percent_decode_str`, collected: the string's UTF-8
/// bytes with every `%` and two hexadecimal digits decoded, as `pct_decode`
/// states.
#[verifier::external_body]
pub(crate) fn percent_decode(input: &str) -> (r: Vec<u8>)
    ensures
        r@ == pct_decode(encode_utf8(input@)),
{
    percent_encoding::percent_decode_str(input).collect()
}

} // verus!
