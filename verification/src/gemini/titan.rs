//! Titan (`titan://`), gemini's upload companion: a request line that
//! names the upload's size, media type and token, the body after it, and a
//! gemini response back.
use vstd::prelude::*;

use crate::gemini::client::ClientError;
use crate::text::{append_chars, chars_of, decimal, decimal_chars, string_of};
use crate::urls::{parse_url, url_parse, UrlParts};

verus! {

broadcast use vstd::string::group_string_axioms;

/// Titan shares gemini's port.
pub const DEFAULT_PORT: u16 = 1965;

/// The request line: the URL, `;size=` and the body's length, `;mime=` and
/// the media type unless it is empty, `;token=` and the token if there is
/// one, and CRLF.
pub open spec fn spec_request_line(
    url: Seq<char>,
    size: nat,
    mime: Seq<char>,
    token: Option<Seq<char>>,
) -> Seq<char> {
    url + ";size="@ + decimal(size) + (if mime.len() == 0 {
        seq![]
    } else {
        ";mime="@ + mime
    }) + (match token {
        Some(t) => ";token="@ + t,
        None => seq![],
    }) + seq!['\r', '\n']
}

/// Writes the request line for an upload of `size` bytes to the URL whose
/// serialisation is `url`.
pub fn request_line(url: &str, size: usize, mime: &str, token: Option<&str>) -> (r: String)
    ensures
        r@ == spec_request_line(
            url@,
            size as nat,
            mime@,
            match token {
                Some(t) => Some(t@),
                None => None,
            },
        ),
{
    let mut v = chars_of(url);
    append_chars(&mut v, chars_of(";size=").as_slice());
    append_chars(&mut v, decimal_chars(size as u64).as_slice());
    let m = chars_of(mime);
    if m.len() > 0 {
        append_chars(&mut v, chars_of(";mime=").as_slice());
        append_chars(&mut v, m.as_slice());
    }
    match token {
        Some(t) => {
            append_chars(&mut v, chars_of(";token=").as_slice());
            append_chars(&mut v, chars_of(t).as_slice());
        },
        None => {},
    }
    v.push('\r');
    v.push('\n');
    string_of(v.as_slice())
}

/// Where an upload goes: the URL's host, and its port or titan's.
pub fn target(parts: &UrlParts) -> (r: Result<(String, u16), ClientError>)
    ensures
        match parts.host {
            None => r matches Err(ClientError::BadUrl(m)) && m@ == "titan URL has no host"@,
            Some(h) => r matches Ok((host, port)) && host@ == h@ && port == (match parts.port {
                Some(p) => p,
                None => DEFAULT_PORT,
            }),
        },
{
    match &parts.host {
        None => Err(ClientError::BadUrl("titan URL has no host".to_string())),
        Some(h) => Ok(
            (
                h.clone(),
                match parts.port {
                    Some(p) => p,
                    None => DEFAULT_PORT,
                },
            ),
        ),
    }
}

/// Where an upload to a URL given as text goes: a URL that does not parse
/// is refused with the parser's words; a parsed one goes as `target` says.
pub fn plan_upload(url: &str) -> (r: Result<(String, u16), ClientError>)
    ensures
        match url_parse(url@) {
            Err(e) => r matches Err(ClientError::BadUrl(m)) && m@ == e,
            Ok(u) => match u.1 {
                None => r matches Err(ClientError::BadUrl(m)) && m@ == "titan URL has no host"@,
                Some(h) => r matches Ok((host, port)) && host@ == h && port == (match u.2 {
                    Some(p) => p,
                    None => DEFAULT_PORT,
                }),
            },
        },
{
    match parse_url(url) {
        Err(e) => Err(ClientError::BadUrl(e)),
        Ok(parts) => target(&parts),
    }
}

} // verus!
