//! The logic of guppy's static-file handler: where a request path leads
//! under the served root, and the MIME type a file name suggests.
use vstd::prelude::*;
use vstd::utf8::{decode_utf8, encode_utf8, valid_utf8};

use crate::bytes::str_from_utf8;
use crate::spartan::files::{ascii_lower, extension, index_name, resolve_run};
use crate::text::{chars_of, split, string_views};
use crate::guppy::GuppyResponse;
use crate::urls::{pct_decode, percent_decode};

verus! {

broadcast use vstd::string::group_string_axioms;

/// Where a request path leads under the root, as segments to append: the
/// path percent-decoded (it must be UTF-8), its segments resolved as
/// `resolve_run` says, and `index.gmi` added when it ends in `/`.
pub open spec fn spec_resolve(path: Seq<char>) -> Option<Seq<Seq<char>>> {
    let bytes = pct_decode(encode_utf8(path));
    if !valid_utf8(bytes) {
        None
    } else {
        let d = decode_utf8(bytes);
        match resolve_run(split(d, '/')) {
            None => None,
            Some(segs) => if d.len() > 0 && d.last() == '/' {
                Some(segs.push(index_name()))
            } else {
                Some(segs)
            },
        }
    }
}

/// Resolves a request path to the segments to serve under the root.
pub fn resolve(request_path: &str) -> (r: Option<Vec<String>>)
    ensures
        match spec_resolve(request_path@) {
            Some(segs) => r matches Some(v) && string_views(v@) == segs,
            None => r is None,
        },
{
    match crate::spartan::files::resolve(request_path) {
        None => None,
        Some(mut segs) => {
            let bytes = percent_decode(request_path);
            let d = match str_from_utf8(bytes.as_slice()) {
                Some(d) => chars_of(d),
                None => return None,
            };
            // The shared resolver adds the index for an empty path too; a
            // guppy path names a directory only by its trailing slash.
            if d.len() == 0 {
                let ghost before = string_views(segs@);
                segs.pop();
                proof {
                    assert(string_views(segs@) =~= before.drop_last());
                    assert(before.drop_last().push(index_name()) =~= before);
                }
            }
            Some(segs)
        },
    }
}

/// The MIME type an extension suggests.
pub open spec fn spec_mime(ext: Seq<char>) -> Seq<char> {
    if ext == "gmi"@ || ext == "gemini"@ {
        "text/gemini"@
    } else if ext == "txt"@ || ext.len() == 0 {
        "text/plain"@
    } else if ext == "md"@ {
        "text/markdown"@
    } else if ext == "png"@ {
        "image/png"@
    } else if ext == "jpg"@ || ext == "jpeg"@ {
        "image/jpeg"@
    } else {
        "application/octet-stream"@
    }
}

/// The MIME type for a file name, by its extension, case ignored.
pub fn mime_for(file_name: &str) -> (r: &'static str)
    ensures
        r@ == spec_mime(ascii_lower(extension(file_name@))),
{
    let low = crate::spartan::files::lowered_extension(file_name);
    let e = low.as_slice();
    proof {
        reveal_strlit("gmi");
        reveal_strlit("gemini");
        reveal_strlit("txt");
        reveal_strlit("md");
        reveal_strlit("png");
        reveal_strlit("jpg");
        reveal_strlit("jpeg");
    }
    if crate::text::eq_str(e, "gmi") || crate::text::eq_str(e, "gemini") {
        "text/gemini"
    } else if crate::text::eq_str(e, "txt") || e.len() == 0 {
        "text/plain"
    } else if crate::text::eq_str(e, "md") {
        "text/markdown"
    } else if crate::text::eq_str(e, "png") {
        "image/png"
    } else if crate::text::eq_str(e, "jpg") || crate::text::eq_str(e, "jpeg") {
        "image/jpeg"
    } else {
        "application/octet-stream"
    }
}


/// The answer to a request for a path that leads nowhere.
pub fn bad_path() -> (r: GuppyResponse)
    ensures
        r matches GuppyResponse::Error { message } && message@ == "Bad path."@,
{
    GuppyResponse::Error { message: "Bad path.".to_string() }
}

/// The answer once the file is read, or could not be: its contents with
/// the MIME type its name suggests, or an error naming the request path.
pub fn answer(request_path: &str, file_name: &str, contents: Option<Vec<u8>>) -> (r:
    GuppyResponse)
    ensures
        match contents {
            Some(body) => r matches GuppyResponse::Success { mime, body: b } && mime@ == spec_mime(
                ascii_lower(extension(file_name@)),
            ) && b@ == body@,
            None => r matches GuppyResponse::Error { message } && message@ == request_path@
                + " not found"@,
        },
{
    match contents {
        Some(body) => GuppyResponse::Success { mime: mime_for(file_name).to_string(), body },
        None => GuppyResponse::Error { message: crate::text::concat(request_path, " not found") },
    }
}

} // verus!
