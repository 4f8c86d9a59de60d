//! The logic of a static-file handler: where a request path leads under
//! the served root, and the MIME type a file name suggests. Reading the
//! files is the caller's.
use vstd::prelude::*;
use vstd::utf8::{decode_utf8, encode_utf8, valid_utf8};

use crate::bytes::str_from_utf8;
use crate::text::{chars_of, split, split_char, string_of, string_views, views};
use crate::spartan::server::SpartanResponse;
use crate::urls::{pct_decode, percent_decode};

verus! {

broadcast use vstd::string::group_string_axioms;

/// A path segment that may be served: it holds no backslash and no colon.
pub open spec fn plain_segment(s: Seq<char>) -> bool {
    !s.contains('\\') && !s.contains(':')
}

/// The segments to serve, one decoded segment at a time: empty and `.`
/// segments are skipped, `..` or an unplain segment refuses the path.
pub open spec fn resolve_run(segs: Seq<Seq<char>>) -> Option<Seq<Seq<char>>>
    decreases segs.len(),
{
    if segs.len() == 0 {
        Some(seq![])
    } else {
        match resolve_run(segs.drop_last()) {
            None => None,
            Some(acc) => {
                let s = segs.last();
                if s.len() == 0 || s == seq!['.'] {
                    Some(acc)
                } else if s == seq!['.', '.'] || !plain_segment(s) {
                    None
                } else {
                    Some(acc.push(s))
                }
            },
        }
    }
}

/// The file name a directory serves.
pub open spec fn index_name() -> Seq<char> {
    seq!['i', 'n', 'd', 'e', 'x', '.', 'g', 'm', 'i']
}

/// Where a request path leads under the root, as the segments to append:
/// the path percent-decoded, which must be UTF-8, its segments resolved,
/// and `index.gmi` added when it names a directory (ends in `/`, or is
/// empty). A path that could escape the root leads nowhere.
pub open spec fn spec_resolve(path: Seq<char>) -> Option<Seq<Seq<char>>> {
    let bytes = pct_decode(encode_utf8(path));
    if !valid_utf8(bytes) {
        None
    } else {
        let d = decode_utf8(bytes);
        match resolve_run(split(d, '/')) {
            None => None,
            Some(segs) => if d.len() == 0 || d.last() == '/' {
                Some(segs.push(index_name()))
            } else {
                Some(segs)
            },
        }
    }
}

fn holds(s: &[char], c: char) -> (r: bool)
    ensures
        r == s@.contains(c),
{
    let mut i: usize = 0;
    while i < s.len()
        invariant
            i <= s.len(),
            forall|k: int| 0 <= k < i ==> s@[k] != c,
        decreases s.len() - i,
    {
        if s[i] == c {
            assert(s@[i as int] == c);
            return true;
        }
        i = i + 1;
    }
    false
}

/// Resolves a request path to the segments to serve under the root.
pub fn resolve(request_path: &str) -> (r: Option<Vec<String>>)
    ensures
        match spec_resolve(request_path@) {
            Some(segs) => r matches Some(v) && string_views(v@) == segs,
            None => r is None,
        },
{
    let bytes = percent_decode(request_path);
    let decoded = match str_from_utf8(bytes.as_slice()) {
        Some(d) => d,
        None => return None,
    };
    let d = chars_of(decoded);
    let segs = split_char(d.as_slice(), '/');
    let ghost all = views(segs@);
    let mut out: Vec<String> = Vec::new();
    let mut i: usize = 0;
    assert(all.take(0) =~= Seq::<Seq<char>>::empty());
    assert(string_views(out@) =~= Seq::<Seq<char>>::empty());
    while i < segs.len()
        invariant
            i <= segs.len(),
            all == views(segs@),
            all == split(d@, '/'),
            d@ == decode_utf8(bytes@),
            valid_utf8(bytes@),
            bytes@ == pct_decode(encode_utf8(request_path@)),
            resolve_run(all.take(i as int)) == Some(string_views(out@)),
        decreases segs.len() - i,
    {
        let s = segs[i].as_slice();
        assert(all.take(i + 1).drop_last() =~= all.take(i as int));
        assert(all.take(i + 1).last() == s@);
        let dot = ['.'];
        let dotdot = ['.', '.'];
        assert(dot@ =~= seq!['.']);
        assert(dotdot@ =~= seq!['.', '.']);
        if s.len() == 0 || crate::text::chars_eq(s, dot.as_slice()) {
        } else if crate::text::chars_eq(s, dotdot.as_slice()) || holds(s, '\\') || holds(s, ':') {
            assert(resolve_run(all.take(i + 1)) is None);
            proof {
                lemma_resolve_stays_none(all, i as int + 1);
            }
            return None;
        } else {
            let ghost before = string_views(out@);
            out.push(string_of(s));
            assert(string_views(out@) =~= before.push(s@));
        }
        i = i + 1;
    }
    assert(all.take(segs.len() as int) =~= all);
    if d.len() == 0 || d[d.len() - 1] == '/' {
        let ghost before = string_views(out@);
        let name = ['i', 'n', 'd', 'e', 'x', '.', 'g', 'm', 'i'];
        out.push(string_of(name.as_slice()));
        assert(name@ =~= index_name());
        assert(string_views(out@) =~= before.push(index_name()));
    }
    Some(out)
}

/// Once a prefix of the segments is refused, every longer one is too.
proof fn lemma_resolve_stays_none(segs: Seq<Seq<char>>, n: int)
    requires
        0 <= n <= segs.len(),
        resolve_run(segs.take(n)) is None,
    ensures
        resolve_run(segs) is None,
    decreases segs.len() - n,
{
    if n < segs.len() {
        assert(segs.take(n + 1).drop_last() =~= segs.take(n));
        lemma_resolve_stays_none(segs, n + 1);
    } else {
        assert(segs.take(n) =~= segs);
    }
}

/// A file name's extension, as `Path::extension` reads it: the text after
/// the last dot, unless that dot begins the name.
pub open spec fn extension(name: Seq<char>) -> Seq<char> {
    match crate::scroll::scrolltext::rfind(name, '.') {
        Some(i) => if i > 0 {
            name.skip(i + 1)
        } else {
            seq![]
        },
        None => seq![],
    }
}

/// ASCII letters lowered.
pub open spec fn ascii_lower(s: Seq<char>) -> Seq<char> {
    s.map_values(|c: char| if 'A' <= c && c <= 'Z' { ((c as u32) + 32) as char } else { c })
}

/// The MIME type an extension suggests; gemtext first.
pub open spec fn spec_mime(ext: Seq<char>) -> Seq<char> {
    if ext == "gmi"@ || ext == "gemini"@ {
        "text/gemini"@
    } else if ext == "txt"@ || ext.len() == 0 {
        "text/plain"@
    } else if ext == "md"@ {
        "text/markdown"@
    } else if ext == "html"@ || ext == "htm"@ {
        "text/html"@
    } else if ext == "png"@ {
        "image/png"@
    } else if ext == "jpg"@ || ext == "jpeg"@ {
        "image/jpeg"@
    } else if ext == "gif"@ {
        "image/gif"@
    } else if ext == "mp3"@ {
        "audio/mpeg"@
    } else if ext == "ogg"@ {
        "audio/ogg"@
    } else {
        "application/octet-stream"@
    }
}

/// The extensions with a MIME type of their own, each with its type.
pub open spec fn mime_table() -> Seq<(Seq<char>, Seq<char>)> {
    seq![
        (seq!['g', 'm', 'i'], "text/gemini"@),
        (seq!['g', 'e', 'm', 'i', 'n', 'i'], "text/gemini"@),
        (seq!['t', 'x', 't'], "text/plain"@),
        (seq!['m', 'd'], "text/markdown"@),
        (seq!['h', 't', 'm', 'l'], "text/html"@),
        (seq!['h', 't', 'm'], "text/html"@),
        (seq!['p', 'n', 'g'], "image/png"@),
        (seq!['j', 'p', 'g'], "image/jpeg"@),
        (seq!['j', 'p', 'e', 'g'], "image/jpeg"@),
        (seq!['g', 'i', 'f'], "image/gif"@),
        (seq!['m', 'p', '3'], "audio/mpeg"@),
        (seq!['o', 'g', 'g'], "audio/ogg"@),
    ]
}

proof fn lemma_rfind_after_dot(stem: Seq<char>, ext: Seq<char>)
    requires
        !ext.contains('.'),
    ensures
        crate::scroll::scrolltext::rfind(stem + seq!['.'] + ext, '.') == Some(stem.len() as int),
    decreases ext.len(),
{
    let name = stem + seq!['.'] + ext;
    if ext.len() > 0 {
        assert(name.last() == ext.last());
        assert(!ext.contains('.') ==> ext.last() != '.');
        assert(name.drop_last() =~= stem + seq!['.'] + ext.drop_last());
        assert(!ext.drop_last().contains('.')) by {
            if ext.drop_last().contains('.') {
                let k = choose|k: int| 0 <= k < ext.drop_last().len() && ext.drop_last()[k] == '.';
                assert(ext[k] == '.');
            }
        }
        lemma_rfind_after_dot(stem, ext.drop_last());
    } else {
        assert(name.last() == '.');
    }
}

/// A file named by any non-empty stem, a dot and a listed extension is
/// served as that extension's type.
pub proof fn lemma_mime_by_extension(stem: Seq<char>, i: int)
    requires
        stem.len() > 0,
        0 <= i < mime_table().len(),
    ensures
        spec_mime(ascii_lower(extension(stem + seq!['.'] + mime_table()[i].0))) == mime_table()[i].1,
{
    reveal_strlit("gmi");
    reveal_strlit("gemini");
    reveal_strlit("txt");
    reveal_strlit("md");
    reveal_strlit("html");
    reveal_strlit("htm");
    reveal_strlit("png");
    reveal_strlit("jpg");
    reveal_strlit("jpeg");
    reveal_strlit("gif");
    reveal_strlit("mp3");
    reveal_strlit("ogg");
    let ext = mime_table()[i].0;
    assert(forall|j: int| 0 <= j < ext.len() ==> ext[j] != '.' && !('A' <= ext[j] && ext[j] <= 'Z'));
    lemma_rfind_after_dot(stem, ext);
    let name = stem + seq!['.'] + ext;
    assert(name.skip(stem.len() as int + 1) =~= ext);
    assert(ascii_lower(ext) =~= ext);
    assert(extension(name) == ext);
    if i == 0 {
        assert(ext =~= "gmi"@);
    } else if i == 1 {
        assert(ext =~= "gemini"@);
    } else if i == 2 {
        assert(ext =~= "txt"@);
    } else if i == 3 {
        assert(ext =~= "md"@);
    } else if i == 4 {
        assert(ext =~= "html"@);
    } else if i == 5 {
        assert(ext =~= "htm"@);
    } else if i == 6 {
        assert(ext =~= "png"@);
    } else if i == 7 {
        assert(ext =~= "jpg"@);
    } else if i == 8 {
        assert(ext =~= "jpeg"@);
    } else if i == 9 {
        assert(ext =~= "gif"@);
    } else if i == 10 {
        assert(ext =~= "mp3"@);
    } else if i == 11 {
        assert(ext =~= "ogg"@);
    }
}

/// ASCII letters raised.
pub open spec fn ascii_upper(s: Seq<char>) -> Seq<char> {
    s.map_values(|c: char| if 'a' <= c && c <= 'z' { ((c as u32) - 32) as char } else { c })
}

/// Case does not matter: a listed extension written in capitals is served
/// as the same type.
pub proof fn lemma_mime_ignores_case(stem: Seq<char>, i: int)
    requires
        stem.len() > 0,
        0 <= i < mime_table().len(),
    ensures
        spec_mime(ascii_lower(extension(stem + seq!['.'] + ascii_upper(mime_table()[i].0))))
            == mime_table()[i].1,
{
    let ext = mime_table()[i].0;
    let up = ascii_upper(ext);
    assert(forall|j: int| 0 <= j < ext.len() ==> ext[j] != '.' && !('A' <= ext[j] && ext[j] <= 'Z'));
    assert(!up.contains('.')) by {
        if up.contains('.') {
            let k = choose|k: int| 0 <= k < up.len() && up[k] == '.';
            assert(up[k] == (if 'a' <= ext[k] && ext[k] <= 'z' { ((ext[k] as u32) - 32) as char } else { ext[k] }));
        }
    }
    lemma_rfind_after_dot(stem, up);
    let name = stem + seq!['.'] + up;
    assert(name.skip(stem.len() as int + 1) =~= up);
    assert(ascii_lower(up) =~= ext);
    lemma_mime_by_extension(stem, i);
    assert(!ext.contains('.')) by {
        if ext.contains('.') {
            let k = choose|k: int| 0 <= k < ext.len() && ext[k] == '.';
        }
    }
    lemma_rfind_after_dot(stem, ext);
    let plain = stem + seq!['.'] + ext;
    assert(plain.skip(stem.len() as int + 1) =~= ext);
    assert(ascii_lower(ext) =~= ext);
}

/// A file name's extension, its ASCII letters lowered.
pub fn lowered_extension(file_name: &str) -> (r: Vec<char>)
    ensures
        r@ == ascii_lower(extension(file_name@)),
{
    let name = chars_of(file_name);
    let ext = match crate::scroll::scrolltext::rfind_chars(name.as_slice(), '.') {
        Some(i) => if i > 0 {
            crate::text::slice_chars(name.as_slice(), i + 1, name.len())
        } else {
            Vec::new()
        },
        None => Vec::new(),
    };
    assert(ext@ =~= extension(file_name@));
    let mut low: Vec<char> = Vec::new();
    let mut k: usize = 0;
    while k < ext.len()
        invariant
            k <= ext.len(),
            low@ =~= ascii_lower(ext@).take(k as int),
        decreases ext.len() - k,
    {
        let c = ext[k];
        let l = if 'A' <= c && c <= 'Z' {
            ((c as u32) + 32) as u8 as char
        } else {
            c
        };
        assert(l == ascii_lower(ext@)[k as int]) by {
            if 'A' <= c && c <= 'Z' {
                assert(((c as u32) + 32) as u8 as char == ((c as u32) + 32) as char);
            }
        }
        low.push(l);
        k = k + 1;
    }
    assert(low@ =~= ascii_lower(ext@));
    low
}

/// The MIME type for a file name, by its extension, case ignored.
pub fn mime_for(file_name: &str) -> (r: &'static str)
    ensures
        r@ == spec_mime(ascii_lower(extension(file_name@))),
{
    let low = lowered_extension(file_name);
    let e = low.as_slice();
    proof {
        reveal_strlit("gmi");
        reveal_strlit("gemini");
        reveal_strlit("txt");
        reveal_strlit("md");
        reveal_strlit("html");
        reveal_strlit("htm");
        reveal_strlit("png");
        reveal_strlit("jpg");
        reveal_strlit("jpeg");
        reveal_strlit("gif");
        reveal_strlit("mp3");
        reveal_strlit("ogg");
    }
    if crate::text::eq_str(e, "gmi") || crate::text::eq_str(e, "gemini") {
        "text/gemini"
    } else if crate::text::eq_str(e, "txt") || e.len() == 0 {
        "text/plain"
    } else if crate::text::eq_str(e, "md") {
        "text/markdown"
    } else if crate::text::eq_str(e, "html") || crate::text::eq_str(e, "htm") {
        "text/html"
    } else if crate::text::eq_str(e, "png") {
        "image/png"
    } else if crate::text::eq_str(e, "jpg") || crate::text::eq_str(e, "jpeg") {
        "image/jpeg"
    } else if crate::text::eq_str(e, "gif") {
        "image/gif"
    } else if crate::text::eq_str(e, "mp3") {
        "audio/mpeg"
    } else if crate::text::eq_str(e, "ogg") {
        "audio/ogg"
    } else {
        "application/octet-stream"
    }
}


// ── The handler's answers ──────────────────────────────────────────────────

/// What a request for a file is answered with before the file system is
/// asked: an upload is refused, a path that leads nowhere is refused,
/// otherwise the segments to look at under the root.
pub fn plan(request_path: &str, data_len: usize) -> (r: Result<Vec<String>, SpartanResponse>)
    ensures
        if data_len > 0 {
            r matches Err(SpartanResponse::ClientError { message }) && message@
                == "This server does not accept uploads."@
        } else {
            match spec_resolve(request_path@) {
                None => r matches Err(SpartanResponse::ClientError { message }) && message@
                    == "Bad path."@,
                Some(segs) => r matches Ok(v) && string_views(v@) == segs,
            }
        },
{
    if data_len > 0 {
        return Err(
            SpartanResponse::ClientError {
                message: "This server does not accept uploads.".to_string(),
            },
        );
    }
    match resolve(request_path) {
        None => Err(SpartanResponse::ClientError { message: "Bad path.".to_string() }),
        Some(segs) => Ok(segs),
    }
}

/// What the file system said about the path a request leads to.
#[derive(Debug, Clone, PartialEq, Eq)]
pub enum Found {
    /// A directory.
    Directory,
    /// A file, with its contents.
    File(Vec<u8>),
    /// Nothing.
    Missing,
    /// Something that could not be read.
    Unreadable,
}

/// The answer to a request once the file system has been asked: a
/// directory named without its slash redirects to the slash form, a file
/// is served with the MIME type its name suggests, a missing one is a
/// client error naming the request path, an unreadable one a server error.
pub fn answer(request_path: &str, file_name: &str, found: Found) -> (r: SpartanResponse)
    ensures
        match found {
            Found::Directory => r matches SpartanResponse::Redirect { path } && path@
                == request_path@.push('/'),
            Found::File(body) => r matches SpartanResponse::Success { mime, body: b } && mime@
                == spec_mime(ascii_lower(extension(file_name@))) && b@ == body@,
            Found::Missing => r matches SpartanResponse::ClientError { message } && message@
                == "File "@ + request_path@ + " not found."@,
            Found::Unreadable => r matches SpartanResponse::ServerError { message } && message@
                == "Could not read file."@,
        },
{
    match found {
        Found::Directory => {
            let mut v = chars_of(request_path);
            v.push('/');
            SpartanResponse::Redirect { path: string_of(v.as_slice()) }
        },
        Found::File(body) => SpartanResponse::Success {
            mime: mime_for(file_name).to_string(),
            body,
        },
        Found::Missing => {
            let a = crate::text::concat("File ", request_path);
            SpartanResponse::ClientError { message: crate::text::concat(a.as_str(), " not found.") }
        },
        Found::Unreadable => SpartanResponse::ServerError {
            message: "Could not read file.".to_string(),
        },
    }
}

} // verus!
