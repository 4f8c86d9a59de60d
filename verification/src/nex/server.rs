//! What a nex server decides: the selector it reads, where a selector
//! leads under the served root, and the bytes it answers with when the
//! answer is not a file's own.
use vstd::prelude::*;
use vstd::relations::{sorted_by, total_ordering};
use vstd::utf8::{decode_utf8, encode_utf8, valid_utf8};

use crate::bytes::{str_from_utf8, string_from_utf8_lossy, utf8_lossy};
use crate::nex::listing::trim_end_cr;
use crate::nex::spec_is_directory_path;
use crate::spartan::files::resolve_run;
use crate::text::{append_chars, chars_of, split, string_of, string_views, views};
use crate::urls::{pct_decode, percent_decode};

verus! {

broadcast use vstd::string::group_string_axioms;

// ── The selector ───────────────────────────────────────────────────────────

/// How reading the selector goes after one more byte.
#[derive(Debug, Clone, Copy, PartialEq, Eq, Structural)]
pub enum SelectorStep {
    /// A line feed ended the selector; it is not part of it.
    Done,
    /// The selector reached the cap: nex has no error reply, so the
    /// connection is closed.
    TooLong,
    /// Read on.
    More,
}

/// Takes one byte of the selector: a line feed ends it; any other byte is
/// kept, and once the kept bytes reach `max_request_line` the selector is
/// too long.
pub fn take_selector_byte(line: &mut Vec<u8>, byte: u8, max_request_line: usize) -> (r:
    SelectorStep)
    ensures
        byte == 10 ==> r == SelectorStep::Done && final(line)@ == old(line)@,
        byte != 10 ==> final(line)@ == old(line)@.push(byte) && r == (if final(line)@.len()
            >= max_request_line {
            SelectorStep::TooLong
        } else {
            SelectorStep::More
        }),
{
    if byte == 10 {
        return SelectorStep::Done;
    }
    line.push(byte);
    if line.len() >= max_request_line {
        SelectorStep::TooLong
    } else {
        SelectorStep::More
    }
}

/// The request path a selector names: its bytes read as UTF-8 (malformed
/// sequences replaced), then its trailing carriage returns dropped.
pub open spec fn spec_selector_path(line: Seq<u8>) -> Seq<char> {
    trim_end_cr(
        if valid_utf8(line) {
            decode_utf8(line)
        } else {
            utf8_lossy(line)
        },
    )
}

/// The request path a selector's bytes name.
pub fn selector_path(line: &[u8]) -> (r: String)
    ensures
        r@ == spec_selector_path(line@),
{
    let s = string_from_utf8_lossy(line);
    let cs = chars_of(s.as_str());
    let mut j: usize = cs.len();
    assert(cs@.take(cs.len() as int) =~= cs@);
    while j > 0 && cs[j - 1] == '\r'
        invariant
            j <= cs.len(),
            trim_end_cr(cs@) == trim_end_cr(cs@.take(j as int)),
        decreases j,
    {
        assert(cs@.take(j as int).drop_last() =~= cs@.take(j - 1));
        j = j - 1;
    }
    string_of(crate::text::slice_chars(cs.as_slice(), 0, j).as_slice())
}

// ── Where a selector leads ─────────────────────────────────────────────────

/// The segments a request path leads to under the root: the path
/// percent-decoded, which must be UTF-8, then its `/`-separated segments
/// with empty and `.` ones skipped; `..`, or a segment holding `\` or `:`,
/// leads nowhere.
pub open spec fn spec_resolve(path: Seq<char>) -> Option<Seq<Seq<char>>> {
    let bytes = pct_decode(encode_utf8(path));
    if !valid_utf8(bytes) {
        None
    } else {
        resolve_run(split(decode_utf8(bytes), '/'))
    }
}

/// Resolves a request path to the segments to append to the root.
pub fn resolve(request_path: &str) -> (r: Option<Vec<String>>)
    ensures
        match spec_resolve(request_path@) {
            Some(segs) => r matches Some(v) && string_views(v@) == segs,
            None => r is None,
        },
{
    match crate::spartan::files::resolve(request_path) {
        None => None,
        Some(mut segs) => {
            let bytes = percent_decode(request_path);
            let d = match str_from_utf8(bytes.as_slice()) {
                Some(d) => chars_of(d),
                None => return None,
            };
            // The shared resolver names the directory's index; a nex
            // directory is answered by its listing or its own index.
            if d.len() == 0 || d[d.len() - 1] == '/' {
                let ghost before = string_views(segs@);
                segs.pop();
                proof {
                    assert(string_views(segs@) =~= before.drop_last());
                }
            }
            Some(segs)
        },
    }
}

/// What a request leads to.
#[derive(Debug, Clone, PartialEq, Eq)]
pub enum Route {
    /// The path cannot be served: answered with `bad path`.
    BadPath,
    /// A directory by its path: its `index.nex`, else its listing.
    Directory(Vec<String>),
    /// A directory if the file system says so, else a file.
    Entry(Vec<String>),
}

/// Routes a request path: nowhere when it does not resolve, to a directory
/// when its form says so, else to whatever is there.
pub fn route(request_path: &str) -> (r: Route)
    ensures
        match spec_resolve(request_path@) {
            None => r == Route::BadPath,
            Some(segs) => if spec_is_directory_path(request_path@) {
                r matches Route::Directory(v) && string_views(v@) == segs
            } else {
                r matches Route::Entry(v) && string_views(v@) == segs
            },
        },
{
    match resolve(request_path) {
        None => Route::BadPath,
        Some(segs) => {
            if crate::nex::is_directory_path(request_path) {
                Route::Directory(segs)
            } else {
                Route::Entry(segs)
            }
        },
    }
}

/// The answer to a path that cannot be served.
pub const BAD_PATH_REPLY: &'static str = "bad path\n";

/// The answer to a path with nothing behind it.
pub fn not_found(request_path: &str) -> (r: String)
    ensures
        r@ == request_path@ + " not found\n"@,
{
    crate::text::concat(request_path, " not found\n")
}

/// A listing names a subdirectory with a trailing `/`.
pub fn entry_name(name: &str, is_dir: bool) -> (r: String)
    ensures
        r@ == (if is_dir {
            name@.push('/')
        } else {
            name@
        }),
{
    if is_dir {
        let mut v = chars_of(name);
        v.push('/');
        string_of(v.as_slice())
    } else {
        name.to_string()
    }
}

// ── Listings ───────────────────────────────────────────────────────────────

/// The order of names: by code point, a prefix first, which is the order
/// of their UTF-8 bytes.
pub open spec fn name_le(a: Seq<char>, b: Seq<char>) -> bool
    decreases a.len(),
{
    if a.len() == 0 {
        true
    } else if b.len() == 0 {
        false
    } else if a[0] != b[0] {
        a[0] < b[0]
    } else {
        name_le(a.drop_first(), b.drop_first())
    }
}

/// `name_le` as a relation.
pub open spec fn name_order() -> spec_fn(Seq<char>, Seq<char>) -> bool {
    |a: Seq<char>, b: Seq<char>| name_le(a, b)
}

proof fn lemma_name_le_refl(a: Seq<char>)
    ensures
        name_le(a, a),
    decreases a.len(),
{
    if a.len() > 0 {
        lemma_name_le_refl(a.drop_first());
    }
}

proof fn lemma_name_le_antisym(a: Seq<char>, b: Seq<char>)
    requires
        name_le(a, b),
        name_le(b, a),
    ensures
        a == b,
    decreases a.len(),
{
    if a.len() > 0 && b.len() > 0 {
        lemma_name_le_antisym(a.drop_first(), b.drop_first());
        assert(a =~= seq![a[0]] + a.drop_first());
        assert(b =~= seq![b[0]] + b.drop_first());
    } else {
        assert(a =~= b);
    }
}

proof fn lemma_name_le_trans(a: Seq<char>, b: Seq<char>, c: Seq<char>)
    requires
        name_le(a, b),
        name_le(b, c),
    ensures
        name_le(a, c),
    decreases a.len(),
{
    if a.len() > 0 && b.len() > 0 && c.len() > 0 && a[0] == b[0] && b[0] == c[0] {
        lemma_name_le_trans(a.drop_first(), b.drop_first(), c.drop_first());
    }
}

proof fn lemma_name_le_total(a: Seq<char>, b: Seq<char>)
    ensures
        name_le(a, b) || name_le(b, a),
    decreases a.len(),
{
    if a.len() > 0 && b.len() > 0 && a[0] == b[0] {
        lemma_name_le_total(a.drop_first(), b.drop_first());
    }
}

/// Names are totally ordered.
pub proof fn lemma_name_order_total()
    ensures
        total_ordering(name_order()),
{
    let r = name_order();
    assert forall|x: Seq<char>| #[trigger] r(x, x) by {
        lemma_name_le_refl(x);
    }
    assert forall|x: Seq<char>, y: Seq<char>| #[trigger] r(x, y) && #[trigger] r(y, x) implies x
        == y by {
        lemma_name_le_antisym(x, y);
    }
    assert forall|x: Seq<char>, y: Seq<char>, z: Seq<char>| #[trigger] r(x, y) && #[trigger] r(
        y,
        z,
    ) implies r(x, z) by {
        lemma_name_le_trans(x, y, z);
    }
    assert forall|x: Seq<char>, y: Seq<char>| #[trigger] r(x, y) || #[trigger] r(y, x) by {
        lemma_name_le_total(x, y);
    }
}

fn names_le(a: &[char], b: &[char]) -> (r: bool)
    ensures
        r == name_le(a@, b@),
{
    let mut i: usize = 0;
    assert(a@.skip(0) =~= a@);
    assert(b@.skip(0) =~= b@);
    while i < a.len() && i < b.len() && a[i] == b[i]
        invariant
            i <= a.len(),
            i <= b.len(),
            name_le(a@, b@) == name_le(a@.skip(i as int), b@.skip(i as int)),
        decreases a.len() - i,
    {
        assert(a@.skip(i as int).drop_first() =~= a@.skip(i + 1));
        assert(b@.skip(i as int).drop_first() =~= b@.skip(i + 1));
        i = i + 1;
    }
    if i == a.len() {
        true
    } else if i == b.len() {
        false
    } else {
        a[i] < b[i]
    }
}

proof fn lemma_insert_multiset(s: Seq<Seq<char>>, p: int, x: Seq<char>)
    requires
        0 <= p <= s.len(),
    ensures
        s.insert(p, x).to_multiset() =~= s.to_multiset().insert(x),
{
    broadcast use vstd::seq_lib::group_to_multiset_ensures;
    broadcast use vstd::multiset::group_multiset_axioms;

    let t = s.insert(p, x);
    assert(t.remove(p) =~= s);
    assert(t[p] == x);
    assert(t.to_multiset().count(x) > 0);
}

/// Names sorted by `name_le`, each name once for each time it is given.
pub fn sort_names(names: Vec<String>) -> (r: Vec<String>)
    ensures
        string_views(r@) == string_views(names@).sort_by(name_order()),
{
    let ghost input = string_views(names@);
    let ghost ord = name_order();
    proof {
        lemma_name_order_total();
    }
    let mut out: Vec<Vec<char>> = Vec::new();
    let mut i: usize = 0;
    assert(views(out@) =~= input.take(0));
    while i < names.len()
        invariant
            i <= names.len(),
            input == string_views(names@),
            ord == name_order(),
            total_ordering(ord),
            sorted_by(views(out@), ord),
            views(out@).to_multiset() == input.take(i as int).to_multiset(),
        decreases names.len() - i,
    {
        let x = chars_of(names[i].as_str());
        let mut p: usize = 0;
        while p < out.len() && !names_le(x.as_slice(), out[p].as_slice())
            invariant
                p <= out.len(),
                forall|k: int| 0 <= k < p ==> !name_le(x@, #[trigger] views(out@)[k]),
            decreases out.len() - p,
        {
            p = p + 1;
        }
        let ghost before = views(out@);
        out.insert(p, x);
        proof {
            let after = views(out@);
            assert(after =~= before.insert(p as int, x@));
            assert forall|a: int, b: int| 0 <= a < b < after.len() implies #[trigger] ord(
                after[a],
                after[b],
            ) by {
                if b == p {
                    lemma_name_le_total(x@, after[a]);
                } else if a == p {
                    assert(name_le(x@, before[p as int]));
                    if b > p + 1 {
                        assert(ord(before[p as int], before[b - 1]));
                        lemma_name_le_trans(x@, before[p as int], before[b - 1]);
                    }
                } else if a < p && b > p {
                    lemma_name_le_total(x@, before[a]);
                    if p < before.len() {
                        assert(name_le(x@, before[p as int]));
                    }
                    assert(ord(before[a], before[b - 1]));
                } else if a > p {
                    assert(ord(before[a - 1], before[b - 1]));
                } else {
                    assert(ord(before[a], before[b]));
                }
            }
            lemma_insert_multiset(before, p as int, x@);
            assert(input.take(i + 1) =~= input.take(i as int).push(x@));
            vstd::seq_lib::to_multiset_build(input.take(i as int), x@);
        }
        i = i + 1;
    }
    proof {
        assert(input.take(names.len() as int) =~= input);
        input.lemma_sort_by_ensures(ord);
        vstd::seq_lib::lemma_sorted_unique(views(out@), input.sort_by(ord), ord);
    }
    crate::text::strings_of(&out)
}

/// The listing a directory without an index is answered with: its path
/// as a heading, a blank line, then a link line per name, in order.
pub open spec fn listing_text(title: Seq<char>, names: Seq<Seq<char>>) -> Seq<char>
    decreases names.len(),
{
    if names.len() == 0 {
        title + seq!['\n', '\n']
    } else {
        listing_text(title, names.drop_last()) + seq!['=', '>', ' '] + names.last() + seq!['\n']
    }
}

/// The heading of a listing: the request path, or `/` for the empty one.
pub open spec fn listing_title(request_path: Seq<char>) -> Seq<char> {
    if request_path.len() == 0 {
        seq!['/']
    } else {
        request_path
    }
}

/// Writes a directory's listing: the names sorted, under the request path.
pub fn listing(request_path: &str, names: Vec<String>) -> (r: String)
    ensures
        r@ == listing_text(
            listing_title(request_path@),
            string_views(names@).sort_by(name_order()),
        ),
{
    let sorted = sort_names(names);
    let ghost ns = string_views(sorted@);
    let mut v = chars_of(request_path);
    if v.len() == 0 {
        v.push('/');
    }
    assert(v@ =~= listing_title(request_path@));
    v.push('\n');
    v.push('\n');
    let mut i: usize = 0;
    assert(ns.take(0) =~= Seq::<Seq<char>>::empty());
    while i < sorted.len()
        invariant
            i <= sorted.len(),
            ns == string_views(sorted@),
            v@ == listing_text(listing_title(request_path@), ns.take(i as int)),
        decreases sorted.len() - i,
    {
        assert(ns.take(i + 1).drop_last() =~= ns.take(i as int));
        v.push('=');
        v.push('>');
        v.push(' ');
        append_chars(&mut v, chars_of(sorted[i].as_str()).as_slice());
        v.push('\n');
        i = i + 1;
        assert(v@ =~= listing_text(listing_title(request_path@), ns.take(i as int)));
    }
    assert(ns.take(sorted.len() as int) =~= ns);
    string_of(v.as_slice())
}

} // verus!
