//! The directory-listing format: text where a line that begins `=> ` and
//! has more than whitespace after it is a link to the URL that follows.
use vstd::prelude::*;

use crate::text::{
    chars_of, find_whitespace, find_ws, lines, lines_of, slice_chars, string_of, trim, trim_start,
    trimmed, trimmed_start, views,
};

verus! {

broadcast use vstd::string::group_string_axioms;

/// One line of a listing.
#[derive(Debug, Clone, PartialEq, Eq)]
pub enum ListingLine {
    /// A `=> ` line: the URL, and the text after the first whitespace that
    /// follows it, trimmed, as a label when there is any.
    Link { url: String, label: Option<String> },
    /// Any other line, verbatim.
    Text(String),
}

/// A listing line over character sequences.
pub enum ListingModel {
    Link(Seq<char>, Option<Seq<char>>),
    Text(Seq<char>),
}

/// The model of a listing line.
pub open spec fn listing_view(l: ListingLine) -> ListingModel {
    match l {
        ListingLine::Link { url, label } => ListingModel::Link(url@, crate::text::opt_view(label)),
        ListingLine::Text(t) => ListingModel::Text(t@),
    }
}

/// `s` without the carriage returns at its end.
pub open spec fn trim_end_cr(s: Seq<char>) -> Seq<char>
    decreases s.len(),
{
    if s.len() > 0 && s.last() == '\r' {
        trim_end_cr(s.drop_last())
    } else {
        s
    }
}

/// The link arrow with its space.
pub open spec fn arrow() -> Seq<char> {
    seq!['=', '>', ' ']
}

/// What the text after a link's arrow holds: the URL up to the first
/// whitespace, and what follows that whitespace, trimmed, unless empty.
pub open spec fn spec_link(rest: Seq<char>) -> ListingModel {
    let r = trim_start(rest);
    match find_ws(r) {
        Some(i) => {
            let label = trim(r.skip(i + 1));
            ListingModel::Link(
                r.take(i),
                if label.len() == 0 {
                    None
                } else {
                    Some(label)
                },
            )
        },
        None => ListingModel::Link(r, None),
    }
}

/// What one line of a listing is, once its line ending is gone: a link when
/// it begins `=> ` and something other than whitespace follows, else text.
pub open spec fn spec_line(raw: Seq<char>) -> ListingModel {
    let line = trim_end_cr(raw);
    if arrow().is_prefix_of(line) && trim(line.skip(3)).len() > 0 {
        spec_link(line.skip(3))
    } else {
        ListingModel::Text(line)
    }
}

fn trim_end_cr_at(s: &[char]) -> (j: usize)
    ensures
        j <= s.len(),
        trim_end_cr(s@) == s@.take(j as int),
{
    let mut j: usize = s.len();
    assert(s@.take(s.len() as int) =~= s@);
    while j > 0 && s[j - 1] == '\r'
        invariant
            j <= s.len(),
            trim_end_cr(s@) == trim_end_cr(s@.take(j as int)),
        decreases j,
    {
        assert(s@.take(j as int).drop_last() =~= s@.take(j - 1));
        j = j - 1;
    }
    j
}

fn parse_link(rest: &[char]) -> (r: ListingLine)
    ensures
        listing_view(r) == spec_link(rest@),
{
    let r = trimmed_start(rest);
    match find_whitespace(r.as_slice()) {
        Some(i) => {
            proof {
                crate::text::lemma_find_ws(r@);
            }
            let url = slice_chars(r.as_slice(), 0, i);
            let after = slice_chars(r.as_slice(), i + 1, r.len());
            assert(after@ =~= r@.skip(i + 1));
            assert(url@ =~= r@.take(i as int));
            let label = trimmed(after.as_slice());
            ListingLine::Link {
                url: string_of(url.as_slice()),
                label: if label.len() == 0 {
                    None
                } else {
                    Some(string_of(label.as_slice()))
                },
            }
        },
        None => ListingLine::Link { url: string_of(r.as_slice()), label: None },
    }
}

/// Reads a listing into its lines, in order.
pub fn parse_listing(text: &str) -> (r: Vec<ListingLine>)
    ensures
        r@.len() == lines(text@).len(),
        forall|i: int|
            0 <= i < r@.len() ==> listing_view(#[trigger] r@[i]) == spec_line(lines(text@)[i]),
{
    let chars = chars_of(text);
    let ls = lines_of(chars.as_slice());
    let mut out: Vec<ListingLine> = Vec::new();
    let mut i: usize = 0;
    while i < ls.len()
        invariant
            i <= ls.len(),
            views(ls@) == lines(text@),
            out@.len() == i,
            forall|k: int|
                0 <= k < i ==> listing_view(#[trigger] out@[k]) == spec_line(lines(text@)[k]),
        decreases ls.len() - i,
    {
        let raw = ls[i].as_slice();
        assert(raw@ == lines(text@)[i as int]);
        let j = trim_end_cr_at(raw);
        let line = slice_chars(raw, 0, j);
        let is_link = line.len() >= 3 && line[0] == '=' && line[1] == '>' && line[2] == ' ';
        assert(is_link == arrow().is_prefix_of(line@)) by {
            if line@.len() >= 3 {
                assert(arrow().is_prefix_of(line@) <==> (line@[0] == '=' && line@[1] == '>'
                    && line@[2] == ' ')) by {
                    if line@[0] == '=' && line@[1] == '>' && line@[2] == ' ' {
                        assert(line@.take(3) =~= arrow());
                    }
                    if arrow().is_prefix_of(line@) {
                        assert(line@[0] == arrow()[0]);
                        assert(line@[1] == arrow()[1]);
                        assert(line@[2] == arrow()[2]);
                    }
                }
            }
        }
        if is_link {
            let rest = slice_chars(line.as_slice(), 3, line.len());
            assert(rest@ =~= line@.skip(3));
            let t = trimmed(rest.as_slice());
            if t.len() > 0 {
                out.push(parse_link(rest.as_slice()));
            } else {
                out.push(ListingLine::Text(string_of(line.as_slice())));
            }
        } else {
            out.push(ListingLine::Text(string_of(line.as_slice())));
        }
        i = i + 1;
    }
    out
}

} // verus!
