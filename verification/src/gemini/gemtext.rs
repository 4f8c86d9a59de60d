//! Gemtext: gemini's line-oriented document format.
use vstd::prelude::*;

use crate::text::{
    append_chars, chars_of, find_whitespace, find_ws, lines, lines_of, slice_chars,
    starts_with_str, string_of, trim, trimmed, trimmed_start, trim_start, views,
};

verus! {

/// One line of a gemtext document.
#[derive(Clone, Debug, PartialEq, Eq)]
pub enum GemLine {
    /// `#`, `##` or `###`.
    Heading { level: u8, text: String },
    Text(String),
    /// `=>` a URL and an optional label.
    Link { url: String, label: String },
    /// `* `
    Item(String),
    /// `> `
    Quote(String),
    /// A fenced block, its alt text from the opening fence.
    Pre { alt: Option<String>, text: String },
    Blank,
}

/// A gemtext line over character sequences.
pub enum GemLineView {
    Heading { level: u8, text: Seq<char> },
    Text(Seq<char>),
    Link { url: Seq<char>, label: Seq<char> },
    Item(Seq<char>),
    Quote(Seq<char>),
    Pre { alt: Option<Seq<char>>, text: Seq<char> },
    Blank,
}

impl View for GemLine {
    type V = GemLineView;

    open spec fn view(&self) -> GemLineView {
        match self {
            GemLine::Heading { level, text } => GemLineView::Heading { level: *level, text: text@ },
            GemLine::Text(t) => GemLineView::Text(t@),
            GemLine::Link { url, label } => GemLineView::Link { url: url@, label: label@ },
            GemLine::Item(t) => GemLineView::Item(t@),
            GemLine::Quote(t) => GemLineView::Quote(t@),
            GemLine::Pre { alt, text } => GemLineView::Pre {
                alt: match alt {
                    Some(a) => Some(a@),
                    None => None,
                },
                text: text@,
            },
            GemLine::Blank => GemLineView::Blank,
        }
    }
}

/// The views of a run of lines.
pub open spec fn line_views(v: Seq<GemLine>) -> Seq<GemLineView> {
    v.map_values(|l: GemLine| l@)
}

/// A preformatted block's alt text: the rest of the fence line, trimmed, or
/// none when that is empty.
pub open spec fn spec_trimmed_or_none(value: Seq<char>) -> Option<Seq<char>> {
    if trim(value).len() == 0 {
        None
    } else {
        Some(trim(value))
    }
}

/// A link line after its `=>`: the URL up to the first whitespace and the
/// rest, trimmed, as the label. Nothing but whitespace is no link.
pub open spec fn spec_parse_link(rest: Seq<char>) -> Option<GemLineView> {
    let r = trim_start(rest);
    if r.len() == 0 {
        None
    } else {
        match find_ws(r) {
            Some(i) => Some(GemLineView::Link { url: r.take(i), label: trim(r.skip(i)) }),
            None => Some(GemLineView::Link { url: r, label: seq![] }),
        }
    }
}

/// The parser's state: the lines so far, and the alt text and collected text
/// of an open preformatted block.
pub type GemState = (Seq<GemLineView>, Option<(Option<Seq<char>>, Seq<char>)>);

/// One line through the parser. Inside a fence, a line opening with three
/// backticks closes it and any other is collected with a newline; outside,
/// the prefix decides the line's kind.
pub open spec fn gem_step(state: GemState, line: Seq<char>) -> GemState {
    let (out, pre) = state;
    let fence = seq!['`', '`', '`'];
    match pre {
        Some((alt, text)) => if fence.is_prefix_of(line) {
            (out.push(GemLineView::Pre { alt, text }), None)
        } else {
            (out, Some((alt, text + line + seq!['\n'])))
        },
        None => if fence.is_prefix_of(line) {
            (out, Some((spec_trimmed_or_none(line.skip(3)), seq![])))
        } else if seq!['#', '#', '#', ' '].is_prefix_of(line) {
            (out.push(GemLineView::Heading { level: 3, text: trim(line.skip(4)) }), None)
        } else if seq!['#', '#', ' '].is_prefix_of(line) {
            (out.push(GemLineView::Heading { level: 2, text: trim(line.skip(3)) }), None)
        } else if seq!['#', ' '].is_prefix_of(line) {
            (out.push(GemLineView::Heading { level: 1, text: trim(line.skip(2)) }), None)
        } else if seq!['=', '>'].is_prefix_of(line) {
            match spec_parse_link(line.skip(2)) {
                Some(link) => (out.push(link), None),
                None => (out, None),
            }
        } else if seq!['*', ' '].is_prefix_of(line) {
            (out.push(GemLineView::Item(trim(line.skip(2)))), None)
        } else if seq!['>', ' '].is_prefix_of(line) {
            (out.push(GemLineView::Quote(trim(line.skip(2)))), None)
        } else if line.len() == 0 {
            (out.push(GemLineView::Blank), None)
        } else {
            (out.push(GemLineView::Text(line)), None)
        },
    }
}

/// The parser after the given lines.
pub open spec fn gem_run(ls: Seq<Seq<char>>) -> GemState
    decreases ls.len(),
{
    if ls.len() == 0 {
        (seq![], None)
    } else {
        gem_step(gem_run(ls.drop_last()), ls.last())
    }
}

/// A document's lines: an unterminated fence still yields what it collected.
pub open spec fn spec_parse(body: Seq<char>) -> Seq<GemLineView> {
    let (out, pre) = gem_run(lines(body));
    match pre {
        Some((alt, text)) => out.push(GemLineView::Pre { alt, text }),
        None => out,
    }
}

fn trimmed_or_none(value: &[char]) -> (r: Option<String>)
    ensures
        match spec_trimmed_or_none(value@) {
            Some(t) => r matches Some(s) && s@ == t,
            None => r is None,
        },
{
    let t = trimmed(value);
    if t.len() == 0 {
        None
    } else {
        Some(string_of(t.as_slice()))
    }
}

fn parse_link(rest: &[char]) -> (r: Option<GemLine>)
    ensures
        match spec_parse_link(rest@) {
            Some(v) => r matches Some(l) && l@ == v,
            None => r is None,
        },
{
    let r = trimmed_start(rest);
    if r.len() == 0 {
        return None;
    }
    match find_whitespace(r.as_slice()) {
        Some(idx) => {
            proof {
                crate::text::lemma_find_ws(r@);
            }
            let url = string_of(slice_chars(r.as_slice(), 0, idx).as_slice());
            let tail = slice_chars(r.as_slice(), idx, r.len());
            let label = string_of(trimmed(tail.as_slice()).as_slice());
            Some(GemLine::Link { url, label })
        },
        None => Some(GemLine::Link { url: string_of(r.as_slice()), label: String::new() }),
    }
}

/// Parses a gemtext body into its lines.
pub fn parse(body: &str) -> (r: Vec<GemLine>)
    ensures
        line_views(r@) == spec_parse(body@),
{
    let chars = chars_of(body);
    let ls = lines_of(chars.as_slice());
    let mut out: Vec<GemLine> = Vec::new();
    let mut in_pre = false;
    let mut alt: Option<String> = None;
    let mut text: Vec<char> = Vec::new();
    let mut i: usize = 0;
    proof {
        reveal_strlit("```");
        reveal_strlit("### ");
        reveal_strlit("## ");
        reveal_strlit("# ");
        reveal_strlit("=>");
        reveal_strlit("* ");
        reveal_strlit("> ");
    }
    assert(views(ls@).take(0) =~= Seq::<Seq<char>>::empty());
    while i < ls.len()
        invariant
            i <= ls.len(),
            views(ls@) == lines(chars@),
            gem_run(views(ls@).take(i as int)) == (
                line_views(out@),
                if in_pre {
                    Some(
                        (
                            match alt {
                                Some(a) => Some(a@),
                                None => None,
                            },
                            text@,
                        ),
                    )
                } else {
                    None
                },
            ),
            "```"@ == seq!['`', '`', '`'],
            "### "@ == seq!['#', '#', '#', ' '],
            "## "@ == seq!['#', '#', ' '],
            "# "@ == seq!['#', ' '],
            "=>"@ == seq!['=', '>'],
            "* "@ == seq!['*', ' '],
            "> "@ == seq!['>', ' '],
        decreases ls.len() - i,
    {
        let line = ls[i].as_slice();
        let ghost prefix = views(ls@).take(i + 1);
        assert(prefix.drop_last() =~= views(ls@).take(i as int));
        assert(prefix.last() == line@);
        let ghost old_out = out@;
        let fence = starts_with_str(line, "```");
        if in_pre {
            if fence {
                let t = string_of(text.as_slice());
                let a = alt;
                alt = None;
                out.push(GemLine::Pre { alt: a, text: t });
                in_pre = false;
                text = Vec::new();
            } else {
                append_chars(&mut text, line);
                text.push('\n');
            }
        } else if fence {
            let rest = slice_chars(line, 3, line.len());
            alt = trimmed_or_none(rest.as_slice());
            text = Vec::new();
            in_pre = true;
        } else if starts_with_str(line, "### ") {
            let t = trimmed(slice_chars(line, 4, line.len()).as_slice());
            out.push(GemLine::Heading { level: 3, text: string_of(t.as_slice()) });
        } else if starts_with_str(line, "## ") {
            let t = trimmed(slice_chars(line, 3, line.len()).as_slice());
            out.push(GemLine::Heading { level: 2, text: string_of(t.as_slice()) });
        } else if starts_with_str(line, "# ") {
            let t = trimmed(slice_chars(line, 2, line.len()).as_slice());
            out.push(GemLine::Heading { level: 1, text: string_of(t.as_slice()) });
        } else if starts_with_str(line, "=>") {
            let rest = slice_chars(line, 2, line.len());
            match parse_link(rest.as_slice()) {
                Some(link) => out.push(link),
                None => {},
            }
        } else if starts_with_str(line, "* ") {
            let t = trimmed(slice_chars(line, 2, line.len()).as_slice());
            out.push(GemLine::Item(string_of(t.as_slice())));
        } else if starts_with_str(line, "> ") {
            let t = trimmed(slice_chars(line, 2, line.len()).as_slice());
            out.push(GemLine::Quote(string_of(t.as_slice())));
        } else if line.len() == 0 {
            out.push(GemLine::Blank);
        } else {
            out.push(GemLine::Text(string_of(line)));
        }
        proof {
            if out@.len() > old_out.len() {
                assert(line_views(out@) =~= line_views(old_out).push(out@.last()@));
            } else {
                assert(line_views(out@) =~= line_views(old_out));
            }
        }
        i = i + 1;
    }
    assert(views(ls@).take(ls.len() as int) =~= views(ls@));
    if in_pre {
        let ghost old_out = out@;
        out.push(GemLine::Pre { alt, text: string_of(text.as_slice()) });
        assert(line_views(out@) =~= line_views(old_out).push(out@.last()@));
    }
    out
}

} // verus!
