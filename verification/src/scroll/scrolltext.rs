//! The scrolltext document format (`text/scroll`): line types decided per
//! line, fenced code blocks grouped, and a separate inline pass for the
//! toggle markup inside a line.
use vstd::prelude::*;

use crate::text::{
    chars_of, find_whitespace, find_ws, is_whitespace, is_ws, lines, lines_of, opt_view,
    slice_chars, starts_with, string_of, string_views, trim, trim_end, trim_end_at, trim_start,
    trimmed, trimmed_end, trimmed_start, views,
};

verus! {

broadcast use vstd::string::group_string_axioms;

/// One line, or one grouped code block, of a scrolltext document.
#[derive(Clone, Debug, PartialEq, Eq)]
pub enum ScrollLine {
    /// `#` through `#####`: level 1 is the title, level 5 a textual title.
    Heading { level: u8, text: String },
    /// An ordinary paragraph line.
    Text(String),
    /// A blank line; it separates adjacent lists and quotes.
    Blank,
    /// `>` lines; `depth` counts the markers.
    Quote { depth: u8, text: String },
    /// A list item: `depth` counts the asterisks (one to four), and an
    /// ordered item's marker is kept as written.
    ListItem { depth: u8, ordinal: Option<String>, text: String },
    /// `=>` link, with the relation its label may end with.
    Link { url: String, label: String, relation: Option<Relation> },
    /// `=:` input link: the label is a prompt.
    InputLink { url: String, prompt: String },
    /// `---` on its own line.
    ThematicBreak,
    /// A fenced block: its tag and its lines, verbatim.
    CodeBlock { tag: Option<String>, lines: Vec<String> },
}

/// A link's declared relationship, from a trailing `[...]` on its label.
#[derive(Clone, Debug, PartialEq, Eq)]
pub struct Relation {
    pub polarity: Polarity,
    /// The tag, such as `Citation`; none for a bare `[+]` or `[-]`.
    pub tag: Option<String>,
}

#[derive(Clone, Copy, Debug, PartialEq, Eq, Structural)]
pub enum Polarity {
    Positive,
    Neutral,
    Negative,
}

/// A relation over character sequences.
pub type RelationModel = (Polarity, Option<Seq<char>>);

/// A document line over character sequences.
pub enum LineModel {
    Heading { level: u8, text: Seq<char> },
    Text(Seq<char>),
    Blank,
    Quote { depth: u8, text: Seq<char> },
    ListItem { depth: u8, ordinal: Option<Seq<char>>, text: Seq<char> },
    Link { url: Seq<char>, label: Seq<char>, relation: Option<RelationModel> },
    InputLink { url: Seq<char>, prompt: Seq<char> },
    ThematicBreak,
    CodeBlock { tag: Option<Seq<char>>, lines: Seq<Seq<char>> },
}

/// The model of an optional relation.
pub open spec fn relation_view(r: Option<Relation>) -> Option<RelationModel> {
    match r {
        Some(x) => Some((x.polarity, opt_view(x.tag))),
        None => None,
    }
}

impl View for ScrollLine {
    type V = LineModel;

    open spec fn view(&self) -> LineModel {
        match self {
            ScrollLine::Heading { level, text } => LineModel::Heading { level: *level, text: text@ },
            ScrollLine::Text(t) => LineModel::Text(t@),
            ScrollLine::Blank => LineModel::Blank,
            ScrollLine::Quote { depth, text } => LineModel::Quote { depth: *depth, text: text@ },
            ScrollLine::ListItem { depth, ordinal, text } => LineModel::ListItem {
                depth: *depth,
                ordinal: opt_view(*ordinal),
                text: text@,
            },
            ScrollLine::Link { url, label, relation } => LineModel::Link {
                url: url@,
                label: label@,
                relation: relation_view(*relation),
            },
            ScrollLine::InputLink { url, prompt } => LineModel::InputLink {
                url: url@,
                prompt: prompt@,
            },
            ScrollLine::ThematicBreak => LineModel::ThematicBreak,
            ScrollLine::CodeBlock { tag, lines } => LineModel::CodeBlock {
                tag: opt_view(*tag),
                lines: string_views(lines@),
            },
        }
    }
}

// ── Line types ─────────────────────────────────────────────────────────────

/// How many times `c` repeats at the start of `s`.
pub open spec fn leading_run(s: Seq<char>, c: char) -> nat
    decreases s.len(),
{
    if s.len() > 0 && s[0] == c {
        1 + leading_run(s.drop_first(), c)
    } else {
        0
    }
}

fn run_len(s: &[char], c: char) -> (r: usize)
    ensures
        r == leading_run(s@, c),
        r <= s.len(),
{
    let mut i: usize = 0;
    assert(s@.skip(0) =~= s@);
    while i < s.len() && s[i] == c
        invariant
            i <= s.len(),
            leading_run(s@, c) == i + leading_run(s@.skip(i as int), c),
        decreases s.len() - i,
    {
        assert(s@.skip(i as int).drop_first() =~= s@.skip(i + 1));
        assert(s@.skip(i as int)[0] == s[i as int]);
        i = i + 1;
    }
    if i < s.len() {
        assert(s@.skip(i as int)[0] == s[i as int]);
    }
    i
}

/// `s` starts with the characters of `p`.
pub open spec fn has_prefix(s: Seq<char>, p: Seq<char>) -> bool {
    p.is_prefix_of(s)
}

/// A line body that a backslash escapes: a list, heading, quote, link,
/// input link or fence marker, or a thematic break.
pub open spec fn is_escapable(rest: Seq<char>) -> bool {
    let stars = leading_run(rest, '*');
    let hashes = leading_run(rest, '#');
    ||| 1 <= stars <= 4
    ||| 1 <= hashes <= 5
    ||| (rest.len() > 0 && rest[0] == '>')
    ||| has_prefix(rest, seq!['=', '>'])
    ||| has_prefix(rest, seq!['=', ':'])
    ||| has_prefix(rest, seq!['`', '`', '`'])
    ||| rest == seq!['-', '-', '-']
}

fn escapable(rest: &[char]) -> (r: bool)
    ensures
        r == is_escapable(rest@),
{
    let stars = run_len(rest, '*');
    let hashes = run_len(rest, '#');
    let arrow = ['=', '>'];
    let input = ['=', ':'];
    let fence = ['`', '`', '`'];
    let rule = ['-', '-', '-'];
    assert(arrow@ =~= seq!['=', '>']);
    assert(input@ =~= seq!['=', ':']);
    assert(fence@ =~= seq!['`', '`', '`']);
    assert(rule@ =~= seq!['-', '-', '-']);
    (1 <= stars && stars <= 4) || (1 <= hashes && hashes <= 5) || (rest.len() > 0 && rest[0]
        == '>') || starts_with(rest, arrow.as_slice()) || starts_with(rest, input.as_slice())
        || starts_with(rest, fence.as_slice()) || crate::text::chars_eq(rest, rule.as_slice())
}

/// A link body's URL and label: whitespace after the marker is optional,
/// the URL runs to the next whitespace, and the label is the rest, trimmed.
pub open spec fn spec_split_link(rest: Seq<char>) -> (Seq<char>, Seq<char>) {
    let r = trim_start(rest);
    match find_ws(r) {
        Some(i) => (r.take(i), trim(r.skip(i + 1))),
        None => (r, seq![]),
    }
}

fn split_link(rest: &[char]) -> (r: (String, String))
    ensures
        r.0@ == spec_split_link(rest@).0,
        r.1@ == spec_split_link(rest@).1,
{
    let r = trimmed_start(rest);
    match find_whitespace(r.as_slice()) {
        Some(i) => {
            proof {
                crate::text::lemma_find_ws(r@);
            }
            assert(i < r.len());
            let url = slice_chars(r.as_slice(), 0, i);
            let label = trimmed(slice_chars(r.as_slice(), i + 1, r.len()).as_slice());
            (string_of(url.as_slice()), string_of(label.as_slice()))
        },
        None => (string_of(r.as_slice()), String::new()),
    }
}

/// The index of the last `c` in `s`.
pub open spec fn rfind(s: Seq<char>, c: char) -> Option<int>
    decreases s.len(),
{
    if s.len() == 0 {
        None
    } else if s.last() == c {
        Some(s.len() - 1)
    } else {
        rfind(s.drop_last(), c)
    }
}

proof fn lemma_rfind(s: Seq<char>, c: char)
    ensures
        rfind(s, c) matches Some(i) ==> 0 <= i < s.len() && s[i] == c,
    decreases s.len(),
{
    if s.len() > 0 && s.last() != c {
        lemma_rfind(s.drop_last(), c);
    }
}

pub fn rfind_chars(s: &[char], c: char) -> (r: Option<usize>)
    ensures
        match rfind(s@, c) {
            Some(i) => r == Some(i as usize) && 0 <= i < s.len(),
            None => r is None,
        },
{
    proof {
        lemma_rfind(s@, c);
    }
    let mut i = s.len();
    assert(s@.take(i as int) =~= s@);
    while i > 0
        invariant
            i <= s.len(),
            rfind(s@, c) == rfind(s@.take(i as int), c),
        decreases i,
    {
        assert(s@.take(i as int).last() == s[i - 1]);
        if s[i - 1] == c {
            return Some(i - 1);
        }
        assert(s@.take(i as int).drop_last() =~= s@.take(i - 1));
        i = i - 1;
    }
    None
}

/// A label's trailing `[relation]`: `[+tag]`, `[-tag]` or `[tag]`, the tag
/// optional for the signed forms; an empty `[]` is just brackets. The label
/// keeps the text before the bracket, trailing whitespace dropped.
pub open spec fn spec_split_relation(label: Seq<char>) -> (Seq<char>, Option<RelationModel>) {
    let t = trim_end(label);
    match rfind(t, '[') {
        None => (label, None),
        Some(open) => {
            let s = t.skip(open + 1);
            if !(s.len() > 0 && s.last() == ']') {
                (label, None)
            } else {
                let inner = s.drop_last();
                let (polarity, tag) = if inner.len() > 0 && inner[0] == '+' {
                    (Polarity::Positive, inner.drop_first())
                } else if inner.len() > 0 && inner[0] == '-' {
                    (Polarity::Negative, inner.drop_first())
                } else {
                    (Polarity::Neutral, inner)
                };
                if tag.len() == 0 && polarity == Polarity::Neutral {
                    (label, None)
                } else {
                    (
                        trim_end(t.take(open)),
                        Some(
                            (
                                polarity,
                                if tag.len() == 0 {
                                    None
                                } else {
                                    Some(tag)
                                },
                            ),
                        ),
                    )
                }
            }
        },
    }
}

fn split_relation(label: &[char]) -> (r: (String, Option<Relation>))
    ensures
        r.0@ == spec_split_relation(label@).0,
        relation_view(r.1) == spec_split_relation(label@).1,
{
    let t = trimmed_end(label);
    let open = match rfind_chars(t.as_slice(), '[') {
        None => return (string_of(label), None),
        Some(o) => o,
    };
    let s = slice_chars(t.as_slice(), open + 1, t.len());
    assert(s@ =~= t@.skip(open + 1));
    if !(s.len() > 0 && s[s.len() - 1] == ']') {
        return (string_of(label), None);
    }
    let inner = slice_chars(s.as_slice(), 0, s.len() - 1);
    assert(inner@ =~= s@.drop_last());
    let (polarity, tag) = if inner.len() > 0 && inner[0] == '+' {
        let x = slice_chars(inner.as_slice(), 1, inner.len());
        assert(x@ =~= inner@.drop_first());
        (Polarity::Positive, x)
    } else if inner.len() > 0 && inner[0] == '-' {
        let x = slice_chars(inner.as_slice(), 1, inner.len());
        assert(x@ =~= inner@.drop_first());
        (Polarity::Negative, x)
    } else {
        (Polarity::Neutral, inner)
    };
    if tag.len() == 0 && polarity == Polarity::Neutral {
        return (string_of(label), None);
    }
    let before = trimmed_end(slice_chars(t.as_slice(), 0, open).as_slice());
    assert(t@.subrange(0, open as int) =~= t@.take(open as int));
    let tag = if tag.len() == 0 {
        None
    } else {
        Some(string_of(tag.as_slice()))
    };
    (string_of(before.as_slice()), Some(Relation { polarity, tag }))
}

/// An ASCII letter.
pub open spec fn is_ascii_alpha(c: char) -> bool {
    ('a' <= c && c <= 'z') || ('A' <= c && c <= 'Z')
}

/// How many decimal digits start `s`.
pub open spec fn leading_digits(s: Seq<char>) -> nat
    decreases s.len(),
{
    if s.len() > 0 && crate::text::is_digit(s[0]) {
        1 + leading_digits(s.drop_first())
    } else {
        0
    }
}

fn digits_len(s: &[char]) -> (r: usize)
    ensures
        r == leading_digits(s@),
        r <= s.len(),
{
    let mut i: usize = 0;
    assert(s@.skip(0) =~= s@);
    while i < s.len() && crate::text::is_digit_char(s[i])
        invariant
            i <= s.len(),
            leading_digits(s@) == i + leading_digits(s@.skip(i as int)),
        decreases s.len() - i,
    {
        assert(s@.skip(i as int).drop_first() =~= s@.skip(i + 1));
        assert(s@.skip(i as int)[0] == s[i as int]);
        i = i + 1;
    }
    if i < s.len() {
        assert(s@.skip(i as int)[0] == s[i as int]);
    }
    i
}

/// An ordered-list marker split off an item's text: a run of digits, or one
/// ASCII letter, followed by a dot. The marker keeps its dot.
pub open spec fn spec_split_ordinal(text: Seq<char>) -> (Option<Seq<char>>, Seq<char>) {
    let digits = leading_digits(text);
    let marker_len: int = if digits > 0 {
        digits as int
    } else if text.len() > 0 && is_ascii_alpha(text[0]) {
        1
    } else {
        0
    };
    if marker_len > 0 && marker_len < text.len() && text[marker_len] == '.' {
        (Some(text.take(marker_len + 1)), trim_start(text.skip(marker_len + 1)))
    } else {
        (None, text)
    }
}

fn split_ordinal(text: &[char]) -> (r: (Option<String>, String))
    ensures
        opt_view(r.0) == spec_split_ordinal(text@).0,
        r.1@ == spec_split_ordinal(text@).1,
{
    let digits = digits_len(text);
    let marker_len: usize = if digits > 0 {
        digits
    } else if text.len() > 0 && (('a' <= text[0] && text[0] <= 'z') || ('A' <= text[0]
        && text[0] <= 'Z')) {
        1
    } else {
        0
    };
    if marker_len > 0 && marker_len < text.len() && text[marker_len] == '.' {
        let marker = slice_chars(text, 0, marker_len + 1);
        let rest = trimmed_start(slice_chars(text, marker_len + 1, text.len()).as_slice());
        assert(text@.subrange(marker_len + 1, text.len() as int) =~= text@.skip(marker_len + 1));
        return (Some(string_of(marker.as_slice())), string_of(rest.as_slice()));
    }
    (None, string_of(text))
}

/// What one line outside a code block is.
pub open spec fn spec_parse_line(raw: Seq<char>) -> LineModel {
    let stars = leading_run(raw, '*');
    if trim(raw).len() == 0 {
        LineModel::Blank
    } else if raw[0] == '\\' {
        if is_escapable(raw.drop_first()) {
            LineModel::Text(raw.drop_first())
        } else {
            LineModel::Text(raw)
        }
    } else if raw == seq!['-', '-', '-'] {
        LineModel::ThematicBreak
    } else if raw[0] == '#' {
        let level = leading_run(raw, '#');
        if level <= 5 {
            LineModel::Heading { level: level as u8, text: trim_start(raw.skip(level as int)) }
        } else {
            LineModel::Text(raw)
        }
    } else if raw[0] == '>' {
        let depth = leading_run(raw, '>');
        LineModel::Quote {
            depth: if depth < 255 {
                depth as u8
            } else {
                255u8
            },
            text: trim_start(raw.skip(depth as int)),
        }
    } else if has_prefix(raw, seq!['=', '>']) {
        let (url, label) = spec_split_link(raw.skip(2));
        let (label, relation) = spec_split_relation(label);
        LineModel::Link { url, label, relation }
    } else if has_prefix(raw, seq!['=', ':']) {
        let (url, prompt) = spec_split_link(raw.skip(2));
        LineModel::InputLink { url, prompt }
    } else if 1 <= stars <= 4 && stars < raw.len() && (raw[stars as int] == ' '
        || raw[stars as int] == '\t') {
        let (ordinal, text) = spec_split_ordinal(raw.skip(stars + 1 as int));
        LineModel::ListItem { depth: stars as u8, ordinal, text }
    } else {
        LineModel::Text(raw)
    }
}

fn parse_line(raw: &[char]) -> (r: ScrollLine)
    ensures
        r@ == spec_parse_line(raw@),
{
    let t = trimmed(raw);
    if t.len() == 0 {
        return ScrollLine::Blank;
    }
    proof {
        crate::text::lemma_trim_start_len(raw@);
        crate::text::lemma_trim_end_len(trim_start(raw@));
    }
    if raw[0] == '\\' {
        let rest = slice_chars(raw, 1, raw.len());
        assert(rest@ =~= raw@.drop_first());
        if escapable(rest.as_slice()) {
            return ScrollLine::Text(string_of(rest.as_slice()));
        }
        return ScrollLine::Text(string_of(raw));
    }
    let rule = ['-', '-', '-'];
    assert(rule@ =~= seq!['-', '-', '-']);
    if crate::text::chars_eq(raw, rule.as_slice()) {
        return ScrollLine::ThematicBreak;
    }
    if raw[0] == '#' {
        let level = run_len(raw, '#');
        if level <= 5 {
            let text = trimmed_start(slice_chars(raw, level, raw.len()).as_slice());
            assert(raw@.subrange(level as int, raw.len() as int) =~= raw@.skip(level as int));
            return ScrollLine::Heading { level: level as u8, text: string_of(text.as_slice()) };
        }
        return ScrollLine::Text(string_of(raw));
    }
    if raw[0] == '>' {
        let depth = run_len(raw, '>');
        let text = trimmed_start(slice_chars(raw, depth, raw.len()).as_slice());
        assert(raw@.subrange(depth as int, raw.len() as int) =~= raw@.skip(depth as int));
        let d: u8 = if depth < 255 {
            depth as u8
        } else {
            255
        };
        return ScrollLine::Quote { depth: d, text: string_of(text.as_slice()) };
    }
    let arrow = ['=', '>'];
    let input = ['=', ':'];
    assert(arrow@ =~= seq!['=', '>']);
    assert(input@ =~= seq!['=', ':']);
    if starts_with(raw, arrow.as_slice()) {
        let rest = slice_chars(raw, 2, raw.len());
        assert(rest@ =~= raw@.skip(2));
        let (url, label) = split_link(rest.as_slice());
        let lc = chars_of(label.as_str());
        let (label, relation) = split_relation(lc.as_slice());
        return ScrollLine::Link { url, label, relation };
    }
    if starts_with(raw, input.as_slice()) {
        let rest = slice_chars(raw, 2, raw.len());
        assert(rest@ =~= raw@.skip(2));
        let (url, prompt) = split_link(rest.as_slice());
        return ScrollLine::InputLink { url, prompt };
    }
    let stars = run_len(raw, '*');
    if 1 <= stars && stars <= 4 && stars < raw.len() && (raw[stars] == ' ' || raw[stars] == '\t') {
        let text = slice_chars(raw, stars + 1, raw.len());
        assert(text@ =~= raw@.skip(stars + 1));
        let (ordinal, text) = split_ordinal(text.as_slice());
        return ScrollLine::ListItem { depth: stars as u8, ordinal, text };
    }
    ScrollLine::Text(string_of(raw))
}

// ── Documents ──────────────────────────────────────────────────────────────

/// The parser's state between lines: the lines so far, and the open code
/// block's tag and collected lines, if one is open.
pub type DocState = (Seq<LineModel>, Option<(Option<Seq<char>>, Seq<Seq<char>>)>);

/// A line that opens or closes a fence.
pub open spec fn is_fence(raw: Seq<char>) -> bool {
    has_prefix(raw, seq!['`', '`', '`'])
}

/// One raw line through the parser: inside a code block everything is
/// verbatim until a fence closes it; outside, a fence opens one with the
/// tag after its backticks, and any other line is read on its own.
pub open spec fn doc_step(st: DocState, raw: Seq<char>) -> DocState {
    match st.1 {
        Some((tag, collected)) => if is_fence(raw) {
            (st.0.push(LineModel::CodeBlock { tag, lines: collected }), None)
        } else {
            (st.0, Some((tag, collected.push(raw))))
        },
        None => if is_fence(raw) {
            let t = trim(raw.skip(3));
            (st.0, Some((if t.len() == 0 {
                None
            } else {
                Some(t)
            }, seq![])))
        } else {
            (st.0.push(spec_parse_line(raw)), None)
        },
    }
}

/// The parser over a run of raw lines.
pub open spec fn doc_run(ls: Seq<Seq<char>>) -> DocState
    decreases ls.len(),
{
    if ls.len() == 0 {
        (seq![], None)
    } else {
        doc_step(doc_run(ls.drop_last()), ls.last())
    }
}

/// A document's lines: an unclosed fence still yields its block.
pub open spec fn spec_parse(text: Seq<char>) -> Seq<LineModel> {
    let st = doc_run(lines(text));
    match st.1 {
        Some((tag, collected)) => st.0.push(LineModel::CodeBlock { tag, lines: collected }),
        None => st.0,
    }
}

/// The models of a run of lines.
pub open spec fn line_views(v: Seq<ScrollLine>) -> Seq<LineModel> {
    v.map_values(|l: ScrollLine| l@)
}

/// The model of an open code block.
pub open spec fn code_view(c: Option<(Option<String>, Vec<String>)>) -> Option<
    (Option<Seq<char>>, Seq<Seq<char>>),
> {
    match c {
        Some((t, ls)) => Some((opt_view(t), string_views(ls@))),
        None => None,
    }
}

/// Parses a scrolltext document into lines, grouping code blocks.
pub fn parse(text: &str) -> (r: Vec<ScrollLine>)
    ensures
        line_views(r@) == spec_parse(text@),
{
    let chars = chars_of(text);
    let ls = lines_of(chars.as_slice());
    let ghost all = views(ls@);
    let mut out: Vec<ScrollLine> = Vec::new();
    let mut code: Option<(Option<String>, Vec<String>)> = None;
    let fence = ['`', '`', '`'];
    assert(fence@ =~= seq!['`', '`', '`']);
    let mut i: usize = 0;
    while i < ls.len()
        invariant
            i <= ls.len(),
            all == views(ls@),
            fence@ == seq!['`', '`', '`'],
            (line_views(out@), code_view(code)) == doc_run(all.take(i as int)),
        decreases ls.len() - i,
    {
        let raw = ls[i].as_slice();
        assert(all.take(i + 1).drop_last() =~= all.take(i as int));
        assert(all.take(i + 1).last() == raw@);
        let ghost before = line_views(out@);
        let opens = starts_with(raw, fence.as_slice());
        match code {
            Some((tag, collected)) => {
                if opens {
                    out.push(ScrollLine::CodeBlock { tag, lines: collected });
                    assert(line_views(out@) =~= before.push(out@.last()@));
                    code = None;
                } else {
                    let mut collected = collected;
                    let ghost old_lines = collected@;
                    collected.push(string_of(raw));
                    assert(string_views(collected@) =~= string_views(old_lines).push(raw@));
                    code = Some((tag, collected));
                }
            },
            None => {
                if opens {
                    let rest = slice_chars(raw, 3, raw.len());
                    assert(rest@ =~= raw@.skip(3));
                    let t = trimmed(rest.as_slice());
                    let tag = if t.len() == 0 {
                        None
                    } else {
                        Some(string_of(t.as_slice()))
                    };
                    assert(string_views(Seq::<String>::empty()) =~= Seq::<Seq<char>>::empty());
                    code = Some((tag, Vec::new()));
                } else {
                    out.push(parse_line(raw));
                    assert(line_views(out@) =~= before.push(out@.last()@));
                }
            },
        }
        i = i + 1;
    }
    assert(all.take(ls.len() as int) =~= all);
    match code {
        Some((tag, collected)) => {
            let ghost before = line_views(out@);
            out.push(ScrollLine::CodeBlock { tag, lines: collected });
            assert(line_views(out@) =~= before.push(out@.last()@));
        },
        None => {},
    }
    out
}

// ── Inline markup ──────────────────────────────────────────────────────────

/// A run of text with one inline style.
#[derive(Clone, Debug, PartialEq, Eq)]
pub struct Span {
    pub kind: SpanKind,
    pub text: String,
}

#[derive(Clone, Copy, Debug, PartialEq, Eq, Structural)]
pub enum SpanKind {
    Plain,
    /// `*strong*`
    Strong,
    /// `_emphasis_`
    Emphasis,
    /// `` `code` ``
    Code,
}

/// Whitespace for inline purposes, the zero-width space included.
pub open spec fn is_inline_ws(c: char) -> bool {
    is_ws(c) || c == '\u{200B}'
}

/// ASCII punctuation, which is what counts as a symbol next to a toggle.
pub open spec fn is_symbolic(c: char) -> bool {
    ('!' <= c && c <= '/') || (':' <= c && c <= '@') || ('[' <= c && c <= '`') || ('{' <= c
        && c <= '~')
}

/// The style a toggle character stands for.
pub open spec fn toggle_kind(c: char) -> Option<SpanKind> {
    if c == '*' {
        Some(SpanKind::Strong)
    } else if c == '_' {
        Some(SpanKind::Emphasis)
    } else if c == '`' {
        Some(SpanKind::Code)
    } else {
        None
    }
}

/// A neighbour that lets a toggle toggle: there, not whitespace, and not
/// the toggle character itself.
pub open spec fn good_neighbour(n: Option<char>, c: char) -> bool {
    n matches Some(x) && !is_inline_ws(x) && x != c
}

/// A neighbour that is a symbol.
pub open spec fn symbol_neighbour(n: Option<char>) -> bool {
    n matches Some(x) && is_symbolic(x)
}

/// Whether the character at `i` toggles a style, given the style open: a
/// toggle character toggles when one neighbour is good and not both are
/// symbols; inside code only the backtick counts.
pub open spec fn toggles_at(cs: Seq<char>, i: int, kind: SpanKind) -> Option<SpanKind> {
    let c = cs[i];
    match toggle_kind(c) {
        None => None,
        Some(candidate) => if kind == SpanKind::Code && candidate != SpanKind::Code {
            None
        } else {
            let before = if i > 0 {
                Some(cs[i - 1])
            } else {
                None
            };
            let after = if i + 1 < cs.len() {
                Some(cs[i + 1])
            } else {
                None
            };
            if !(symbol_neighbour(before) && symbol_neighbour(after)) && (good_neighbour(
                before,
                c,
            ) || good_neighbour(after, c)) {
                Some(candidate)
            } else {
                None
            }
        },
    }
}

/// The inline pass's state: spans so far, the text being gathered, and the
/// style open.
pub type SpanState = (Seq<(SpanKind, Seq<char>)>, Seq<char>, SpanKind);

/// Closing the text gathered so far into a span, when there is any.
pub open spec fn flush(out: Seq<(SpanKind, Seq<char>)>, current: Seq<char>, kind: SpanKind) -> Seq<
    (SpanKind, Seq<char>),
> {
    if current.len() > 0 {
        out.push((kind, current))
    } else {
        out
    }
}

/// The inline pass over the first `n` characters.
pub open spec fn span_run(cs: Seq<char>, n: nat) -> SpanState
    decreases n,
{
    if n == 0 {
        (seq![], seq![], SpanKind::Plain)
    } else {
        let (out, current, kind) = span_run(cs, (n - 1) as nat);
        match toggles_at(cs, n - 1, kind) {
            Some(candidate) => (
                flush(out, current, kind),
                seq![],
                if kind == candidate {
                    SpanKind::Plain
                } else {
                    candidate
                },
            ),
            None => (out, current.push(cs[n - 1]), kind),
        }
    }
}

/// A line's spans: whatever is open at the end closes there.
pub open spec fn spec_spans(line: Seq<char>) -> Seq<(SpanKind, Seq<char>)> {
    let (out, current, kind) = span_run(line, line.len());
    flush(out, current, kind)
}

/// The models of a run of spans.
pub open spec fn span_views(v: Seq<Span>) -> Seq<(SpanKind, Seq<char>)> {
    v.map_values(|s: Span| (s.kind, s.text@))
}

fn is_symbol_char(c: char) -> (r: bool)
    ensures
        r == is_symbolic(c),
{
    ('!' <= c && c <= '/') || (':' <= c && c <= '@') || ('[' <= c && c <= '`') || ('{' <= c
        && c <= '~')
}

fn good(n: Option<char>, c: char) -> (r: bool)
    ensures
        r == good_neighbour(n, c),
{
    match n {
        Some(x) => !(is_whitespace(x) || x == '\u{200B}') && x != c,
        None => false,
    }
}

fn symbol(n: Option<char>) -> (r: bool)
    ensures
        r == symbol_neighbour(n),
{
    match n {
        Some(x) => is_symbol_char(x),
        None => false,
    }
}

fn flush_into(out: &mut Vec<Span>, current: &mut Vec<char>, kind: SpanKind)
    ensures
        span_views(final(out)@) == flush(span_views(old(out)@), old(current)@, kind),
        final(current)@ == Seq::<char>::empty(),
{
    if current.len() > 0 {
        let ghost before = span_views(out@);
        out.push(Span { kind, text: string_of(current.as_slice()) });
        assert(span_views(out@) =~= before.push((kind, old(current)@)));
    }
    *current = Vec::new();
}

/// Splits one line's inline markup into spans: `*strong*`, `_emphasis_`
/// and `` `code` `` toggle as the rules of `toggles_at` say, and an open
/// style closes at the end of the line.
pub fn spans(line: &str) -> (r: Vec<Span>)
    ensures
        span_views(r@) == spec_spans(line@),
{
    let chars = chars_of(line);
    let mut out: Vec<Span> = Vec::new();
    let mut current: Vec<char> = Vec::new();
    let mut kind = SpanKind::Plain;
    let mut index: usize = 0;
    while index < chars.len()
        invariant
            index <= chars.len(),
            chars@ == line@,
            (span_views(out@), current@, kind) == span_run(chars@, index as nat),
        decreases chars.len() - index,
    {
        let c = chars[index];
        let toggle = match c {
            '*' => Some(SpanKind::Strong),
            '_' => Some(SpanKind::Emphasis),
            '`' => Some(SpanKind::Code),
            _ => None,
        };
        let toggles = match toggle {
            None => None,
            Some(candidate) => {
                if kind == SpanKind::Code && candidate != SpanKind::Code {
                    None
                } else {
                    let before = if index > 0 {
                        Some(chars[index - 1])
                    } else {
                        None
                    };
                    let after = if index + 1 < chars.len() {
                        Some(chars[index + 1])
                    } else {
                        None
                    };
                    let both_symbols = symbol(before) && symbol(after);
                    if !both_symbols && (good(before, c) || good(after, c)) {
                        Some(candidate)
                    } else {
                        None
                    }
                }
            },
        };
        assert(toggles == toggles_at(chars@, index as int, kind));
        match toggles {
            Some(candidate) => {
                flush_into(&mut out, &mut current, kind);
                kind = if kind == candidate {
                    SpanKind::Plain
                } else {
                    candidate
                };
            },
            None => current.push(c),
        }
        index = index + 1;
    }
    flush_into(&mut out, &mut current, kind);
    out
}

} // verus!
