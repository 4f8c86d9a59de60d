//! The text protocol (`text://`): three status codes, a request that is an
//! IRI and nothing else, and a body in which only `=>` link lines have
//! structure.
use vstd::prelude::*;

use crate::text::{
    append_chars, chars_of, eq_str, find_ws, find_whitespace, is_ws, join, lines, lines_of,
    split_once, split_once_char, string_of, string_views, trim, trim_end_crlf, trim_end_crlf_at,
    trim_start, trim_start_at, trimmed, views,
};

pub mod client;

verus! {

broadcast use vstd::string::group_string_axioms;

/// Plain TCP, the port the protocol names Mercury.
pub const DEFAULT_PORT: u16 = 1961;

/// TLS, the port the protocol names Gemini.
pub const DEFAULT_TLS_PORT: u16 = 1965;

/// Noise, the port the protocol names Apollo; recorded, not implemented.
pub const NOISE_PORT: u16 = 1968;

/// The three status codes; there are no others.
#[derive(Clone, Copy, Debug, PartialEq, Eq, Structural)]
pub enum Status {
    /// `20`: success; the meta is the MIME type and a body follows.
    Success,
    /// `30`: redirect; the meta is the target IRI.
    Redirect,
    /// `40`: error; the meta is a description.
    Nok,
}

/// The status a code names.
pub open spec fn spec_status(code: Seq<char>) -> Option<Status> {
    if code == seq!['2', '0'] {
        Some(Status::Success)
    } else if code == seq!['3', '0'] {
        Some(Status::Redirect)
    } else if code == seq!['4', '0'] {
        Some(Status::Nok)
    } else {
        None
    }
}

impl Status {
    /// The status a code names, if any.
    pub fn from_code(code: &str) -> (r: Option<Self>)
        ensures
            r == spec_status(code@),
    {
        let c = chars_of(code);
        proof {
            reveal_strlit("20");
            reveal_strlit("30");
            reveal_strlit("40");
            assert("20"@ =~= seq!['2', '0']);
            assert("30"@ =~= seq!['3', '0']);
            assert("40"@ =~= seq!['4', '0']);
        }
        if eq_str(c.as_slice(), "20") {
            Some(Self::Success)
        } else if eq_str(c.as_slice(), "30") {
            Some(Self::Redirect)
        } else if eq_str(c.as_slice(), "40") {
            Some(Self::Nok)
        } else {
            None
        }
    }
}

/// A parsed response header.
#[derive(Clone, Debug, PartialEq, Eq)]
pub struct Header {
    pub status: Status,
    /// MIME type, redirect target or error description, by status.
    pub meta: String,
}

/// What a header line reads as: its line ending dropped, the code before
/// the first space naming one of the three statuses, and the rest, trimmed,
/// as the meta.
pub open spec fn spec_parse_header(line: Seq<char>) -> Option<(Status, Seq<char>)> {
    let l = trim_end_crlf(line);
    let (code, meta) = match split_once(l, ' ') {
        Some((c, m)) => (c, m),
        None => (l, seq![]),
    };
    match spec_status(code) {
        Some(s) => Some((s, trim(meta))),
        None => None,
    }
}

/// Reads a response header line; `None` unless it is one of the three.
pub fn parse_header(line: &str) -> (r: Option<Header>)
    ensures
        match spec_parse_header(line@) {
            Some((s, m)) => r matches Some(h) && h.status == s && h.meta@ == m,
            None => r is None,
        },
{
    let all = chars_of(line);
    let end = trim_end_crlf_at(all.as_slice());
    let l = crate::text::slice_chars(all.as_slice(), 0, end);
    let (code, meta) = match split_once_char(l.as_slice(), ' ') {
        Some((c, m)) => (c, m),
        None => (l, Vec::new()),
    };
    let status = match Status::from_code(string_of(code.as_slice()).as_str()) {
        Some(s) => s,
        None => return None,
    };
    Some(Header { status, meta: string_of(trimmed(meta.as_slice()).as_slice()) })
}

/// Builds a request line: the IRI and CRLF, nothing else.
pub fn request_line(iri: &str) -> (r: String)
    ensures
        r@ == iri@ + seq!['\r', '\n'],
{
    let mut v = chars_of(iri);
    v.push('\r');
    v.push('\n');
    string_of(v.as_slice())
}

// ── The body ───────────────────────────────────────────────────────────────

/// One line of a body.
#[derive(Clone, Debug, PartialEq, Eq)]
pub enum Line {
    /// Ordinary text, verbatim.
    Text(String),
    /// A `=>` link line.
    Link(LinkLine),
}

/// A link line: the IRI, its `key=value` attributes, and any label.
#[derive(Clone, Debug, PartialEq, Eq)]
pub struct LinkLine {
    pub url: String,
    /// Tokens holding `=`, split at the first one, in order.
    pub attributes: Vec<(String, String)>,
    /// The remaining tokens joined by single spaces; `None` when there
    /// were none.
    pub label: Option<String>,
}

/// The whitespace-separated words of `s` (`split_whitespace`).
pub open spec fn words(s: Seq<char>) -> Seq<Seq<char>>
    decreases s.len(),
{
    let t = trim_start(s);
    if t.len() == 0 {
        seq![]
    } else {
        match find_ws(t) {
            Some(i) => {
                proof {
                    crate::text::lemma_trim_start_len(s);
                    crate::text::lemma_find_ws(t);
                    crate::text::lemma_trim_start_first(s);
                }
                seq![t.take(i)] + words(t.skip(i))
            },
            None => seq![t],
        }
    }
}

/// The words of a character slice.
pub fn words_of(s: &[char]) -> (r: Vec<Vec<char>>)
    ensures
        views(r@) == words(s@),
{
    let mut out: Vec<Vec<char>> = Vec::new();
    let mut rest = crate::text::slice_chars(s, 0, s.len());
    assert(rest@ =~= s@);
    assert(views(out@) + words(rest@) =~= words(s@));
    loop
        invariant
            views(out@) + words(rest@) == words(s@),
        decreases rest@.len(),
    {
        let a = trim_start_at(rest.as_slice());
        let t = crate::text::slice_chars(rest.as_slice(), a, rest.len());
        assert(t@ =~= trim_start(rest@));
        proof {
            crate::text::lemma_trim_start_len(rest@);
        }
        if t.len() == 0 {
            assert(words(rest@) =~= Seq::<Seq<char>>::empty());
            assert(views(out@) + Seq::<Seq<char>>::empty() =~= views(out@));
            return out;
        }
        let ghost before = views(out@);
        match find_whitespace(t.as_slice()) {
            Some(i) => {
                proof {
                    crate::text::lemma_find_ws(t@);
                    crate::text::lemma_trim_start_first(rest@);
                }
                let w = crate::text::slice_chars(t.as_slice(), 0, i);
                let next = crate::text::slice_chars(t.as_slice(), i, t.len());
                assert(next@ =~= t@.skip(i as int));
                out.push(w);
                assert(views(out@) =~= before.push(w@));
                assert(words(rest@) == seq![w@] + words(next@));
                assert(views(out@) + words(next@) =~= before + words(rest@));
                rest = next;
            },
            None => {
                out.push(t);
                assert(views(out@) =~= before.push(trim_start(rest@)));
                assert(views(out@) =~= before + words(rest@));
                return out;
            },
        }
    }
}

/// The link-line parser's state after some tokens: the attributes so far
/// and the label's words so far.
pub type LinkState = (Seq<(Seq<char>, Seq<char>)>, Seq<Seq<char>>);

/// One token after the URL: a `key=value` with a non-empty key is an
/// attribute until the label has started; anything else is label text.
pub open spec fn link_step(st: LinkState, tok: Seq<char>) -> LinkState {
    match split_once(tok, '=') {
        Some((k, v)) => if st.1.len() == 0 && k.len() > 0 {
            (st.0.push((k, v)), st.1)
        } else {
            (st.0, st.1.push(tok))
        },
        None => (st.0, st.1.push(tok)),
    }
}

/// The link-line parser over some tokens.
pub open spec fn link_run(toks: Seq<Seq<char>>) -> LinkState
    decreases toks.len(),
{
    if toks.len() == 0 {
        (seq![], seq![])
    } else {
        link_step(link_run(toks.drop_last()), toks.last())
    }
}

/// A link line after its `=>`: the first word is the URL (empty if none),
/// the rest go through `link_step`, and the label's words are joined by
/// single spaces.
pub open spec fn spec_link(rest: Seq<char>) -> (Seq<char>, Seq<(Seq<char>, Seq<char>)>, Option<Seq<char>>) {
    let w = words(rest);
    let url = if w.len() > 0 {
        w[0]
    } else {
        seq![]
    };
    let st = link_run(
        if w.len() > 0 {
            w.drop_first()
        } else {
            seq![]
        },
    );
    (url, st.0, if st.1.len() == 0 {
        None
    } else {
        Some(join(st.1, ' '))
    })
}

/// The views of some pairs of strings.
pub open spec fn pair_views(v: Seq<(String, String)>) -> Seq<(Seq<char>, Seq<char>)> {
    v.map_values(|p: (String, String)| (p.0@, p.1@))
}

/// The model of a link line.
pub open spec fn link_view(l: LinkLine) -> (Seq<char>, Seq<(Seq<char>, Seq<char>)>, Option<Seq<char>>) {
    (
        l.url@,
        pair_views(l.attributes@),
        crate::text::opt_view(l.label),
    )
}

fn join_words(ws: &Vec<Vec<char>>) -> (r: String)
    requires
        ws@.len() > 0,
    ensures
        r@ == join(views(ws@), ' '),
{
    let ghost vs = views(ws@);
    let mut i: usize = ws.len() - 1;
    let mut v: Vec<char> = crate::text::slice_chars(ws[i].as_slice(), 0, ws[i].len());
    assert(vs.skip(i as int) =~= seq![vs[i as int]]);
    while i > 0
        invariant
            0 <= i < ws@.len(),
            vs == views(ws@),
            v@ == join(vs.skip(i as int), ' '),
        decreases i,
    {
        let mut w = crate::text::slice_chars(ws[i - 1].as_slice(), 0, ws[i - 1].len());
        w.push(' ');
        append_chars(&mut w, v.as_slice());
        assert(vs.skip(i - 1).drop_first() =~= vs.skip(i as int));
        assert(vs.skip(i - 1)[0] == vs[i - 1]);
        v = w;
        i = i - 1;
    }
    assert(vs.skip(0) =~= vs);
    string_of(v.as_slice())
}

fn parse_link(rest: &[char]) -> (r: LinkLine)
    ensures
        link_view(r) == spec_link(rest@),
{
    let w = words_of(rest);
    let ghost ws = views(w@);
    let url = if w.len() > 0 {
        string_of(w[0].as_slice())
    } else {
        String::new()
    };
    let ghost toks = if ws.len() > 0 {
        ws.drop_first()
    } else {
        Seq::<Seq<char>>::empty()
    };
    let mut attributes: Vec<(String, String)> = Vec::new();
    let mut label: Vec<Vec<char>> = Vec::new();
    let mut i: usize = 1;
    assert(toks.take(0) =~= Seq::<Seq<char>>::empty());
    assert(pair_views(attributes@) =~= Seq::<
        (Seq<char>, Seq<char>),
    >::empty());
    while i < w.len()
        invariant
            1 <= i,
            w@.len() > 0 ==> i <= w@.len(),
            w@.len() == 0 ==> i == 1,
            ws == views(w@),
            toks == (if ws.len() > 0 {
                ws.drop_first()
            } else {
                Seq::<Seq<char>>::empty()
            }),
            (pair_views(attributes@), views(label@))
                == link_run(toks.take(i - 1)),
        decreases w.len() - i,
    {
        let tok = w[i].as_slice();
        assert(toks.take(i as int).drop_last() =~= toks.take(i - 1));
        assert(toks.take(i as int).last() == tok@);
        let ghost before_a = pair_views(attributes@);
        let ghost before_l = views(label@);
        match split_once_char(tok, '=') {
            Some((k, v)) => {
                if label.len() == 0 && k.len() > 0 {
                    attributes.push((string_of(k.as_slice()), string_of(v.as_slice())));
                    assert(pair_views(attributes@)
                        =~= before_a.push((k@, v@)));
                } else {
                    let copy = crate::text::slice_chars(tok, 0, tok.len());
                    assert(copy@ =~= tok@);
                    label.push(copy);
                    assert(views(label@) =~= before_l.push(tok@));
                }
            },
            None => {
                let copy = crate::text::slice_chars(tok, 0, tok.len());
                assert(copy@ =~= tok@);
                label.push(copy);
                assert(views(label@) =~= before_l.push(tok@));
            },
        }
        i = i + 1;
    }
    if w.len() > 0 {
        assert(i == w.len());
        assert(toks.take(i - 1) =~= toks);
    } else {
        assert(toks.take(i - 1) =~= toks);
    }
    let ghost st = link_run(toks);
    assert(pair_views(attributes@) == st.0);
    assert(views(label@) == st.1);
    let label = if label.len() == 0 {
        None
    } else {
        Some(join_words(&label))
    };
    assert(url@ == (if ws.len() > 0 {
        ws[0]
    } else {
        Seq::<char>::empty()
    }));
    LinkLine { url, attributes, label }
}

/// The model of a body line.
pub enum LineModel {
    Text(Seq<char>),
    Link((Seq<char>, Seq<(Seq<char>, Seq<char>)>, Option<Seq<char>>)),
}

/// The model of a line.
pub open spec fn line_view(l: Line) -> LineModel {
    match l {
        Line::Text(t) => LineModel::Text(t@),
        Line::Link(k) => LineModel::Link(link_view(k)),
    }
}

/// What one body line is: a `=>` line is a link, anything else text.
pub open spec fn spec_line(raw: Seq<char>) -> LineModel {
    if seq!['=', '>'].is_prefix_of(raw) {
        LineModel::Link(spec_link(raw.skip(2)))
    } else {
        LineModel::Text(raw)
    }
}

/// Reads a body into lines; only `=>` is structural.
pub fn parse_body(body: &str) -> (r: Vec<Line>)
    ensures
        r@.len() == lines(body@).len(),
        forall|i: int| 0 <= i < r@.len() ==> line_view(#[trigger] r@[i]) == spec_line(lines(body@)[i]),
{
    let chars = chars_of(body);
    let ls = lines_of(chars.as_slice());
    let mut out: Vec<Line> = Vec::new();
    let arrow = ['=', '>'];
    assert(arrow@ =~= seq!['=', '>']);
    let mut i: usize = 0;
    while i < ls.len()
        invariant
            i <= ls.len(),
            views(ls@) == lines(body@),
            arrow@ == seq!['=', '>'],
            out@.len() == i,
            forall|k: int| 0 <= k < i ==> line_view(#[trigger] out@[k]) == spec_line(lines(body@)[k]),
        decreases ls.len() - i,
    {
        let raw = ls[i].as_slice();
        assert(raw@ == lines(body@)[i as int]);
        if crate::text::starts_with(raw, arrow.as_slice()) {
            let rest = crate::text::slice_chars(raw, 2, raw.len());
            assert(rest@ =~= raw@.skip(2));
            out.push(Line::Link(parse_link(rest.as_slice())));
        } else {
            out.push(Line::Text(string_of(raw)));
        }
        i = i + 1;
    }
    out
}

} // verus!
