//! Gopher+: the reply header, attribute blocks, views, ASK forms and the
//! request token.
use vstd::prelude::*;
use vstd::string::StrSliceExecFns;

use crate::text::{
    nonempty_trimmed, append_chars, chars_of, eq_str, find_ws, find_whitespace, first_word, first_word_of,
    is_period, is_period_line, lines, lines_of, opt_view, parse_u64, parse_unsigned, slice_chars,
    split, split_char, split_once, split_once_char, string_of, string_views, trim, trim_end_at,
    trim_end_crlf, trim_end_crlf_at, trim_start_at, trimmed, trimmed_start, until_period, views,
};

verus! {

broadcast use vstd::string::group_string_axioms;

// ── Response header ────────────────────────────────────────────────────────

/// How a Gopher+ reply's body is delimited.
#[derive(Clone, Debug, PartialEq, Eq, Structural)]
pub enum PlusHeader {
    /// `+n`: exactly this many bytes.
    Length(u64),
    /// `+-1`: the body ends with a lone period.
    PeriodTerminated,
    /// `+-2`: the body runs until the server closes.
    UntilClose,
    /// `--`: an error follows.
    Error,
}

/// A header line that is none of the forms the protocol defines; it holds
/// the line.
#[derive(Clone, Debug, PartialEq, Eq)]
pub struct MalformedHeader(pub String);

impl MalformedHeader {
    /// A sentence saying what went wrong.
    pub fn to_string(&self) -> (r: String)
        ensures
            r@ == seq!['m', 'a', 'l', 'f', 'o', 'r', 'm', 'e', 'd', ' ', 'g', 'o', 'p', 'h', 'e',
                'r', '+', ' ', 'h', 'e', 'a', 'd', 'e', 'r', ':', ' '] + self.0@,
    {
        proof {
            reveal_strlit("malformed gopher+ header: ");
        }
        crate::text::concat("malformed gopher+ header: ", self.0.as_str())
    }
}

/// A header line read: its sign, then the first word after it. `-` is an
/// error whatever follows; `+` with `-1`, `-2` or a count names how the body
/// ends; anything else is malformed, and carries the line without its line
/// ending.
pub open spec fn spec_parse_header(line: Seq<char>) -> Result<PlusHeader, Seq<char>> {
    let l = trim_end_crlf(line);
    if l.len() == 0 {
        Err(l)
    } else {
        let token = first_word(l.drop_first());
        if l[0] == '-' {
            Ok(PlusHeader::Error)
        } else if l[0] == '+' {
            if token == seq!['-', '1'] {
                Ok(PlusHeader::PeriodTerminated)
            } else if token == seq!['-', '2'] {
                Ok(PlusHeader::UntilClose)
            } else {
                match parse_unsigned(token, u64::MAX as nat) {
                    Some(n) => Ok(PlusHeader::Length(n as u64)),
                    None => Err(l),
                }
            }
        } else {
            Err(l)
        }
    }
}

/// Reads a Gopher+ reply header.
pub fn parse_header(line: &str) -> (r: Result<PlusHeader, MalformedHeader>)
    ensures
        match spec_parse_header(line@) {
            Ok(h) => r == Ok::<PlusHeader, MalformedHeader>(h),
            Err(text) => r matches Err(MalformedHeader(m)) && m@ == text,
        },
{
    let all = chars_of(line);
    let end = trim_end_crlf_at(all.as_slice());
    let l = slice_chars(all.as_slice(), 0, end);
    if l.len() == 0 {
        return Err(MalformedHeader(string_of(l.as_slice())));
    }
    let after = slice_chars(l.as_slice(), 1, l.len());
    assert(after@ =~= l@.drop_first());
    let token = first_word_of(after.as_slice());
    proof {
        reveal_strlit("-1");
        reveal_strlit("-2");
        assert("-1"@ =~= seq!['-', '1']);
        assert("-2"@ =~= seq!['-', '2']);
    }
    if l[0] == '-' {
        Ok(PlusHeader::Error)
    } else if l[0] == '+' {
        if eq_str(token.as_slice(), "-1") {
            Ok(PlusHeader::PeriodTerminated)
        } else if eq_str(token.as_slice(), "-2") {
            Ok(PlusHeader::UntilClose)
        } else {
            match parse_u64(token.as_slice()) {
                Some(n) => Ok(PlusHeader::Length(n)),
                None => Err(MalformedHeader(string_of(l.as_slice()))),
            }
        }
    } else {
        Err(MalformedHeader(string_of(l.as_slice())))
    }
}

// ── Attribute blocks ───────────────────────────────────────────────────────

/// One `+NAME:` block and its indented lines.
#[derive(Clone, Debug, PartialEq, Eq)]
pub struct AttributeBlock {
    pub name: String,
    /// Text on the block's own line after the colon, as `+INFO:` carries.
    pub head: Option<String>,
    /// The continuation lines, their leading space removed.
    pub lines: Vec<String>,
}

/// An attribute block over character sequences: name, head, lines.
pub type BlockView = (Seq<char>, Option<Seq<char>>, Seq<Seq<char>>);

impl View for AttributeBlock {
    type V = BlockView;

    open spec fn view(&self) -> BlockView {
        (self.name@, opt_view(self.head), string_views(self.lines@))
    }
}

/// A `key: value` line's trimmed key and value.
pub open spec fn spec_pairs(ls: Seq<Seq<char>>) -> Seq<(Seq<char>, Seq<char>)>
    decreases ls.len(),
{
    if ls.len() == 0 {
        seq![]
    } else {
        match split_once(ls.last(), ':') {
            Some((k, v)) => spec_pairs(ls.drop_last()).push((trim(k), trim(v))),
            None => spec_pairs(ls.drop_last()),
        }
    }
}

/// The characters `from..to` of a string, as a slice of it.
fn substr<'a>(s: &'a String, from: usize, to: usize) -> (r: &'a str)
    requires
        from <= to <= s@.len(),
    ensures
        r@ == s@.subrange(from as int, to as int),
{
    s.as_str().substring_char(from, to)
}

impl AttributeBlock {
    /// The block's `key: value` lines, each side trimmed.
    pub fn pairs(&self) -> (r: Vec<(&str, &str)>)
        ensures
            r@.len() == spec_pairs(string_views(self.lines@)).len(),
            forall|i: int|
                0 <= i < r@.len() ==> (#[trigger] r@[i]).0@ == spec_pairs(
                    string_views(self.lines@),
                )[i].0 && r@[i].1@ == spec_pairs(string_views(self.lines@))[i].1,
    {
        let mut out: Vec<(&str, &str)> = Vec::new();
        let mut i: usize = 0;
        while i < self.lines.len()
            invariant
                i <= self.lines.len(),
                out@.len() == spec_pairs(string_views(self.lines@).take(i as int)).len(),
                forall|k: int|
                    0 <= k < out@.len() ==> (#[trigger] out@[k]).0@ == spec_pairs(
                        string_views(self.lines@).take(i as int),
                    )[k].0 && out@[k].1@ == spec_pairs(
                        string_views(self.lines@).take(i as int),
                    )[k].1,
            decreases self.lines.len() - i,
        {
            let ghost prefix = string_views(self.lines@).take(i + 1);
            assert(prefix.drop_last() =~= string_views(self.lines@).take(i as int));
            let line = &self.lines[i];
            assert(prefix.last() == line@);
            let chars = chars_of(line.as_str());
            match crate::text::find_char(chars.as_slice(), ':') {
                Some(colon) => {
                    proof {
                        crate::text::lemma_find(chars@, ':');
                    }
                    assert(colon < chars.len());
                    let (ka, kb) = crate::text::trim_bounds(chars.as_slice(), 0, colon);
                    let (va, vb) = crate::text::trim_bounds(chars.as_slice(), colon + 1, chars.len());
                    assert(chars@.subrange(0, colon as int) =~= chars@.take(colon as int));
                    assert(chars@.subrange(colon + 1, chars.len() as int) =~= chars@.skip(
                        colon + 1,
                    ));
                    out.push((substr(line, ka, kb), substr(line, va, vb)));
                },
                None => {},
            }
            i = i + 1;
        }
        assert(string_views(self.lines@).take(self.lines.len() as int) =~= string_views(
            self.lines@,
        ));
        out
    }
}

/// One line through the attribute parser: `+` opens a block, named up to
/// its colon with any text after it as the head; a leading space continues
/// the last block; anything else is ignored.
pub open spec fn attr_step(blocks: Seq<BlockView>, line: Seq<char>) -> Seq<BlockView> {
    if line.len() > 0 && line[0] == '+' {
        let rest = line.drop_first();
        let (name, head) = match split_once(rest, ':') {
            Some((n, h)) => (n, trim(h)),
            None => (rest, seq![]),
        };
        blocks.push(
            (
                trim(name),
                if head.len() == 0 {
                    None
                } else {
                    Some(head)
                },
                seq![],
            ),
        )
    } else if line.len() > 0 && line[0] == ' ' && blocks.len() > 0 {
        let last = blocks.last();
        blocks.drop_last().push((last.0, last.1, last.2.push(line.drop_first())))
    } else {
        blocks
    }
}

/// The attribute parser over a run of lines.
pub open spec fn attr_run(ls: Seq<Seq<char>>) -> Seq<BlockView>
    decreases ls.len(),
{
    if ls.len() == 0 {
        seq![]
    } else {
        attr_step(attr_run(ls.drop_last()), ls.last())
    }
}

/// The views of a run of attribute blocks.
pub open spec fn block_views(v: Seq<AttributeBlock>) -> Seq<BlockView> {
    v.map_values(|b: AttributeBlock| b@)
}

/// Splits an attribute stream into its blocks; a lone `.` ends it.
pub fn parse_attributes(text: &str) -> (r: Vec<AttributeBlock>)
    ensures
        block_views(r@) == attr_run(until_period(lines(text@))),
{
    let chars = chars_of(text);
    let ls = lines_of(chars.as_slice());
    let ghost all = views(ls@);
    let mut blocks: Vec<AttributeBlock> = Vec::new();
    let mut i: usize = 0;
    assert(all.skip(0) =~= all);
    assert(all.take(0) + until_period(all.skip(0)) =~= until_period(all));
    while i < ls.len()
        invariant
            i <= ls.len(),
            all == views(ls@),
            all == lines(text@),
            until_period(all) == all.take(i as int) + until_period(all.skip(i as int)),
            block_views(blocks@) == attr_run(all.take(i as int)),
        decreases ls.len() - i,
    {
        let line = ls[i].as_slice();
        proof {
            crate::text::lemma_until_period_step(all, i as int);
        }
        if is_period(line) {
            assert(all.take(i as int) == until_period(all));
            return blocks;
        }
        assert(all.take(i + 1).drop_last() =~= all.take(i as int));
        assert(all.take(i + 1).last() == line@);
        let ghost before = blocks@;
        if line.len() > 0 && line[0] == '+' {
            let rest = slice_chars(line, 1, line.len());
            assert(rest@ =~= line@.drop_first());
            let (name, head) = match split_once_char(rest.as_slice(), ':') {
                Some((n, h)) => (n, trimmed(h.as_slice())),
                None => (rest, Vec::new()),
            };
            let name = trimmed(name.as_slice());
            let head = if head.len() == 0 {
                None
            } else {
                Some(string_of(head.as_slice()))
            };
            blocks.push(
                AttributeBlock { name: string_of(name.as_slice()), head, lines: Vec::new() },
            );
            proof {
                assert(string_views(Seq::<String>::empty()) =~= Seq::<Seq<char>>::empty());
                assert(block_views(blocks@) =~= block_views(before).push(blocks@.last()@));
            }
        } else if line.len() > 0 && line[0] == ' ' && blocks.len() > 0 {
            let mut last = blocks.pop().unwrap();
            let ghost old_last = last@;
            let content = slice_chars(line, 1, line.len());
            assert(content@ =~= line@.drop_first());
            let ghost old_lines = last.lines@;
            last.lines.push(string_of(content.as_slice()));
            assert(string_views(last.lines@) =~= string_views(old_lines).push(content@));
            blocks.push(last);
            proof {
                assert(block_views(before).last() == old_last);
                assert(block_views(blocks@) =~= block_views(before).drop_last().push(
                    (old_last.0, old_last.1, old_last.2.push(line@.drop_first())),
                ));
            }
        }
        i = i + 1;
    }
    assert(all.take(ls.len() as int) =~= all);
    assert(all.skip(ls.len() as int) =~= Seq::<Seq<char>>::empty());
    assert(all + Seq::<Seq<char>>::empty() =~= all);
    blocks
}

/// One of the forms an item is offered in.
#[derive(Clone, Debug, PartialEq, Eq)]
pub struct PlusView {
    pub mime: String,
    pub language: Option<String>,
    pub size: Option<String>,
}

/// A `+VIEWS:` line read: a label and a size around its colon; the label's
/// first whitespace separates a language tag from the media type. A line
/// with an empty label is no view.
pub open spec fn spec_view(line: Seq<char>) -> Option<(Seq<char>, Option<Seq<char>>, Option<Seq<char>>)> {
    let (label, size) = match split_once(line, ':') {
        Some((l, s)) => (trim(l), trim(s)),
        None => (trim(line), seq![]),
    };
    if label.len() == 0 {
        None
    } else {
        let (mime, language) = match find_ws(label) {
            Some(i) => (trim(label.take(i)), Some(trim(label.skip(i + 1)))),
            None => (label, None),
        };
        Some((mime, language, if size.len() == 0 {
            None
        } else {
            Some(size)
        }))
    }
}

/// The views of a block's lines.
pub open spec fn spec_views(ls: Seq<Seq<char>>) -> Seq<(Seq<char>, Option<Seq<char>>, Option<Seq<char>>)>
    decreases ls.len(),
{
    if ls.len() == 0 {
        seq![]
    } else {
        match spec_view(ls.last()) {
            Some(v) => spec_views(ls.drop_last()).push(v),
            None => spec_views(ls.drop_last()),
        }
    }
}

fn parse_view(line: &[char]) -> (r: Option<PlusView>)
    ensures
        match spec_view(line@) {
            Some((m, l, s)) => r matches Some(v) && v.mime@ == m && opt_view(v.language) == l
                && opt_view(v.size) == s,
            None => r is None,
        },
{
    let (label, size) = match split_once_char(line, ':') {
        Some((l, s)) => (trimmed(l.as_slice()), trimmed(s.as_slice())),
        None => (trimmed(line), Vec::new()),
    };
    if label.len() == 0 {
        return None;
    }
    let (mime, language) = match find_whitespace(label.as_slice()) {
        Some(i) => {
            proof {
                crate::text::lemma_find_ws(label@);
            }
            let m = trimmed(slice_chars(label.as_slice(), 0, i).as_slice());
            let l = trimmed(slice_chars(label.as_slice(), i + 1, label.len()).as_slice());
            (m, Some(string_of(l.as_slice())))
        },
        None => (label, None),
    };
    let size = if size.len() == 0 {
        None
    } else {
        Some(string_of(size.as_slice()))
    };
    Some(PlusView { mime: string_of(mime.as_slice()), language, size })
}

/// Reads a `+VIEWS:` block.
pub fn parse_views(block: &AttributeBlock) -> (r: Vec<PlusView>)
    ensures
        r@.len() == spec_views(string_views(block.lines@)).len(),
        forall|i: int|
            0 <= i < r@.len() ==> {
                let v = spec_views(string_views(block.lines@))[i];
                &&& (#[trigger] r@[i]).mime@ == v.0
                &&& opt_view(r@[i].language) == v.1
                &&& opt_view(r@[i].size) == v.2
            },
{
    let mut out: Vec<PlusView> = Vec::new();
    let mut i: usize = 0;
    while i < block.lines.len()
        invariant
            i <= block.lines.len(),
            out@.len() == spec_views(string_views(block.lines@).take(i as int)).len(),
            forall|k: int|
                0 <= k < out@.len() ==> {
                    let v = spec_views(string_views(block.lines@).take(i as int))[k];
                    &&& (#[trigger] out@[k]).mime@ == v.0
                    &&& opt_view(out@[k].language) == v.1
                    &&& opt_view(out@[k].size) == v.2
                },
        decreases block.lines.len() - i,
    {
        let ghost prefix = string_views(block.lines@).take(i + 1);
        assert(prefix.drop_last() =~= string_views(block.lines@).take(i as int));
        assert(prefix.last() == block.lines@[i as int]@);
        let line = chars_of(block.lines[i].as_str());
        match parse_view(line.as_slice()) {
            Some(v) => out.push(v),
            None => {},
        }
        i = i + 1;
    }
    assert(string_views(block.lines@).take(block.lines.len() as int) =~= string_views(
        block.lines@,
    ));
    out
}

// ── ASK forms ──────────────────────────────────────────────────────────────

/// One directive of an `+ASK:` form.
#[derive(Clone, Debug, PartialEq, Eq)]
pub enum AskDirective {
    Ask { prompt: String, default: Option<String> },
    AskPassword { prompt: String, default: Option<String> },
    AskLong { prompt: String, default: Option<String> },
    AskFile { prompt: String, default: Option<String> },
    Select { prompt: String, options: Vec<String> },
    Choose { prompt: String, options: Vec<String> },
    ChooseFile { prompt: String },
    Note(String),
    /// A directive this crate does not model, kept rather than dropped.
    Unknown { directive: String, rest: String },
}

/// What an ASK line means: the directive before its colon; the prompt is
/// the first tab-separated field after it, and the rest, trimmed and
/// non-empty, are the options (the first of them a default).
pub open spec fn ask_means(line: Seq<char>, d: AskDirective) -> bool {
    let (directive, rest) = match split_once(line, ':') {
        Some((a, b)) => (trim(a), crate::text::trim_start(b)),
        None => (trim(line), seq![]),
    };
    let fields = split(rest, '\t');
    let prompt = trim(fields[0]);
    let tail = nonempty_trimmed(fields.drop_first());
    let default = if tail.len() > 0 {
        Some(tail[0])
    } else {
        None
    };
    if directive == seq!['A', 's', 'k'] {
        d matches AskDirective::Ask { prompt: p, default: df } && p@ == prompt && opt_view(df)
            == default
    } else if directive == seq!['A', 's', 'k', 'P'] {
        d matches AskDirective::AskPassword { prompt: p, default: df } && p@ == prompt && opt_view(
            df,
        ) == default
    } else if directive == seq!['A', 's', 'k', 'L'] {
        d matches AskDirective::AskLong { prompt: p, default: df } && p@ == prompt && opt_view(df)
            == default
    } else if directive == seq!['A', 's', 'k', 'F'] {
        d matches AskDirective::AskFile { prompt: p, default: df } && p@ == prompt && opt_view(df)
            == default
    } else if directive == seq!['S', 'e', 'l', 'e', 'c', 't'] {
        d matches AskDirective::Select { prompt: p, options: o } && p@ == prompt && string_views(
            o@,
        ) == tail
    } else if directive == seq!['C', 'h', 'o', 'o', 's', 'e'] {
        d matches AskDirective::Choose { prompt: p, options: o } && p@ == prompt && string_views(
            o@,
        ) == tail
    } else if directive == seq!['C', 'h', 'o', 'o', 's', 'e', 'F'] {
        d matches AskDirective::ChooseFile { prompt: p } && p@ == prompt
    } else if directive == seq!['N', 'o', 't', 'e'] {
        d matches AskDirective::Note(n) && n@ == trim(rest)
    } else {
        d matches AskDirective::Unknown { directive: x, rest: y } && x@ == directive && y@ == rest
    }
}

fn nonempty_trimmed_fields(fields: &Vec<Vec<char>>) -> (r: Vec<String>)
    requires
        fields@.len() >= 1,
    ensures
        string_views(r@) == nonempty_trimmed(views(fields@).drop_first()),
{
    let mut out: Vec<String> = Vec::new();
    let mut i: usize = 1;
    let ghost tail = views(fields@).drop_first();
    assert(tail.take(0) =~= Seq::<Seq<char>>::empty());
    while i < fields.len()
        invariant
            1 <= i <= fields.len(),
            tail == views(fields@).drop_first(),
            string_views(out@) == nonempty_trimmed(tail.take(i - 1)),
        decreases fields.len() - i,
    {
        assert(tail.take(i as int).drop_last() =~= tail.take(i - 1));
        assert(tail.take(i as int).last() == fields@[i as int]@);
        let t = trimmed(fields[i].as_slice());
        if t.len() > 0 {
            let ghost before = out@;
            out.push(string_of(t.as_slice()));
            assert(string_views(out@) =~= string_views(before).push(t@));
        }
        i = i + 1;
    }
    assert(tail.take(fields.len() - 1) =~= tail);
    out
}

fn parse_ask_line(line: &[char]) -> (r: AskDirective)
    ensures
        ask_means(line@, r),
{
    let (directive, rest) = match split_once_char(line, ':') {
        Some((a, b)) => (trimmed(a.as_slice()), trimmed_start(b.as_slice())),
        None => (trimmed(line), Vec::new()),
    };
    let ghost (sd, sr) = match split_once(line@, ':') {
        Some((a, b)) => (trim(a), crate::text::trim_start(b)),
        None => (trim(line@), Seq::<char>::empty()),
    };
    assert(directive@ == sd && rest@ =~= sr);
    let fields = split_char(rest.as_slice(), '\t');
    proof {
        crate::text::lemma_split_nonempty(rest@, '\t');
    }
    assert(fields[0]@ == split(sr, '\t')[0]);
    let prompt = string_of(trimmed(fields[0].as_slice()).as_slice());
    let tail = nonempty_trimmed_fields(&fields);
    assert(string_views(tail@) == nonempty_trimmed(split(sr, '\t').drop_first()));
    let default = if tail.len() > 0 {
        assert(tail[0]@ == string_views(tail@)[0]);
        Some(tail[0].clone())
    } else {
        None
    };
    proof {
        reveal_strlit("Ask");
        reveal_strlit("AskP");
        reveal_strlit("AskL");
        reveal_strlit("AskF");
        reveal_strlit("Select");
        reveal_strlit("Choose");
        reveal_strlit("ChooseF");
        reveal_strlit("Note");
        assert("Ask"@ =~= seq!['A', 's', 'k']);
        assert("AskP"@ =~= seq!['A', 's', 'k', 'P']);
        assert("AskL"@ =~= seq!['A', 's', 'k', 'L']);
        assert("AskF"@ =~= seq!['A', 's', 'k', 'F']);
        assert("Select"@ =~= seq!['S', 'e', 'l', 'e', 'c', 't']);
        assert("Choose"@ =~= seq!['C', 'h', 'o', 'o', 's', 'e']);
        assert("ChooseF"@ =~= seq!['C', 'h', 'o', 'o', 's', 'e', 'F']);
        assert("Note"@ =~= seq!['N', 'o', 't', 'e']);
    }
    let d = directive.as_slice();
    if eq_str(d, "Ask") {
        AskDirective::Ask { prompt, default }
    } else if eq_str(d, "AskP") {
        AskDirective::AskPassword { prompt, default }
    } else if eq_str(d, "AskL") {
        AskDirective::AskLong { prompt, default }
    } else if eq_str(d, "AskF") {
        AskDirective::AskFile { prompt, default }
    } else if eq_str(d, "Select") {
        AskDirective::Select { prompt, options: tail }
    } else if eq_str(d, "Choose") {
        AskDirective::Choose { prompt, options: tail }
    } else if eq_str(d, "ChooseF") {
        AskDirective::ChooseFile { prompt }
    } else if eq_str(d, "Note") {
        AskDirective::Note(string_of(trimmed(rest.as_slice()).as_slice()))
    } else {
        AskDirective::Unknown { directive: string_of(d), rest: string_of(rest.as_slice()) }
    }
}

/// Reads an `+ASK:` block, one directive per line, in order.
pub fn parse_ask(block: &AttributeBlock) -> (r: Vec<AskDirective>)
    ensures
        r@.len() == block.lines@.len(),
        forall|i: int| 0 <= i < r@.len() ==> ask_means(block.lines@[i]@, #[trigger] r@[i]),
{
    let mut out: Vec<AskDirective> = Vec::new();
    let mut i: usize = 0;
    while i < block.lines.len()
        invariant
            i <= block.lines.len(),
            out@.len() == i,
            forall|k: int| 0 <= k < i ==> ask_means(block.lines@[k]@, #[trigger] out@[k]),
        decreases block.lines.len() - i,
    {
        let line = chars_of(block.lines[i].as_str());
        out.push(parse_ask_line(line.as_slice()));
        i = i + 1;
    }
    out
}

// ── Request token ──────────────────────────────────────────────────────────

/// What a Gopher+ request asks for, sent as the third field of the request
/// line.
#[derive(Clone, Debug, PartialEq, Eq)]
pub enum PlusRequest {
    /// `+`, optionally followed by the view wanted.
    Item(Option<String>),
    /// `!`: the item's attribute blocks.
    Attributes,
    /// `$`: the attribute blocks of every item in a directory.
    DirectoryAttributes,
}

/// The token that carries a request form.
pub open spec fn spec_token(p: PlusRequest) -> Seq<char> {
    match p {
        PlusRequest::Item(None) => seq!['+'],
        PlusRequest::Item(Some(v)) => seq!['+'] + v@,
        PlusRequest::Attributes => seq!['!'],
        PlusRequest::DirectoryAttributes => seq!['$'],
    }
}

/// The request form that a token names: `!`, `$`, or `+` and an optional
/// view.
pub open spec fn token_means(field: Seq<char>, r: Option<PlusRequest>) -> bool {
    if field == seq!['!'] {
        r == Some(PlusRequest::Attributes)
    } else if field == seq!['$'] {
        r == Some(PlusRequest::DirectoryAttributes)
    } else if field.len() > 0 && field[0] == '+' {
        if field.len() == 1 {
            r == Some(PlusRequest::Item(None))
        } else {
            r matches Some(PlusRequest::Item(Some(v))) && v@ == field.drop_first()
        }
    } else {
        r is None
    }
}

impl PlusRequest {
    /// The token for this form.
    pub fn token(&self) -> (r: String)
        ensures
            r@ == spec_token(*self),
    {
        let mut v: Vec<char> = Vec::new();
        match self {
            Self::Item(None) => v.push('+'),
            Self::Item(Some(view)) => {
                v.push('+');
                let w = chars_of(view.as_str());
                append_chars(&mut v, w.as_slice());
            },
            Self::Attributes => v.push('!'),
            Self::DirectoryAttributes => v.push('$'),
        }
        assert(v@ =~= spec_token(*self));
        string_of(v.as_slice())
    }

    /// The form a request's third field names, if any.
    pub fn from_token(field: &str) -> (r: Option<Self>)
        ensures
            token_means(field@, r),
    {
        let chars = chars_of(field);
        Self::from_token_chars(chars.as_slice())
    }

    fn from_token_chars(field: &[char]) -> (r: Option<Self>)
        ensures
            token_means(field@, r),
    {
        if field.len() == 1 && field[0] == '!' {
            assert(field@ =~= seq!['!']);
            return Some(Self::Attributes);
        }
        if field.len() == 1 && field[0] == '$' {
            assert(field@ =~= seq!['$']);
            return Some(Self::DirectoryAttributes);
        }
        if field.len() > 0 && field[0] == '+' {
            assert(field@ != seq!['!'] && field@ != seq!['$']);
            if field.len() == 1 {
                return Some(Self::Item(None));
            }
            let rest = slice_chars(field, 1, field.len());
            assert(rest@ =~= field@.drop_first());
            return Some(Self::Item(Some(string_of(rest.as_slice()))));
        }
        assert(field@ != seq!['!'] && field@ != seq!['$']) by {
            if field@ == seq!['!'] || field@ == seq!['$'] {
                assert(field@.len() == 1);
            }
        }
        None
    }
}

/// Every request form's token names it back; a view, where one is asked
/// for, is not empty (a bare `+` asks for the default view).
pub proof fn lemma_token_round_trip(p: PlusRequest)
    requires
        p matches PlusRequest::Item(Some(v)) ==> v@.len() > 0,
    ensures
        token_means(spec_token(p), Some(p)),
{
    assert(seq!['!'][0] == '!' && seq!['$'][0] == '$');
    match p {
        PlusRequest::Item(Some(v)) => {
            assert((seq!['+'] + v@).drop_first() =~= v@);
            assert((seq!['+'] + v@)[0] == '+');
        },
        PlusRequest::Item(None) => {
            assert(seq!['+'][0] == '+');
        },
        _ => {},
    }
}

} // verus!
