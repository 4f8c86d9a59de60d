//! DICT's status lines, quoting, and dot-stuffed text blocks.
use vstd::prelude::*;
use vstd::string::StrSliceExecFns;

use crate::text::{
    all_digits, chars_eq, chars_of, decimal_value, is_digit, is_whitespace, is_ws, slice_chars,
    string_of, string_views, substring, trim_end_crlf, trim_end_crlf_at, trim_start,
    trim_start_at,
};

verus! {

broadcast use vstd::string::group_string_axioms;

/// DICT's well-known port.
pub const DEFAULT_PORT: u16 = 2628;

/// The protocol's cap on a command line.
pub const MAX_LINE: usize = 1024;

/// `110 n databases present`.
pub const DATABASES_FOLLOW: u16 = 110;
/// `111 n strategies available`.
pub const STRATEGIES_FOLLOW: u16 = 111;
/// `150 n definitions retrieved`.
pub const DEFINITIONS_FOLLOW: u16 = 150;
/// `151 word database name`: one definition's header.
pub const DEFINITION_FOLLOWS: u16 = 151;
/// `152 n matches found`.
pub const MATCHES_FOLLOW: u16 = 152;
/// `220` connection banner.
pub const BANNER: u16 = 220;
/// `250 ok`.
pub const OK: u16 = 250;
/// `550` invalid database.
pub const INVALID_DATABASE: u16 = 550;
/// `551` invalid strategy.
pub const INVALID_STRATEGY: u16 = 551;
/// `552` no match.
pub const NO_MATCH: u16 = 552;

/// A response status line: a three-digit code and the rest of the line.
#[derive(Clone, Debug, PartialEq, Eq)]
pub struct Status {
    pub code: u16,
    pub text: String,
}

impl Status {
    /// `1xx`: informational, and a text block follows.
    pub fn has_text_block(&self) -> (r: bool)
        ensures
            r == (100 <= self.code < 200),
    {
        100 <= self.code && self.code < 200
    }

    /// `2xx`: the command succeeded.
    pub fn is_success(&self) -> (r: bool)
        ensures
            r == (200 <= self.code < 300),
    {
        200 <= self.code && self.code < 300
    }

    /// `4xx`: temporary failure; retrying later is reasonable.
    pub fn is_temporary_failure(&self) -> (r: bool)
        ensures
            r == (400 <= self.code < 500),
    {
        400 <= self.code && self.code < 500
    }

    /// `5xx`: permanent failure.
    pub fn is_permanent_failure(&self) -> (r: bool)
        ensures
            r == (500 <= self.code < 600),
    {
        500 <= self.code && self.code < 600
    }

    /// The parameters after the code, with quoting resolved.
    pub fn params(&self) -> (r: Vec<String>)
        ensures
            string_views(r@) == spec_split_params(self.text@),
    {
        split_params(self.text.as_str())
    }
}

/// A status line read: the line without its line ending must open with three
/// digits, which are the code; the rest, leading whitespace dropped, is the
/// text.
pub open spec fn spec_parse_status(line: Seq<char>) -> Option<(u16, Seq<char>)> {
    let l = trim_end_crlf(line);
    if l.len() >= 3 && all_digits(l.take(3)) {
        Some((decimal_value(l.take(3)) as u16, trim_start(l.skip(3))))
    } else {
        None
    }
}

/// Parses a status line; `None` if it does not begin with three digits.
pub fn parse_status(line: &str) -> (r: Option<Status>)
    ensures
        match spec_parse_status(line@) {
            Some((code, text)) => r matches Some(s) && s.code == code && s.text@ == text,
            None => r is None,
        },
{
    let all = chars_of(line);
    let end = trim_end_crlf_at(all.as_slice());
    let l = slice_chars(all.as_slice(), 0, end);
    if l.len() < 3 {
        return None;
    }
    let (a, b, c) = (l[0], l[1], l[2]);
    if !(is_digit_char(a) && is_digit_char(b) && is_digit_char(c)) {
        proof {
            let t = l@.take(3);
            assert(t[0] == a && t[1] == b && t[2] == c);
            assert(!is_digit(t[0]) || !is_digit(t[1]) || !is_digit(t[2]));
        }
        return None;
    }
    let code = ((a as u32 - 48) * 100 + (b as u32 - 48) * 10 + (c as u32 - 48)) as u16;
    proof {
        let t = l@.take(3);
        assert(t.drop_last().drop_last().drop_last() =~= Seq::<char>::empty());
        assert(t.drop_last().drop_last() =~= seq![a]);
        assert(t.drop_last() =~= seq![a, b]);
        assert(decimal_value(Seq::<char>::empty()) == 0);
        assert(decimal_value(seq![a]) == crate::text::digit_value(a));
        assert(seq![a, b].drop_last() =~= seq![a]);
        assert(decimal_value(seq![a, b]) == crate::text::digit_value(a) * 10
            + crate::text::digit_value(b));
        assert(decimal_value(t) == code);
        assert(all_digits(t));
    }
    let rest = slice_chars(l.as_slice(), 3, l.len());
    let start = trim_start_at(rest.as_slice());
    Some(Status { code, text: substring(rest.as_slice(), start, rest.len()) })
}

fn is_digit_char(c: char) -> (r: bool)
    ensures
        r == is_digit(c),
{
    '0' <= c && c <= '9'
}

/// The line `.`.
pub open spec fn lone_period() -> Seq<char> {
    seq!['.']
}

/// Whether a line ends a text block: a lone period.
pub fn is_terminator(line: &str) -> (r: bool)
    ensures
        r == (trim_end_crlf(line@) == lone_period()),
{
    let all = chars_of(line);
    let end = trim_end_crlf_at(all.as_slice());
    let l = slice_chars(all.as_slice(), 0, end);
    let mut dot: Vec<char> = Vec::new();
    dot.push('.');
    assert(dot@ =~= lone_period());
    chars_eq(l.as_slice(), dot.as_slice())
}

/// A line as the server meant it: a received `..text` is really `.text`.
pub open spec fn spec_unstuff(line: Seq<char>) -> Seq<char> {
    if line.len() >= 2 && line[0] == '.' && line[1] == '.' {
        line.drop_first()
    } else {
        line
    }
}

/// Undoes the server's dot-stuffing on one text line.
pub fn unstuff(line: &str) -> (r: &str)
    ensures
        r@ == spec_unstuff(line@),
{
    let n = line.unicode_len();
    if n >= 2 && line.get_char(0) == '.' && line.get_char(1) == '.' {
        line.substring_char(1, n)
    } else {
        line
    }
}

/// A line as a server writes it into a text block: a leading period doubled.
pub open spec fn spec_stuff(line: Seq<char>) -> Seq<char> {
    if line.len() > 0 && line[0] == '.' {
        seq!['.'] + line
    } else {
        line
    }
}

/// Applies dot-stuffing, which is what a server does when writing a text
/// block.
pub fn stuff(line: &str) -> (r: String)
    ensures
        r@ == spec_stuff(line@),
{
    let chars = chars_of(line);
    if chars.len() > 0 && chars[0] == '.' {
        let mut v: Vec<char> = Vec::new();
        v.push('.');
        crate::text::append_chars(&mut v, chars.as_slice());
        string_of(v.as_slice())
    } else {
        string_of(chars.as_slice())
    }
}

/// Stuffing a line and then unstuffing it gives the line back.
pub proof fn lemma_stuff_round_trip(line: Seq<char>)
    ensures
        spec_unstuff(spec_stuff(line)) == line,
{
    if line.len() > 0 && line[0] == '.' {
        assert((seq!['.'] + line).drop_first() =~= line);
    }
}

/// The state of the parameter splitter: the parameters finished so far, the
/// one being read, whether it is inside quotes, whether the last character
/// was an escaping backslash, and whether a quote has opened the current
/// parameter.
pub type SplitState = (Seq<Seq<char>>, Seq<char>, bool, bool, bool);

/// The splitter before any character.
pub open spec fn split_start() -> SplitState {
    (seq![], seq![], false, false, false)
}

/// One character through the splitter: an escaped character is kept as it
/// is; inside quotes a backslash escapes the next character; a quote toggles
/// quoting; whitespace outside quotes ends a parameter that has begun; any
/// other character is kept.
pub open spec fn split_step(s: SplitState, ch: char) -> SplitState {
    let (params, current, in_quotes, escaped, started) = s;
    if escaped {
        (params, current.push(ch), in_quotes, false, started)
    } else if ch == '\\' && in_quotes {
        (params, current, in_quotes, true, started)
    } else if ch == '"' {
        (params, current, !in_quotes, escaped, true)
    } else if is_ws(ch) && !in_quotes {
        if started || current.len() > 0 {
            (params.push(current), seq![], in_quotes, escaped, false)
        } else {
            s
        }
    } else {
        (params, current.push(ch), in_quotes, escaped, started)
    }
}

/// The splitter after every character of `text`.
pub open spec fn split_run(text: Seq<char>) -> SplitState
    decreases text.len(),
{
    if text.len() == 0 {
        split_start()
    } else {
        split_step(split_run(text.drop_last()), text.last())
    }
}

/// A parameter list split, honouring double-quoted strings: the splitter's
/// parameters, then the one it was reading if it had begun.
pub open spec fn spec_split_params(text: Seq<char>) -> Seq<Seq<char>> {
    let (params, current, _, _, started) = split_run(text);
    if started || current.len() > 0 {
        params.push(current)
    } else {
        params
    }
}

/// Splits a parameter list, honouring double-quoted strings.
pub fn split_params(text: &str) -> (r: Vec<String>)
    ensures
        string_views(r@) == spec_split_params(text@),
{
    let chars = chars_of(text);
    let mut params: Vec<String> = Vec::new();
    let mut current: Vec<char> = Vec::new();
    let mut in_quotes = false;
    let mut escaped = false;
    let mut started = false;
    let mut i: usize = 0;
    assert(chars@.take(0) =~= Seq::<char>::empty());
    while i < chars.len()
        invariant
            i <= chars.len(),
            split_run(chars@.take(i as int)) == (
                string_views(params@),
                current@,
                in_quotes,
                escaped,
                started,
            ),
        decreases chars.len() - i,
    {
        let ch = chars[i];
        assert(chars@.take(i + 1).drop_last() =~= chars@.take(i as int));
        if escaped {
            current.push(ch);
            escaped = false;
        } else if ch == '\\' && in_quotes {
            escaped = true;
        } else if ch == '"' {
            in_quotes = !in_quotes;
            started = true;
        } else if is_whitespace(ch) && !in_quotes {
            if started || current.len() > 0 {
                let ghost old_params = params@;
                params.push(string_of(current.as_slice()));
                assert(string_views(params@) =~= string_views(old_params).push(current@));
                current = Vec::new();
                started = false;
            }
        } else {
            current.push(ch);
        }
        i = i + 1;
        assert(current@ =~= split_run(chars@.take(i as int)).1);
    }
    assert(chars@.take(chars.len() as int) =~= chars@);
    if started || current.len() > 0 {
        let ghost old_params = params@;
        params.push(string_of(current.as_slice()));
        assert(string_views(params@) =~= string_views(old_params).push(current@));
    }
    params
}

/// One database the server offers, from a `110` block.
#[derive(Clone, Debug, PartialEq, Eq)]
pub struct Database {
    pub name: String,
    pub description: String,
}

/// A `110` text block's databases: each line's first parameter, when it is
/// there and not empty, with the second as its description.
pub open spec fn spec_databases(lines: Seq<Seq<char>>) -> Seq<(Seq<char>, Seq<char>)>
    decreases lines.len(),
{
    if lines.len() == 0 {
        seq![]
    } else {
        let before = spec_databases(lines.drop_last());
        let p = spec_split_params(lines.last());
        if p.len() > 0 && p[0].len() > 0 {
            before.push((p[0], if p.len() > 1 {
                p[1]
            } else {
                seq![]
            }))
        } else {
            before
        }
    }
}

/// Parses a `110` text block.
pub fn parse_databases(lines: &[String]) -> (r: Vec<Database>)
    ensures
        r@.len() == spec_databases(string_views(lines@)).len(),
        forall|i: int|
            0 <= i < r@.len() ==> (#[trigger] r@[i]).name@ == spec_databases(
                string_views(lines@),
            )[i].0 && r@[i].description@ == spec_databases(string_views(lines@))[i].1,
{
    let mut out: Vec<Database> = Vec::new();
    let mut i: usize = 0;
    while i < lines.len()
        invariant
            i <= lines.len(),
            out@.len() == spec_databases(string_views(lines@).take(i as int)).len(),
            forall|k: int|
                0 <= k < out@.len() ==> (#[trigger] out@[k]).name@ == spec_databases(
                    string_views(lines@).take(i as int),
                )[k].0 && out@[k].description@ == spec_databases(
                    string_views(lines@).take(i as int),
                )[k].1,
        decreases lines.len() - i,
    {
        let ghost prefix = string_views(lines@).take(i + 1);
        assert(prefix.drop_last() =~= string_views(lines@).take(i as int));
        assert(prefix.last() == lines@[i as int]@);
        let params = split_params(lines[i].as_str());
        if params.len() > 0 && params[0].as_str().unicode_len() > 0 {
            let description = if params.len() > 1 {
                params[1].clone()
            } else {
                String::new()
            };
            out.push(Database { name: params[0].clone(), description });
        }
        i = i + 1;
    }
    assert(string_views(lines@).take(lines.len() as int) =~= string_views(lines@));
    out
}

/// One match from a `152` block.
#[derive(Clone, Debug, PartialEq, Eq)]
pub struct Match {
    pub database: String,
    pub word: String,
}

/// A `152` text block's matches: each line with at least two parameters,
/// the database then the word.
pub open spec fn spec_matches(lines: Seq<Seq<char>>) -> Seq<(Seq<char>, Seq<char>)>
    decreases lines.len(),
{
    if lines.len() == 0 {
        seq![]
    } else {
        let before = spec_matches(lines.drop_last());
        let p = spec_split_params(lines.last());
        if p.len() > 1 {
            before.push((p[0], p[1]))
        } else {
            before
        }
    }
}

/// Parses a `152` text block.
pub fn parse_matches(lines: &[String]) -> (r: Vec<Match>)
    ensures
        r@.len() == spec_matches(string_views(lines@)).len(),
        forall|i: int|
            0 <= i < r@.len() ==> (#[trigger] r@[i]).database@ == spec_matches(
                string_views(lines@),
            )[i].0 && r@[i].word@ == spec_matches(string_views(lines@))[i].1,
{
    let mut out: Vec<Match> = Vec::new();
    let mut i: usize = 0;
    while i < lines.len()
        invariant
            i <= lines.len(),
            out@.len() == spec_matches(string_views(lines@).take(i as int)).len(),
            forall|k: int|
                0 <= k < out@.len() ==> (#[trigger] out@[k]).database@ == spec_matches(
                    string_views(lines@).take(i as int),
                )[k].0 && out@[k].word@ == spec_matches(string_views(lines@).take(i as int))[k].1,
        decreases lines.len() - i,
    {
        let ghost prefix = string_views(lines@).take(i + 1);
        assert(prefix.drop_last() =~= string_views(lines@).take(i as int));
        assert(prefix.last() == lines@[i as int]@);
        let params = split_params(lines[i].as_str());
        if params.len() > 1 {
            out.push(Match { database: params[0].clone(), word: params[1].clone() });
        }
        i = i + 1;
    }
    assert(string_views(lines@).take(lines.len() as int) =~= string_views(lines@));
    out
}

/// One definition: its `151` header plus the text block that followed.
#[derive(Clone, Debug, PartialEq, Eq)]
pub struct Definition {
    pub word: String,
    pub database: String,
    /// The database's human-readable name, from the header's third parameter.
    pub database_description: String,
    /// The definition body, dot-unstuffed, one entry per line.
    pub text: Vec<String>,
}

/// Parses a `151` header's parameters: the word, the database, and the
/// database's name when given.
pub fn parse_definition_header(status: &Status) -> (r: Option<(String, String, String)>)
    ensures
        ({
            let p = spec_split_params(status.text@);
            if p.len() >= 2 {
                r matches Some((w, d, n)) && w@ == p[0] && d@ == p[1] && n@ == (if p.len() > 2 {
                    p[2]
                } else {
                    seq![]
                })
            } else {
                r is None
            }
        }),
{
    let params = status.params();
    if params.len() < 2 {
        return None;
    }
    let name = if params.len() > 2 {
        params[2].clone()
    } else {
        String::new()
    };
    Some((params[0].clone(), params[1].clone(), name))
}

/// The escape of one character inside a quoted parameter.
pub open spec fn escape_char(c: char) -> Seq<char> {
    if c == '\\' {
        seq!['\\', '\\']
    } else if c == '"' {
        seq!['\\', '"']
    } else {
        seq![c]
    }
}

/// A parameter's characters with backslashes and quotes escaped.
pub open spec fn spec_escape(s: Seq<char>) -> Seq<char>
    decreases s.len(),
{
    if s.len() == 0 {
        seq![]
    } else {
        spec_escape(s.drop_last()) + escape_char(s.last())
    }
}

/// A parameter needs quoting when it is empty or holds whitespace or a
/// quote.
pub open spec fn spec_needs_quotes(s: Seq<char>) -> bool {
    s.len() == 0 || exists|i: int| 0 <= i < s.len() && (is_ws(s[i]) || s[i] == '"')
}

/// A parameter as a command line carries it: quoted and escaped when it
/// needs it, bare otherwise.
pub open spec fn spec_quote(s: Seq<char>) -> Seq<char> {
    if spec_needs_quotes(s) {
        seq!['"'] + spec_escape(s) + seq!['"']
    } else {
        s
    }
}

/// Quotes a parameter if it needs it: words with spaces would otherwise
/// split.
pub fn quote(param: &str) -> (r: String)
    ensures
        r@ == spec_quote(param@),
{
    let chars = chars_of(param);
    let mut needs = chars.len() == 0;
    let mut i: usize = 0;
    while i < chars.len()
        invariant
            i <= chars.len(),
            needs == (chars@.len() == 0 || exists|k: int|
                0 <= k < i && (is_ws(chars@[k]) || chars@[k] == '"')),
        decreases chars.len() - i,
    {
        if is_whitespace(chars[i]) || chars[i] == '"' {
            needs = true;
        }
        i = i + 1;
    }
    if !needs {
        return string_of(chars.as_slice());
    }
    let mut out: Vec<char> = Vec::new();
    out.push('"');
    let mut j: usize = 0;
    assert(chars@.take(0) =~= Seq::<char>::empty());
    assert(out@ =~= seq!['"'] + spec_escape(chars@.take(0)));
    while j < chars.len()
        invariant
            j <= chars.len(),
            out@ == seq!['"'] + spec_escape(chars@.take(j as int)),
        decreases chars.len() - j,
    {
        let c = chars[j];
        assert(chars@.take(j + 1).drop_last() =~= chars@.take(j as int));
        if c == '\\' {
            out.push('\\');
            out.push('\\');
        } else if c == '"' {
            out.push('\\');
            out.push('"');
        } else {
            out.push(c);
        }
        j = j + 1;
        assert(out@ =~= seq!['"'] + spec_escape(chars@.take(j as int)));
    }
    out.push('"');
    assert(chars@.take(chars.len() as int) =~= chars@);
    string_of(out.as_slice())
}

/// Running the splitter over a bare parameter keeps it whole.
proof fn lemma_split_bare(s: Seq<char>, i: int)
    requires
        0 <= i <= s.len(),
        !spec_needs_quotes(s),
    ensures
        split_run(s.take(i)) == (Seq::<Seq<char>>::empty(), s.take(i), false, false, false),
    decreases i,
{
    if i == 0 {
        assert(s.take(0) =~= Seq::<char>::empty());
    } else {
        lemma_split_bare(s, i - 1);
        assert(s.take(i).drop_last() =~= s.take(i - 1));
        assert(!(is_ws(s[i - 1]) || s[i - 1] == '"'));
        assert(s.take(i - 1).push(s[i - 1]) =~= s.take(i));
    }
}

/// Running the splitter over an opening quote and an escaped parameter
/// leaves it reading that parameter, inside quotes.
proof fn lemma_split_quoted(s: Seq<char>, i: int)
    requires
        0 <= i <= s.len(),
    ensures
        split_run(seq!['"'] + spec_escape(s.take(i))) == (
            Seq::<Seq<char>>::empty(),
            s.take(i),
            true,
            false,
            true,
        ),
    decreases i,
{
    if i == 0 {
        assert(s.take(0) =~= Seq::<char>::empty());
        assert(spec_escape(Seq::<char>::empty()) == Seq::<char>::empty());
        let t = seq!['"'] + spec_escape(Seq::<char>::empty());
        assert(t =~= seq!['"']);
        assert(t.drop_last() =~= Seq::<char>::empty());
        assert(split_run(t) == split_step(split_run(Seq::<char>::empty()), '"'));
    } else {
        lemma_split_quoted(s, i - 1);
        let prev = seq!['"'] + spec_escape(s.take(i - 1));
        let c = s[i - 1];
        assert(s.take(i).drop_last() =~= s.take(i - 1));
        assert(s.take(i).last() == c);
        assert(s.take(i - 1).push(c) =~= s.take(i));
        if c == '\\' || c == '"' {
            let mid = prev.push('\\');
            let t = mid.push(c);
            assert(seq!['"'] + spec_escape(s.take(i)) =~= t);
            assert(t.drop_last() =~= mid);
            assert(mid.drop_last() =~= prev);
            assert(split_run(mid) == split_step(split_run(prev), '\\'));
            assert(split_run(mid) == (Seq::<Seq<char>>::empty(), s.take(i - 1), true, true, true));
            assert(split_run(t) == split_step(split_run(mid), c));
        } else {
            let t = prev.push(c);
            assert(seq!['"'] + spec_escape(s.take(i)) =~= t);
            assert(t.drop_last() =~= prev);
            assert(split_run(t) == split_step(split_run(prev), c));
        }
    }
}

/// Quoting a parameter and splitting the result gives back exactly that
/// parameter, whatever it holds.
pub proof fn lemma_quote_round_trip(s: Seq<char>)
    ensures
        spec_split_params(spec_quote(s)) == seq![s],
{
    if spec_needs_quotes(s) {
        lemma_split_quoted(s, s.len() as int);
        assert(s.take(s.len() as int) =~= s);
        let t = seq!['"'] + spec_escape(s) + seq!['"'];
        assert(t.drop_last() =~= seq!['"'] + spec_escape(s));
        assert(split_run(t) == (Seq::<Seq<char>>::empty(), s, false, false, true));
        assert(Seq::<Seq<char>>::empty().push(s) =~= seq![s]);
    } else {
        lemma_split_bare(s, s.len() as int);
        assert(s.take(s.len() as int) =~= s);
        assert(Seq::<Seq<char>>::empty().push(s) =~= seq![s]);
    }
}

} // verus!
