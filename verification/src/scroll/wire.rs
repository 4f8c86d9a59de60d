//! Scroll's request and response grammar: a request names a URI and the
//! client's languages; a success response carries three metadata lines
//! before its body, and its second digit is a Universal Decimal
//! Classification class.
use vstd::prelude::*;

use crate::text::{
    chars_of, concat, is_digit, is_digit_char, join, join_strs, nonempty_trimmed,
    nonempty_trimmed_from, opt_view, slice_chars, split, split_char, split_once, string_of, trim,
    trim_end_crlf, trim_end_crlf_at, trim_start, trimmed, trimmed_start, views,
};

verus! {

broadcast use vstd::string::group_string_axioms;

/// Scroll's well-known port.
pub const DEFAULT_PORT: u16 = 5699;

/// Status classes, one per leading digit, as in gemini.
#[derive(Clone, Copy, Debug, PartialEq, Eq, Structural)]
pub enum Status {
    /// `1x`: input wanted; the description is the prompt.
    Input,
    /// `2x`: success; the second digit is the document's class.
    Success,
    /// `3x`: redirect.
    Redirect,
    /// `4x`: temporary failure.
    TemporaryFailure,
    /// `5x`: permanent failure.
    PermanentFailure,
    /// `6x`: a client certificate is required.
    CertificateRequired,
}

/// The class a code's leading digit names.
pub open spec fn spec_status(code: u8) -> Option<Status> {
    let d = code / 10;
    if d == 1 {
        Some(Status::Input)
    } else if d == 2 {
        Some(Status::Success)
    } else if d == 3 {
        Some(Status::Redirect)
    } else if d == 4 {
        Some(Status::TemporaryFailure)
    } else if d == 5 {
        Some(Status::PermanentFailure)
    } else if d == 6 {
        Some(Status::CertificateRequired)
    } else {
        None
    }
}

impl Status {
    /// The class of a two-digit code.
    pub fn from_code(code: u8) -> (r: Option<Self>)
        ensures
            r == spec_status(code),
    {
        match code / 10 {
            1 => Some(Self::Input),
            2 => Some(Self::Success),
            3 => Some(Self::Redirect),
            4 => Some(Self::TemporaryFailure),
            5 => Some(Self::PermanentFailure),
            6 => Some(Self::CertificateRequired),
            _ => None,
        }
    }
}

/// The Universal Decimal Classification class of a success.
#[derive(Clone, Copy, Debug, PartialEq, Eq, Structural)]
pub enum UdcClass {
    /// 0: general knowledge, computer science, news, data.
    Science,
    /// 1: philosophy, psychology.
    Philosophy,
    /// 2: religion, theology.
    Religion,
    /// 3: social sciences, law, politics, economics, education.
    SocialSciences,
    /// 4: the default: menus, indexes, directories, unclassed media.
    General,
    /// 5: mathematics, natural science.
    Mathematics,
    /// 6: applied science, medicine, technology.
    AppliedScience,
    /// 7: arts, entertainment, sport.
    Arts,
    /// 8: linguistics, literature, memoirs, reviews.
    Literature,
    /// 9: geography, history, biography.
    History,
}

/// The class a success code's second digit names; other codes have none.
pub open spec fn spec_udc(code: u8) -> Option<UdcClass> {
    if !(20 <= code < 30) {
        None
    } else {
        let d = code % 10;
        Some(
            if d == 0 {
                UdcClass::Science
            } else if d == 1 {
                UdcClass::Philosophy
            } else if d == 2 {
                UdcClass::Religion
            } else if d == 3 {
                UdcClass::SocialSciences
            } else if d == 4 {
                UdcClass::General
            } else if d == 5 {
                UdcClass::Mathematics
            } else if d == 6 {
                UdcClass::AppliedScience
            } else if d == 7 {
                UdcClass::Arts
            } else if d == 8 {
                UdcClass::Literature
            } else {
                UdcClass::History
            },
        )
    }
}

impl UdcClass {
    /// The class a success code carries in its second digit.
    pub fn from_code(code: u8) -> (r: Option<Self>)
        ensures
            r == spec_udc(code),
    {
        if !(20 <= code && code < 30) {
            return None;
        }
        Some(
            match code % 10 {
                0 => Self::Science,
                1 => Self::Philosophy,
                2 => Self::Religion,
                3 => Self::SocialSciences,
                4 => Self::General,
                5 => Self::Mathematics,
                6 => Self::AppliedScience,
                7 => Self::Arts,
                8 => Self::Literature,
                _ => Self::History,
            },
        )
    }
}

/// The request line: the URI, a space, `+` when the abstract is wanted,
/// the languages joined by commas, CRLF.
pub open spec fn spec_request_line(uri: Seq<char>, languages: Seq<Seq<char>>, metadata: bool) -> Seq<char> {
    uri + seq![' '] + (if metadata {
        seq!['+']
    } else {
        seq![]
    }) + join(languages, ',') + seq!['\r', '\n']
}

/// The views of a slice of string slices.
pub open spec fn str_views(v: Seq<&str>) -> Seq<Seq<char>> {
    v.map_values(|p: &str| p@)
}

/// Builds a request line; `languages` are BCP47 tags, most preferred first,
/// and `metadata` asks for the resource's abstract instead of its body.
pub fn request_line(uri: &str, languages: &[&str], metadata: bool) -> (r: String)
    ensures
        r@ == spec_request_line(uri@, str_views(languages@), metadata),
{
    let mut v = chars_of(uri);
    v.push(' ');
    if metadata {
        v.push('+');
    }
    let list = join_strs(languages, ',');
    let lc = chars_of(list.as_str());
    crate::text::append_chars(&mut v, lc.as_slice());
    v.push('\r');
    v.push('\n');
    assert(v@ =~= spec_request_line(uri@, str_views(languages@), metadata));
    string_of(v.as_slice())
}

/// A parsed request, which is what a server reads.
#[derive(Clone, Debug, PartialEq, Eq)]
pub struct Request {
    pub uri: String,
    pub languages: Vec<String>,
    /// Whether the `+` metadata flag was present.
    pub metadata: bool,
}

/// What a request line reads as: its line ending dropped, no leading byte
/// order mark, a non-empty URI up to the first space, then an optional `+`
/// and the comma-separated languages, each trimmed, empty ones dropped.
pub open spec fn spec_parse_request(line: Seq<char>) -> Option<(Seq<char>, Seq<Seq<char>>, bool)> {
    let l = trim_end_crlf(line);
    let (uri, rest) = match split_once(l, ' ') {
        Some((u, r)) => (u, r),
        None => (l, seq![]),
    };
    if l.len() > 0 && l[0] == '\u{FEFF}' {
        None
    } else if uri.len() == 0 {
        None
    } else {
        let metadata = rest.len() > 0 && rest[0] == '+';
        let list = if metadata {
            rest.drop_first()
        } else {
            rest
        };
        Some((uri, nonempty_trimmed(split(list, ',')), metadata))
    }
}

/// Reads a request line.
pub fn parse_request(line: &str) -> (r: Option<Request>)
    ensures
        match spec_parse_request(line@) {
            Some((u, ls, m)) => r matches Some(q) && q.uri@ == u && crate::text::string_views(
                q.languages@,
            ) == ls && q.metadata == m,
            None => r is None,
        },
{
    let all = chars_of(line);
    let end = trim_end_crlf_at(all.as_slice());
    let l = slice_chars(all.as_slice(), 0, end);
    if l.len() > 0 && l[0] == '\u{FEFF}' {
        return None;
    }
    let (uri, rest) = match crate::text::split_once_char(l.as_slice(), ' ') {
        Some((u, r)) => (u, r),
        None => (l, Vec::new()),
    };
    if uri.len() == 0 {
        return None;
    }
    let metadata = rest.len() > 0 && rest[0] == '+';
    let list = if metadata {
        slice_chars(rest.as_slice(), 1, rest.len())
    } else {
        rest
    };
    let fields = split_char(list.as_slice(), ',');
    let languages = nonempty_trimmed_from(&fields, 0);
    assert(views(fields@).skip(0) =~= views(fields@));
    Some(Request { uri: string_of(uri.as_slice()), languages, metadata })
}

/// What a client writes, a server reads back: a request line built from a
/// URI and languages parses into that URI, those languages and that flag.
/// The URI is non-empty, holds no space and starts with no byte order mark;
/// each language is non-empty, trimmed and holds no comma; and without the
/// flag the first language does not start with `+`.
pub proof fn lemma_request_reads_back(uri: Seq<char>, languages: Seq<Seq<char>>, metadata: bool)
    requires
        uri.len() > 0,
        uri[0] != '\u{FEFF}',
        forall|j: int| 0 <= j < uri.len() ==> uri[j] != ' ',
        forall|i: int|
            0 <= i < languages.len() ==> #[trigger] trim(languages[i]) == languages[i]
                && languages[i].len() > 0,
        crate::text::none_hold(languages, ','),
        !metadata && languages.len() > 0 ==> languages[0][0] != '+',
    ensures
        spec_parse_request(spec_request_line(uri, languages, metadata)) == Some(
            (uri, languages, metadata),
        ),
{
    let flag: Seq<char> = if metadata {
        seq!['+']
    } else {
        seq![]
    };
    let list = join(languages, ',');
    let rest = flag + list;
    let text = uri + seq![' '] + rest;
    let line = spec_request_line(uri, languages, metadata);
    assert(line =~= text + seq!['\r', '\n']);
    lemma_join_ends(languages);
    assert(text.len() > 0 && text.last() != '\r' && text.last() != '\n') by {
        if rest.len() > 0 {
            assert(text.last() == rest.last());
            if list.len() > 0 {
                assert(rest.last() == list.last());
            }
        }
    }
    crate::text::lemma_trim_end_crlf_of_line(text);
    crate::text::lemma_find_at(text, ' ', uri.len() as int);
    assert(text.take(uri.len() as int) =~= uri);
    assert(text.skip(uri.len() + 1 as int) =~= rest);
    assert(text[0] == uri[0]);
    if metadata {
        assert(rest.drop_first() =~= list);
    } else {
        assert(rest =~= list);
        if languages.len() > 0 {
            assert(trim(languages[0]) == languages[0]);
            lemma_join_first(languages);
        }
    }
    if languages.len() == 0 {
        assert(list =~= Seq::<char>::empty());
        crate::text::lemma_split_none(list, ',');
        assert(trim(list) =~= Seq::<char>::empty()) by {
            reveal_with_fuel(crate::text::trim_start, 2);
            reveal_with_fuel(crate::text::trim_end, 2);
        }
        let one = seq![list];
        assert(one.last() == list);
        assert(one.drop_last() =~= Seq::<Seq<char>>::empty());
        assert(nonempty_trimmed(one.drop_last()) =~= Seq::<Seq<char>>::empty());
        assert(nonempty_trimmed(one) =~= Seq::<Seq<char>>::empty());
    } else {
        crate::text::lemma_split_join(languages, ',');
        crate::text::lemma_nonempty_trimmed_id(languages);
    }
}

/// A join of non-empty trimmed pieces is empty exactly when there are none,
/// and does not end in whitespace.
proof fn lemma_join_ends(ls: Seq<Seq<char>>)
    requires
        forall|i: int| 0 <= i < ls.len() ==> #[trigger] trim(ls[i]) == ls[i] && ls[i].len() > 0,
    ensures
        ls.len() > 0 ==> join(ls, ',').len() > 0 && !crate::text::is_ws(join(ls, ',').last()),
    decreases ls.len(),
{
    if ls.len() == 1 {
        assert(trim(ls[0]) == ls[0]);
        crate::text::lemma_trimmed_ends(ls[0]);
    } else if ls.len() > 1 {
        let rest = ls.drop_first();
        assert forall|i: int| 0 <= i < rest.len() implies #[trigger] trim(rest[i]) == rest[i] && rest[i].len() > 0 by {
            assert(rest[i] == ls[i + 1]);
        }
        lemma_join_ends(rest);
    }
}

/// A join starts with its first piece's first character.
proof fn lemma_join_first(ls: Seq<Seq<char>>)
    requires
        ls.len() > 0,
        ls[0].len() > 0,
    ensures
        join(ls, ',')[0] == ls[0][0],
{
}

/// A success response's header: the status line and the three metadata
/// lines. Dates are kept verbatim; a blank line is `None`.
#[derive(Clone, Debug, PartialEq, Eq)]
pub struct SuccessHeader {
    /// The full two-digit code.
    pub code: u8,
    pub mimetype: String,
    pub author: Option<String>,
    pub published: Option<String>,
    pub modified: Option<String>,
}

impl SuccessHeader {
    /// The UDC class the second digit names.
    pub fn class(&self) -> (r: Option<UdcClass>)
        ensures
            r == spec_udc(self.code),
    {
        UdcClass::from_code(self.code)
    }
}

/// A response header: a success with its metadata, or a status line.
#[derive(Clone, Debug, PartialEq, Eq)]
pub enum Header {
    Success(SuccessHeader),
    /// Every class but `2x`: the code and its description.
    Meta { code: u8, status: Status, meta: String },
}

/// What a malformed header looked like.
#[derive(Clone, Debug, PartialEq, Eq)]
pub struct MalformedHeader(pub String);

impl MalformedHeader {
    /// A sentence saying what went wrong.
    pub fn to_string(&self) -> (r: String)
        ensures
            r@ == "malformed scroll header: "@ + self.0@,
    {
        concat("malformed scroll header: ", self.0.as_str())
    }
}

/// What a status line reads as: its line ending dropped, two leading
/// digits naming a defined class, and the rest, leading whitespace
/// dropped, as the meta; anything else is malformed and keeps the line.
pub open spec fn spec_parse_status_line(line: Seq<char>) -> Result<(u8, Status, Seq<char>), Seq<char>> {
    let l = trim_end_crlf(line);
    if l.len() < 2 || !is_digit(l[0]) || !is_digit(l[1]) {
        Err(l)
    } else {
        let code = ((l[0] as int - 48) * 10 + (l[1] as int - 48)) as u8;
        match spec_status(code) {
            Some(s) => Ok((code, s, trim_start(l.skip(2)))),
            None => Err(l),
        }
    }
}

/// Reads a status line. For a `2x` the meta is the MIME type, and the three
/// metadata lines follow.
pub fn parse_status_line(line: &str) -> (r: Result<(u8, Status, String), MalformedHeader>)
    ensures
        match spec_parse_status_line(line@) {
            Ok((c, s, m)) => r matches Ok((c2, s2, m2)) && c2 == c && s2 == s && m2@ == m,
            Err(l) => r matches Err(MalformedHeader(x)) && x@ == l,
        },
{
    let all = chars_of(line);
    let end = trim_end_crlf_at(all.as_slice());
    let l = slice_chars(all.as_slice(), 0, end);
    if l.len() < 2 || !is_digit_char(l[0]) || !is_digit_char(l[1]) {
        return Err(MalformedHeader(string_of(l.as_slice())));
    }
    let code: u8 = ((l[0] as u32 - 48) * 10 + (l[1] as u32 - 48)) as u8;
    match Status::from_code(code) {
        Some(status) => {
            let rest = slice_chars(l.as_slice(), 2, l.len());
            assert(rest@ =~= l@.skip(2));
            let meta = trimmed_start(rest.as_slice());
            Ok((code, status, string_of(meta.as_slice())))
        },
        None => Err(MalformedHeader(string_of(l.as_slice()))),
    }
}

/// A metadata line: its line ending dropped and trimmed; blank is `None`.
pub open spec fn spec_optional(line: Seq<char>) -> Option<Seq<char>> {
    let t = trim(trim_end_crlf(line));
    if t.len() == 0 {
        None
    } else {
        Some(t)
    }
}

fn optional(line: &str) -> (r: Option<String>)
    ensures
        opt_view(r) == spec_optional(line@),
{
    let all = chars_of(line);
    let end = trim_end_crlf_at(all.as_slice());
    let l = slice_chars(all.as_slice(), 0, end);
    let t = trimmed(l.as_slice());
    if t.len() == 0 {
        None
    } else {
        Some(string_of(t.as_slice()))
    }
}

/// Assembles a success header from the status line's parts and the three
/// metadata lines that followed it.
pub fn finish_success(
    code: u8,
    mimetype: String,
    author: &str,
    published: &str,
    modified: &str,
) -> (r: SuccessHeader)
    ensures
        r.code == code,
        r.mimetype == mimetype,
        opt_view(r.author) == spec_optional(author@),
        opt_view(r.published) == spec_optional(published@),
        opt_view(r.modified) == spec_optional(modified@),
{
    SuccessHeader {
        code,
        mimetype,
        author: optional(author),
        published: optional(published),
        modified: optional(modified),
    }
}

} // verus!
