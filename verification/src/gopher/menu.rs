//! Gopher menus (RFC 1436): tab-separated item lines, each read into its
//! kind, its display text, the resource URL (RFC 4266) and any Gopher+
//! marker.
use vstd::prelude::*;

use crate::text::{
    append_chars, chars_eq, chars_of, is_period, lines, lines_of, slice_chars, splitn,
    splitn_char, starts_with_str, string_of, trim, trimmed, until_period, views,
};

verus! {

broadcast use vstd::string::group_string_axioms;

/// The semantic class of a menu line, from its item-type character.
#[derive(Clone, Debug, PartialEq, Eq, Structural)]
pub enum GopherKind {
    /// `i`: informational text, no resource.
    Info,
    /// `3`: a server error message, no resource.
    Error,
    /// `0`: a text file.
    Text,
    /// `1`: a submenu.
    Submenu,
    /// `7`: a full-text search server.
    Search,
    /// `9`: binary.
    Binary,
    /// `g` or `I`: an image.
    Image,
    /// `s`: sound.
    Sound,
    /// `T`: a telnet session.
    Telnet,
    /// `h`: a URL item, whose selector carries an outside URL.
    Url,
    /// Any other item type, still navigable.
    Other(char),
}

/// The Gopher+ marker in an item line's fifth field.
#[derive(Clone, Copy, Debug, PartialEq, Eq, Structural)]
pub enum GopherPlus {
    /// `+`: the item has attribute blocks.
    Supported,
    /// `?`: the item carries an `+ASK` form to fill in first.
    Form,
}

/// The marker a fifth field names, once trimmed; anything else is none.
pub open spec fn spec_plus_field(field: Seq<char>) -> Option<GopherPlus> {
    if trim(field) == seq!['+'] {
        Some(GopherPlus::Supported)
    } else if trim(field) == seq!['?'] {
        Some(GopherPlus::Form)
    } else {
        None
    }
}

impl GopherPlus {
    /// Classifies a fifth field.
    fn from_field(field: &[char]) -> (r: Option<Self>)
        ensures
            r == spec_plus_field(field@),
    {
        let t = trimmed(field);
        if t.len() == 1 && t[0] == '+' {
            assert(t@ =~= seq!['+']);
            Some(Self::Supported)
        } else if t.len() == 1 && t[0] == '?' {
            assert(t@ =~= seq!['?']);
            assert(t@ != seq!['+']);
            Some(Self::Form)
        } else {
            assert(t@ != seq!['+'] && t@ != seq!['?']) by {
                if t@ == seq!['+'] || t@ == seq!['?'] {
                    assert(t@.len() == 1);
                }
            }
            None
        }
    }
}

/// One parsed menu line.
#[derive(Clone, Debug, PartialEq, Eq)]
pub struct GopherItem {
    pub kind: GopherKind,
    pub display: String,
    /// The resource URL: a `gopher://` URL for standard items, the target of
    /// a URL item, nothing for info and error lines.
    pub url: Option<String>,
    /// The Gopher+ marker, when the server sent one.
    pub plus: Option<GopherPlus>,
}

/// A menu item over character sequences: kind, display, URL, marker.
pub type ItemModel = (GopherKind, Seq<char>, Option<Seq<char>>, Option<GopherPlus>);

impl View for GopherItem {
    type V = ItemModel;

    open spec fn view(&self) -> ItemModel {
        (self.kind, self.display@, crate::text::opt_view(self.url), self.plus)
    }
}

/// The kind an item-type character names.
pub open spec fn spec_kind_of(t: char) -> GopherKind {
    if t == '0' {
        GopherKind::Text
    } else if t == '1' {
        GopherKind::Submenu
    } else if t == '7' {
        GopherKind::Search
    } else if t == '9' {
        GopherKind::Binary
    } else if t == 'g' || t == 'I' {
        GopherKind::Image
    } else if t == 's' {
        GopherKind::Sound
    } else if t == 'T' {
        GopherKind::Telnet
    } else {
        GopherKind::Other(t)
    }
}

/// The item types with a kind of their own, each with its kind: `0` text,
/// `1` submenu, `7` search, `9` binary, `g` and `I` image, `s` sound, `T`
/// telnet.
pub open spec fn known_kinds() -> Seq<(char, GopherKind)> {
    seq![
        ('0', GopherKind::Text),
        ('1', GopherKind::Submenu),
        ('7', GopherKind::Search),
        ('9', GopherKind::Binary),
        ('g', GopherKind::Image),
        ('I', GopherKind::Image),
        ('s', GopherKind::Sound),
        ('T', GopherKind::Telnet),
    ]
}

/// A type character listed in `known_kinds` reads as its kind; any other
/// is carried as `Other` of itself.
pub proof fn lemma_kinds_table(t: char)
    ensures
        forall|i: int|
            0 <= i < known_kinds().len() && #[trigger] known_kinds()[i].0 == t ==> spec_kind_of(t)
                == known_kinds()[i].1,
        (forall|i: int| 0 <= i < known_kinds().len() ==> #[trigger] known_kinds()[i].0 != t)
            ==> spec_kind_of(t) == GopherKind::Other(t),
{
    if forall|i: int| 0 <= i < known_kinds().len() ==> #[trigger] known_kinds()[i].0 != t {
        assert(known_kinds()[0].0 != t);
        assert(known_kinds()[1].0 != t);
        assert(known_kinds()[2].0 != t);
        assert(known_kinds()[3].0 != t);
        assert(known_kinds()[4].0 != t);
        assert(known_kinds()[5].0 != t);
        assert(known_kinds()[6].0 != t);
        assert(known_kinds()[7].0 != t);
    }
}

fn kind_of(t: char) -> (r: GopherKind)
    ensures
        r == spec_kind_of(t),
{
    match t {
        '0' => GopherKind::Text,
        '1' => GopherKind::Submenu,
        '7' => GopherKind::Search,
        '9' => GopherKind::Binary,
        'g' | 'I' => GopherKind::Image,
        's' => GopherKind::Sound,
        'T' => GopherKind::Telnet,
        other => GopherKind::Other(other),
    }
}

/// The RFC 4266 URL of a standard item: host, a port unless it is empty or
/// the default 70, then the type character and the selector as the path.
pub open spec fn spec_gopher_url(t: char, host: Seq<char>, port: Seq<char>, selector: Seq<char>) -> Seq<char> {
    let port_part = if port.len() == 0 || port == seq!['7', '0'] {
        seq![]
    } else {
        seq![':'] + port
    };
    seq!['g', 'o', 'p', 'h', 'e', 'r', ':', '/', '/'] + host + port_part + seq!['/', t] + selector
}

fn synthesise_gopher_url(t: char, host: &[char], port: &[char], selector: &[char]) -> (r: String)
    ensures
        r@ == spec_gopher_url(t, host@, port@, selector@),
{
    let seventy = ['7', '0'];
    assert(seventy@ =~= seq!['7', '0']);
    let mut v: Vec<char> = Vec::new();
    v.push('g');
    v.push('o');
    v.push('p');
    v.push('h');
    v.push('e');
    v.push('r');
    v.push(':');
    v.push('/');
    v.push('/');
    append_chars(&mut v, host);
    let ghost before_port = v@;
    if !(port.len() == 0 || chars_eq(port, seventy.as_slice())) {
        v.push(':');
        append_chars(&mut v, port);
    }
    v.push('/');
    v.push(t);
    append_chars(&mut v, selector);
    assert(v@ =~= spec_gopher_url(t, host@, port@, selector@));
    string_of(v.as_slice())
}

/// The fields of a menu line after its type character: display, selector,
/// host, port (70 when absent), and the optional fifth.
pub open spec fn field_or(parts: Seq<Seq<char>>, i: int, dflt: Seq<char>) -> Seq<char> {
    if i < parts.len() {
        parts[i]
    } else {
        dflt
    }
}

/// A URL item's target: the selector without a leading `URL:`, trimmed.
pub open spec fn url_target(selector: Seq<char>) -> Seq<char> {
    if seq!['U', 'R', 'L', ':'].is_prefix_of(selector) {
        trim(selector.skip(4))
    } else {
        trim(selector)
    }
}

/// What a non-empty menu line reads as. Info and error lines carry no URL;
/// a URL item with no target and a resource with no host are skipped.
pub open spec fn spec_parse_line(line: Seq<char>) -> Option<ItemModel> {
    let t = line[0];
    let parts = splitn(line.drop_first(), 5, '\t');
    let display = parts[0];
    let selector = field_or(parts, 1, seq![]);
    let host = field_or(parts, 2, seq![]);
    let port = field_or(parts, 3, seq!['7', '0']);
    let plus = if 4 < parts.len() {
        spec_plus_field(parts[4])
    } else {
        None
    };
    if t == 'i' {
        Some((GopherKind::Info, display, None, plus))
    } else if t == '3' {
        Some((GopherKind::Error, display, None, plus))
    } else if t == 'h' {
        if url_target(selector).len() == 0 {
            None
        } else {
            Some((GopherKind::Url, display, Some(url_target(selector)), plus))
        }
    } else if host.len() == 0 {
        None
    } else {
        Some((spec_kind_of(t), display, Some(spec_gopher_url(t, host, port, selector)), plus))
    }
}

/// The items of a run of lines: blank lines and lines that read as no item
/// are skipped.
pub open spec fn spec_items(ls: Seq<Seq<char>>) -> Seq<ItemModel>
    decreases ls.len(),
{
    if ls.len() == 0 {
        seq![]
    } else {
        let rest = spec_items(ls.drop_last());
        if ls.last().len() == 0 {
            rest
        } else {
            match spec_parse_line(ls.last()) {
                Some(item) => rest.push(item),
                None => rest,
            }
        }
    }
}

/// The views of a run of items.
pub open spec fn item_views(v: Seq<GopherItem>) -> Seq<ItemModel> {
    v.map_values(|i: GopherItem| i@)
}

/// Splitting in at most five pieces yields at least one.
proof fn lemma_splitn_nonempty(s: Seq<char>, n: nat, c: char)
    ensures
        splitn(s, n, c).len() >= 1,
{
    if n > 1 {
        match crate::text::split_once(s, c) {
            Some((h, t)) => {},
            None => {},
        }
    }
}

fn field(parts: &Vec<Vec<char>>, i: usize) -> (r: Vec<char>)
    ensures
        r@ == field_or(views(parts@), i as int, seq![]),
{
    if i < parts.len() {
        slice_chars(parts[i].as_slice(), 0, parts[i].len())
    } else {
        Vec::new()
    }
}

fn parse_line(line: &[char]) -> (r: Option<GopherItem>)
    requires
        line@.len() > 0,
    ensures
        match spec_parse_line(line@) {
            Some(m) => r matches Some(item) && item@ == m,
            None => r is None,
        },
{
    let t = line[0];
    let rest = slice_chars(line, 1, line.len());
    assert(rest@ =~= line@.drop_first());
    let parts = splitn_char(rest.as_slice(), 5, '\t');
    proof {
        lemma_splitn_nonempty(rest@, 5, '\t');
    }
    let ghost ps = views(parts@);
    assert(parts[0]@ == ps[0]);
    let display = string_of(parts[0].as_slice());
    let selector = field(&parts, 1);
    let host = field(&parts, 2);
    let port = if 3 < parts.len() {
        slice_chars(parts[3].as_slice(), 0, parts[3].len())
    } else {
        let mut p: Vec<char> = Vec::new();
        p.push('7');
        p.push('0');
        assert(p@ =~= seq!['7', '0']);
        p
    };
    assert(port@ == field_or(ps, 3, seq!['7', '0']));
    let plus = if 4 < parts.len() {
        GopherPlus::from_field(parts[4].as_slice())
    } else {
        None
    };
    if t == 'i' {
        Some(GopherItem { kind: GopherKind::Info, display, url: None, plus })
    } else if t == '3' {
        Some(GopherItem { kind: GopherKind::Error, display, url: None, plus })
    } else if t == 'h' {
        proof {
            reveal_strlit("URL:");
            assert("URL:"@ =~= seq!['U', 'R', 'L', ':']);
        }
        let target = if starts_with_str(selector.as_slice(), "URL:") {
            let s = slice_chars(selector.as_slice(), 4, selector.len());
            assert(s@ =~= selector@.skip(4));
            trimmed(s.as_slice())
        } else {
            trimmed(selector.as_slice())
        };
        if target.len() == 0 {
            None
        } else {
            Some(
                GopherItem {
                    kind: GopherKind::Url,
                    display,
                    url: Some(string_of(target.as_slice())),
                    plus,
                },
            )
        }
    } else if host.len() == 0 {
        None
    } else {
        let url = synthesise_gopher_url(t, host.as_slice(), port.as_slice(), selector.as_slice());
        Some(GopherItem { kind: kind_of(t), display, url: Some(url), plus })
    }
}

/// Reads a menu body into its items, in order. It stops at the lone `.`
/// and skips blank lines and lines that read as no item.
pub fn parse(body: &str) -> (r: Vec<GopherItem>)
    ensures
        item_views(r@) == spec_items(until_period(lines(body@))),
{
    let chars = chars_of(body);
    let ls = lines_of(chars.as_slice());
    let ghost all = views(ls@);
    let mut items: Vec<GopherItem> = Vec::new();
    let mut i: usize = 0;
    assert(all.skip(0) =~= all);
    assert(all.take(0) + until_period(all.skip(0)) =~= until_period(all));
    while i < ls.len()
        invariant
            i <= ls.len(),
            all == views(ls@),
            all == lines(body@),
            until_period(all) == all.take(i as int) + until_period(all.skip(i as int)),
            item_views(items@) == spec_items(all.take(i as int)),
        decreases ls.len() - i,
    {
        let line = ls[i].as_slice();
        proof {
            crate::text::lemma_until_period_step(all, i as int);
        }
        if is_period(line) {
            assert(all.take(i as int) == until_period(all));
            return items;
        }
        assert(all.take(i + 1).drop_last() =~= all.take(i as int));
        assert(all.take(i + 1).last() == line@);
        if line.len() > 0 {
            match parse_line(line) {
                Some(item) => {
                    let ghost before = items@;
                    items.push(item);
                    assert(item_views(items@) =~= item_views(before).push(items@.last()@));
                },
                None => {},
            }
        }
        i = i + 1;
    }
    assert(all.take(ls.len() as int) =~= all);
    assert(all.skip(ls.len() as int) =~= Seq::<Seq<char>>::empty());
    assert(all + Seq::<Seq<char>>::empty() =~= all);
    items
}

} // verus!
