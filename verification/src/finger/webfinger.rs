//! WebFinger (RFC 7033): the request URL a client builds and the JSON
//! Resource Descriptor it reads back. The HTTPS request and the JSON
//! decoding are the caller's.
use std::collections::BTreeMap;

use vstd::prelude::*;
use vstd::utf8::encode_utf8;

use crate::text::{append_chars, chars_eq, chars_of, concat, string_of};

verus! {

broadcast use vstd::string::group_string_axioms;

/// The media type of a JRD, for the request's `Accept` header.
pub const MEDIA_TYPE: &'static str = "application/jrd+json";

/// The path every WebFinger query is served from.
pub const WELL_KNOWN_PATH: &'static str = "/.well-known/webfinger";

/// An `acct:` URI (RFC 7565).
pub fn acct(user: &str, host: &str) -> (r: String)
    ensures
        r@ == "acct:"@ + user@ + seq!['@'] + host@,
{
    let a = concat("acct:", user);
    let mut v = chars_of(a.as_str());
    v.push('@');
    append_chars(&mut v, chars_of(host).as_slice());
    string_of(v.as_slice())
}

/// RFC 3986's unreserved bytes, which travel as themselves.
pub open spec fn unreserved(b: u8) -> bool {
    (48 <= b <= 57) || (65 <= b <= 90) || (97 <= b <= 122) || b == 45 || b == 46 || b == 95
        || b == 126
}

/// An upper-case hexadecimal digit.
pub open spec fn hex_digit(n: u8) -> char {
    if n < 10 {
        (n + 48) as char
    } else {
        (n + 55) as char
    }
}

/// Bytes percent-encoded: unreserved ones as themselves, every other one as
/// `%` and two upper-case hex digits.
pub open spec fn pct_encode(bs: Seq<u8>) -> Seq<char>
    decreases bs.len(),
{
    if bs.len() == 0 {
        seq![]
    } else {
        let b = bs.last();
        pct_encode(bs.drop_last()) + if unreserved(b) {
            seq![b as char]
        } else {
            seq!['%', hex_digit(b / 16), hex_digit(b % 16)]
        }
    }
}

fn hex(n: u8) -> (r: char)
    requires
        n < 16,
    ensures
        r == hex_digit(n),
{
    if n < 10 {
        (n + 48) as char
    } else {
        (n + 55) as char
    }
}

/// A string percent-encoded over its UTF-8 bytes.
pub fn percent_encode(s: &str) -> (r: String)
    ensures
        r@ == pct_encode(encode_utf8(s@)),
{
    let bytes = s.as_bytes();
    let mut v: Vec<char> = Vec::new();
    let mut i: usize = 0;
    while i < bytes.len()
        invariant
            i <= bytes.len(),
            bytes@ == encode_utf8(s@),
            v@ == pct_encode(bytes@.take(i as int)),
        decreases bytes.len() - i,
    {
        let b = bytes[i];
        assert(bytes@.take(i + 1).drop_last() =~= bytes@.take(i as int));
        assert(bytes@.take(i + 1).last() == b);
        if (48 <= b && b <= 57) || (65 <= b && b <= 90) || (97 <= b && b <= 122) || b == 45 || b
            == 46 || b == 95 || b == 126 {
            v.push(b as char);
        } else {
            v.push('%');
            v.push(hex(b / 16));
            v.push(hex(b % 16));
        }
        i = i + 1;
    }
    assert(bytes@.take(bytes.len() as int) =~= bytes@);
    string_of(v.as_slice())
}

/// The views of a slice of string slices.
pub open spec fn str_views(v: Seq<&str>) -> Seq<Seq<char>> {
    v.map_values(|p: &str| p@)
}

/// The `&rel=` filters for some relations, each encoded.
pub open spec fn rel_filters(rels: Seq<Seq<char>>) -> Seq<char>
    decreases rels.len(),
{
    if rels.len() == 0 {
        seq![]
    } else {
        rel_filters(rels.drop_last()) + "&rel="@ + pct_encode(encode_utf8(rels.last()))
    }
}

/// The WebFinger URL for a resource at a host: the well-known path over
/// HTTPS, the resource encoded, then a `rel` filter per relation, in order.
pub open spec fn spec_request_url(host: Seq<char>, resource: Seq<char>, rels: Seq<Seq<char>>) -> Seq<char> {
    "https://"@ + host + "/.well-known/webfinger"@ + "?resource="@ + pct_encode(
        encode_utf8(resource),
    ) + rel_filters(rels)
}

/// Builds the WebFinger request URL; an empty `rels` asks for every
/// relation.
pub fn request_url(host: &str, resource: &str, rels: &[&str]) -> (r: String)
    ensures
        r@ == spec_request_url(host@, resource@, str_views(rels@)),
{
    let a = concat("https://", host);
    let b = concat(a.as_str(), WELL_KNOWN_PATH);
    let c = concat(b.as_str(), "?resource=");
    let enc = percent_encode(resource);
    let mut url = chars_of(concat(c.as_str(), enc.as_str()).as_str());
    let ghost head = url@;
    let mut i: usize = 0;
    while i < rels.len()
        invariant
            i <= rels.len(),
            url@ == head + rel_filters(str_views(rels@).take(i as int)),
        decreases rels.len() - i,
    {
        let ghost before = url@;
        append_chars(&mut url, chars_of("&rel=").as_slice());
        let e = percent_encode(rels[i]);
        append_chars(&mut url, chars_of(e.as_str()).as_slice());
        assert(str_views(rels@).take(i + 1).drop_last() =~= str_views(rels@).take(i as int));
        assert(str_views(rels@).take(i + 1).last() == rels@[i as int]@);
        assert(url@ =~= head + rel_filters(str_views(rels@).take(i + 1)));
        i = i + 1;
    }
    assert(str_views(rels@).take(rels.len() as int) =~= str_views(rels@));
    string_of(url.as_slice())
}

/// A JSON Resource Descriptor: WebFinger's answer.
#[derive(Clone, Debug, PartialEq, Eq)]
pub struct Jrd {
    /// The URI of the entity described.
    pub subject: Option<String>,
    /// Other URIs that name the same entity.
    pub aliases: Vec<String>,
    /// Name and value pairs about the subject; values may be null.
    pub properties: BTreeMap<String, Option<String>>,
    /// The typed links, which are the point of the document.
    pub links: Vec<Link>,
}

/// One link relation in a JRD.
#[derive(Clone, Debug, PartialEq, Eq)]
pub struct Link {
    /// The relation type, a registered name or a URI; the one required
    /// field.
    pub rel: String,
    /// The media type of the target.
    pub media_type: Option<String>,
    /// The target URI.
    pub href: Option<String>,
    /// A URI template, used instead of `href` for a parameterised target.
    pub template: Option<String>,
    /// Human-readable titles, keyed by language tag.
    pub titles: BTreeMap<String, String>,
    /// Name and value pairs about this link; values may be null.
    pub properties: BTreeMap<String, Option<String>>,
}

/// The index of the first link with the given relation.
pub open spec fn first_with_rel(links: Seq<Link>, rel: Seq<char>) -> Option<int>
    decreases links.len(),
{
    if links.len() == 0 {
        None
    } else if links[0].rel@ == rel {
        Some(0)
    } else {
        match first_with_rel(links.drop_first(), rel) {
            Some(i) => Some(i + 1),
            None => None,
        }
    }
}

/// The links with the given relation, in document order.
pub open spec fn links_with_rel(links: Seq<Link>, rel: Seq<char>) -> Seq<Link>
    decreases links.len(),
{
    if links.len() == 0 {
        seq![]
    } else if links.last().rel@ == rel {
        links_with_rel(links.drop_last(), rel).push(links.last())
    } else {
        links_with_rel(links.drop_last(), rel)
    }
}

fn same_rel(link: &Link, rel: &[char]) -> (r: bool)
    ensures
        r == (link.rel@ == rel@),
{
    chars_eq(chars_of(link.rel.as_str()).as_slice(), rel)
}

impl Jrd {
    /// The first link with the given relation.
    pub fn link(&self, rel: &str) -> (r: Option<&Link>)
        ensures
            match first_with_rel(self.links@, rel@) {
                Some(i) => r == Some(&self.links@[i]),
                None => r is None,
            },
    {
        let want = chars_of(rel);
        let mut i: usize = 0;
        assert(self.links@.skip(0) =~= self.links@);
        while i < self.links.len()
            invariant
                i <= self.links.len(),
                want@ == rel@,
                forall|k: int| 0 <= k < i ==> self.links@[k].rel@ != rel@,
            decreases self.links.len() - i,
        {
            if same_rel(&self.links[i], want.as_slice()) {
                proof {
                    lemma_first_with_rel_at(self.links@, rel@, i as int);
                }
                return Some(&self.links[i]);
            }
            i = i + 1;
        }
        proof {
            lemma_first_with_rel_none(self.links@, rel@);
        }
        None
    }

    /// Every link with the given relation, in document order.
    pub fn links_with(&self, rel: &str) -> (r: Vec<&Link>)
        ensures
            r@.len() == links_with_rel(self.links@, rel@).len(),
            forall|k: int|
                0 <= k < r@.len() ==> *r@[k] == #[trigger] links_with_rel(self.links@, rel@)[k],
    {
        let want = chars_of(rel);
        let mut out: Vec<&Link> = Vec::new();
        let mut i: usize = 0;
        while i < self.links.len()
            invariant
                i <= self.links.len(),
                want@ == rel@,
                out@.len() == links_with_rel(self.links@.take(i as int), rel@).len(),
                forall|k: int|
                    0 <= k < out@.len() ==> *out@[k] == #[trigger] links_with_rel(
                        self.links@.take(i as int),
                        rel@,
                    )[k],
            decreases self.links.len() - i,
        {
            assert(self.links@.take(i + 1).drop_last() =~= self.links@.take(i as int));
            assert(self.links@.take(i + 1).last() == self.links@[i as int]);
            if same_rel(&self.links[i], want.as_slice()) {
                out.push(&self.links[i]);
            }
            i = i + 1;
        }
        assert(self.links@.take(self.links.len() as int) =~= self.links@);
        out
    }
}

proof fn lemma_first_with_rel_at(links: Seq<Link>, rel: Seq<char>, i: int)
    requires
        0 <= i < links.len(),
        links[i].rel@ == rel,
        forall|k: int| 0 <= k < i ==> links[k].rel@ != rel,
    ensures
        first_with_rel(links, rel) == Some(i),
    decreases links.len(),
{
    if i > 0 {
        assert forall|k: int| 0 <= k < i - 1 implies links.drop_first()[k].rel@ != rel by {
            assert(links.drop_first()[k] == links[k + 1]);
        }
        lemma_first_with_rel_at(links.drop_first(), rel, i - 1);
    }
}

proof fn lemma_first_with_rel_none(links: Seq<Link>, rel: Seq<char>)
    requires
        forall|k: int| 0 <= k < links.len() ==> links[k].rel@ != rel,
    ensures
        first_with_rel(links, rel) is None,
    decreases links.len(),
{
    if links.len() > 0 {
        assert forall|k: int| 0 <= k < links.len() - 1 implies links.drop_first()[k].rel@ != rel by {
            assert(links.drop_first()[k] == links[k + 1]);
        }
        lemma_first_with_rel_none(links.drop_first(), rel);
    }
}

} // verus!
