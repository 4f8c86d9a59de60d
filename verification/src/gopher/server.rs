//! What a gopher server reads from a request line, and the header it puts
//! before a Gopher+ reply. Listening and answering are the caller's.
use vstd::prelude::*;
use vstd::utf8::{decode_utf8, encode_utf8, valid_utf8};

use crate::bytes::{lossy_text, string_from_utf8_lossy};
use crate::gopher::client::spec_plus_request_line;
use crate::gopher::plus::{spec_parse_header, spec_token, token_means, PlusHeader, PlusRequest};
use crate::text::{
    chars_of, decimal, decimal_chars, find, first_word, slice_chars, split, split_char, string_of,
    trim_end_crlf, trim_end_crlf_at, trim_start, views,
};

verus! {

broadcast use vstd::string::group_string_axioms;

/// The tab-separated fields of a request line, read as text with its line
/// ending dropped.
pub open spec fn request_fields(line: Seq<u8>) -> Seq<Seq<char>> {
    split(trim_end_crlf(lossy_text(line)), '\t')
}

/// What a request line asks: the selector; the search terms when the second
/// field is there and not empty; the Gopher+ form that a third field names.
pub open spec fn request_means(
    line: Seq<u8>,
    selector: Seq<char>,
    search: Option<Seq<char>>,
    plus: Option<PlusRequest>,
) -> bool {
    let f = request_fields(line);
    &&& selector == f[0]
    &&& search == (if f.len() > 1 && f[1].len() > 0 {
        Some(f[1])
    } else {
        None
    })
    &&& if f.len() > 2 {
        token_means(f[2], plus)
    } else {
        plus is None
    }
}

/// Splits a request line into selector, search terms and Gopher+ form.
pub fn parse_request(line: &[u8]) -> (r: (String, Option<String>, Option<PlusRequest>))
    ensures
        request_means(line@, r.0@, crate::text::opt_view(r.1), r.2),
{
    let text = string_from_utf8_lossy(line);
    let chars = chars_of(text.as_str());
    let end = trim_end_crlf_at(chars.as_slice());
    let body = slice_chars(chars.as_slice(), 0, end);
    assert(body@ =~= trim_end_crlf(lossy_text(line@)));
    let fields = split_char(body.as_slice(), '\t');
    proof {
        crate::text::lemma_split_nonempty(body@, '\t');
    }
    assert(fields[0]@ == request_fields(line@)[0]);
    let selector = string_of(fields[0].as_slice());
    let search = if fields.len() > 1 && fields[1].len() > 0 {
        assert(fields[1]@ == request_fields(line@)[1]);
        Some(string_of(fields[1].as_slice()))
    } else {
        None
    };
    let plus = if fields.len() > 2 {
        assert(fields[2]@ == request_fields(line@)[2]);
        PlusRequest::from_token(string_of(fields[2].as_slice()).as_str())
    } else {
        None
    };
    (selector, search, plus)
}

/// The header a server writes before a Gopher+ reply of `n` bytes.
pub open spec fn spec_plus_reply_header(n: nat) -> Seq<char> {
    seq!['+'] + decimal(n) + seq!['\r', '\n']
}

/// The Gopher+ header for a reply body of the given length.
pub fn plus_reply_header(body_len: u64) -> (r: String)
    ensures
        r@ == spec_plus_reply_header(body_len as nat),
{
    let mut v: Vec<char> = Vec::new();
    v.push('+');
    let d = decimal_chars(body_len);
    crate::text::append_chars(&mut v, d.as_slice());
    v.push('\r');
    v.push('\n');
    assert(v@ =~= spec_plus_reply_header(body_len as nat));
    string_of(v.as_slice())
}

/// The header a server writes before a body is the one a client reads back
/// as that body's length.
pub proof fn lemma_plus_reply_header_reads_back(n: u64)
    ensures
        spec_parse_header(spec_plus_reply_header(n as nat)) == Ok::<PlusHeader, Seq<char>>(
            PlusHeader::Length(n),
        ),
{
    let d = decimal(n as nat);
    let line = spec_plus_reply_header(n as nat);
    crate::text::lemma_decimal_round_trip(n as nat);
    crate::text::lemma_decimal_is_word(n as nat);
    assert(trim_end_crlf(line) == seq!['+'] + d) by {
        crate::text::lemma_decimal_last_digit(n as nat);
        assert((seq!['+'] + d).last() == d.last());
        crate::text::lemma_trim_end_crlf_of_line(seq!['+'] + d);
    }
    assert((seq!['+'] + d).drop_first() =~= d);
    assert(d != seq!['-', '1'] && d != seq!['-', '2']) by {
        assert(crate::text::is_digit(d[0]));
    }
}

/// What a client writes, the server reads back: a Gopher+ request line made
/// of a selector, search terms and a form parses into that selector, those
/// terms (none when empty) and that form. The selector and terms hold no
/// tab; a view asked for is non-empty, holds no tab and does not end in a
/// line break.
pub proof fn lemma_plus_request_reads_back(selector: Seq<char>, search: Seq<char>, form: PlusRequest)
    requires
        forall|j: int| 0 <= j < selector.len() ==> selector[j] != '\t',
        forall|j: int| 0 <= j < search.len() ==> search[j] != '\t',
        form matches PlusRequest::Item(Some(v)) ==> {
            &&& v@.len() > 0
            &&& forall|j: int| 0 <= j < v@.len() ==> v@[j] != '\t'
            &&& v@.last() != '\r' && v@.last() != '\n'
        },
    ensures
        request_means(
            encode_utf8(spec_plus_request_line(selector, search, form)),
            selector,
            if search.len() > 0 {
                Some(search)
            } else {
                None
            },
            Some(form),
        ),
{
    let tok = spec_token(form);
    let line = spec_plus_request_line(selector, search, form);
    vstd::utf8::encode_utf8_valid_utf8(line);
    vstd::utf8::encode_utf8_decode_utf8(line);
    let text = selector + seq!['\t'] + search + seq!['\t'] + tok;
    assert(line =~= text + seq!['\r', '\n']);
    assert(tok.len() > 0 && tok.last() != '\r' && tok.last() != '\n') by {
        match form {
            PlusRequest::Item(Some(v)) => {
                assert(tok.last() == v@.last());
            },
            _ => {},
        }
    }
    assert(trim_end_crlf(line) == text) by {
        assert(text.last() == tok.last());
        crate::text::lemma_trim_end_crlf_of_line(text);
    }
    assert forall|j: int| 0 <= j < tok.len() implies tok[j] != '\t' by {
        match form {
            PlusRequest::Item(Some(v)) => {
                if j > 0 {
                    assert(tok[j] == v@[j - 1]);
                }
            },
            _ => {},
        }
    }
    crate::text::lemma_split_none(tok, '\t');
    crate::text::lemma_split_at(search, tok, '\t');
    assert(selector + seq!['\t'] + (search + seq!['\t'] + tok) =~= text);
    crate::text::lemma_split_at(selector, search + seq!['\t'] + tok, '\t');
    lemma_token_round_trip_here(form);
}

proof fn lemma_token_round_trip_here(form: PlusRequest)
    requires
        form matches PlusRequest::Item(Some(v)) ==> v@.len() > 0,
    ensures
        token_means(spec_token(form), Some(form)),
{
    crate::gopher::plus::lemma_token_round_trip(form);
}

} // verus!
