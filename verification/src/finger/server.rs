//! What a finger server reads from a query line. Listening and answering
//! are the caller's.
use vstd::prelude::*;
use vstd::utf8::encode_utf8;

use crate::bytes::{lossy_text, string_from_utf8_lossy};
use crate::finger::{spec_wire, Query};
use crate::text::{
    chars_of, is_ws, opt_view, slice_chars, string_of, trim, trim_end_crlf, trim_end_crlf_at,
    trim_start, trimmed, trimmed_start,
};

verus! {

broadcast use vstd::string::group_string_axioms;

/// What a query line asks: its line ending dropped, a leading `/W` is the
/// verbose switch, and the rest, trimmed, is the user when not empty.
pub open spec fn spec_parse_query(line: Seq<u8>) -> (Option<Seq<char>>, bool) {
    let text = trim_end_crlf(lossy_text(line));
    let verbose = seq!['/', 'W'].is_prefix_of(text);
    let rest = if verbose {
        trim_start(text.skip(2))
    } else {
        text
    };
    let user = trim(rest);
    (
        if user.len() == 0 {
            None
        } else {
            Some(user)
        },
        verbose,
    )
}

/// Reads a query line.
pub fn parse_query(line: &[u8]) -> (r: Query)
    ensures
        (opt_view(r.user), r.verbose) == spec_parse_query(line@),
{
    let text = string_from_utf8_lossy(line);
    let all = chars_of(text.as_str());
    let end = trim_end_crlf_at(all.as_slice());
    let t = slice_chars(all.as_slice(), 0, end);
    let switch = ['/', 'W'];
    assert(switch@ =~= seq!['/', 'W']);
    let verbose = crate::text::starts_with(t.as_slice(), switch.as_slice());
    let rest = if verbose {
        let after = slice_chars(t.as_slice(), 2, t.len());
        assert(after@ =~= t@.skip(2));
        trimmed_start(after.as_slice())
    } else {
        t
    };
    let user = trimmed(rest.as_slice());
    let user = if user.len() == 0 {
        None
    } else {
        Some(string_of(user.as_slice()))
    };
    Query { user, verbose }
}

/// What a client writes, the server reads back: a query's wire form parses
/// into that query, when its user is non-empty and trimmed and, without the
/// switch, does not itself start with `/W`.
pub proof fn lemma_wire_reads_back(user: Option<Seq<char>>, verbose: bool)
    requires
        user matches Some(u) ==> u.len() > 0 && trim(u) == u,
        !verbose && user is Some ==> !seq!['/', 'W'].is_prefix_of(user.unwrap()),
    ensures
        spec_parse_query(encode_utf8(spec_wire(user, verbose))) == (user, verbose),
{
    let w = spec_wire(user, verbose);
    vstd::utf8::encode_utf8_valid_utf8(w);
    vstd::utf8::encode_utf8_decode_utf8(w);
    let u = match user {
        Some(u) => u,
        None => Seq::<char>::empty(),
    };
    if u.len() > 0 {
        crate::text::lemma_trimmed_ends(u);
    }
    let text = if verbose && u.len() == 0 {
        seq!['/', 'W']
    } else if verbose {
        seq!['/', 'W', ' '] + u
    } else {
        u
    };
    assert(w =~= text + seq!['\r', '\n']);
    assert(text.len() > 0 ==> text.last() != '\r' && text.last() != '\n') by {
        if text.len() > 0 {
            if verbose && u.len() == 0 {
                assert(text.last() == 'W');
            } else if u.len() > 0 {
                assert(text.last() == u.last());
            }
        }
    }
    crate::text::lemma_trim_end_crlf_of_line(text);
    if verbose {
        assert(text[0] == '/' && text[1] == 'W');
        assert(seq!['/', 'W'].is_prefix_of(text));
        if u.len() == 0 {
            assert(text.skip(2) =~= Seq::<char>::empty());
            assert(trim(Seq::<char>::empty()) =~= Seq::<char>::empty());
        } else {
            assert(text.skip(2) =~= seq![' '] + u);
            assert(trim_start(u) == u);
            assert((seq![' '] + u).drop_first() =~= u);
            assert(is_ws(' '));
            assert(trim_start(seq![' '] + u) == u);
        }
    } else {
        if u.len() == 0 {
            assert(trim(Seq::<char>::empty()) =~= Seq::<char>::empty());
        }
    }
}

} // verus!
