//! Finger (RFC 1288, `finger://`, port 79): the query a client writes and
//! a server reads, what a URL asks for, and the WebFinger request a modern
//! client builds instead.
use vstd::prelude::*;

use crate::text::{chars_of, opt_view, string_of};

pub mod client;
pub mod server;
pub mod webfinger;

verus! {

broadcast use vstd::string::group_string_axioms;

/// One finger request.
#[derive(Clone, Debug, PartialEq, Eq)]
pub struct Query {
    /// The user to ask about; `None` asks for the host's listing.
    pub user: Option<String>,
    /// RFC 1288's `/W` switch, asking for the longer answer.
    pub verbose: bool,
}

impl Default for Query {
    fn default() -> (r: Self)
        ensures
            r.user is None,
            !r.verbose,
    {
        Query { user: None, verbose: false }
    }
}

/// The wire form of a query: `/W` and a space before the user when
/// verbose, then the user, then CRLF.
pub open spec fn spec_wire(user: Option<Seq<char>>, verbose: bool) -> Seq<char> {
    let u = match user {
        Some(u) => u,
        None => seq![],
    };
    if verbose && u.len() == 0 {
        seq!['/', 'W', '\r', '\n']
    } else if verbose {
        seq!['/', 'W', ' '] + u + seq!['\r', '\n']
    } else {
        u + seq!['\r', '\n']
    }
}

impl Query {
    /// A query for one user.
    pub fn user(name: &str) -> (r: Self)
        ensures
            r.user matches Some(u) && u@ == name@,
            !r.verbose,
    {
        Query { user: Some(name.to_string()), verbose: false }
    }

    /// The same query with the `/W` switch set.
    pub fn verbose(self) -> (r: Self)
        ensures
            r.user == self.user,
            r.verbose,
    {
        Query { user: self.user, verbose: true }
    }

    /// The wire form, `{W}{S}{U}{C}` in RFC 1288's grammar.
    pub fn wire(&self) -> (r: String)
        ensures
            r@ == spec_wire(opt_view(self.user), self.verbose),
    {
        let u = match &self.user {
            Some(u) => chars_of(u.as_str()),
            None => Vec::new(),
        };
        let mut v: Vec<char> = Vec::new();
        if self.verbose {
            v.push('/');
            v.push('W');
            if u.len() > 0 {
                v.push(' ');
            }
        }
        crate::text::append_chars(&mut v, u.as_slice());
        v.push('\r');
        v.push('\n');
        proof {
            let uu = match opt_view(self.user) {
                Some(x) => x,
                None => Seq::<char>::empty(),
            };
            assert(u@ == uu);
            if self.verbose && uu.len() == 0 {
                assert(v@ =~= seq!['/', 'W', '\r', '\n']);
            } else if self.verbose {
                assert(v@ =~= seq!['/', 'W', ' '] + uu + seq!['\r', '\n']);
            } else {
                assert(v@ =~= uu + seq!['\r', '\n']);
            }
        }
        string_of(v.as_slice())
    }
}

} // verus!
