//! Spartan (`spartan://`, port 300): one status digit, a request that
//! names host, path and the length of an uploaded data block, and the `=:`
//! prompt line its documents add to gemtext.
use vstd::prelude::*;
use vstd::string::StrSliceExecFns;

use crate::text::{chars_of, concat, find_ws, find_whitespace, trim, trim_bounds, trim_start, trim_start_at};

pub mod client;
pub mod files;
pub mod server;

verus! {

broadcast use vstd::string::group_string_axioms;

/// Spartan's default port.
pub const SPARTAN_PORT: u16 = 300;

/// A response status: the single digit that leads the status line.
#[derive(Debug, Clone, Copy, PartialEq, Eq, Structural)]
pub enum Status {
    /// `2`: success; the meta is the body's MIME type.
    Success,
    /// `3`: redirect; the meta is an absolute path on the same host.
    Redirect,
    /// `4`: client error; the meta is a message.
    ClientError,
    /// `5`: server error; the meta is a message.
    ServerError,
}

/// The digit of a status.
pub open spec fn spec_code(s: Status) -> u8 {
    match s {
        Status::Success => 2,
        Status::Redirect => 3,
        Status::ClientError => 4,
        Status::ServerError => 5,
    }
}

/// The status a digit names.
pub open spec fn spec_status(code: u8) -> Option<Status> {
    if code == 2 {
        Some(Status::Success)
    } else if code == 3 {
        Some(Status::Redirect)
    } else if code == 4 {
        Some(Status::ClientError)
    } else if code == 5 {
        Some(Status::ServerError)
    } else {
        None
    }
}

impl Status {
    /// The status digit.
    pub fn code(&self) -> (r: u8)
        ensures
            r == spec_code(*self),
    {
        match self {
            Self::Success => 2,
            Self::Redirect => 3,
            Self::ClientError => 4,
            Self::ServerError => 5,
        }
    }

    /// The status a digit names, if any.
    pub fn from_code(code: u8) -> (r: Option<Self>)
        ensures
            r == spec_status(code),
    {
        match code {
            2 => Some(Self::Success),
            3 => Some(Self::Redirect),
            4 => Some(Self::ClientError),
            5 => Some(Self::ServerError),
            _ => None,
        }
    }

    /// The digit and the status's name, as `2 (success)`.
    pub fn to_string(&self) -> (r: String)
        ensures
            r@ == match self {
                Status::Success => "2 (success)"@,
                Status::Redirect => "3 (redirect)"@,
                Status::ClientError => "4 (client error)"@,
                Status::ServerError => "5 (server error)"@,
            },
    {
        match self {
            Self::Success => "2 (success)".to_string(),
            Self::Redirect => "3 (redirect)".to_string(),
            Self::ClientError => "4 (client error)".to_string(),
            Self::ServerError => "5 (server error)".to_string(),
        }
    }
}

/// Every status's digit names it back.
pub proof fn lemma_status_round_trip(s: Status)
    ensures
        spec_status(spec_code(s)) == Some(s),
{
}

/// A prompt line read: `=:`, optional whitespace, the target up to the next
/// whitespace, then the label, trimmed, when not empty. A line with nothing
/// after the marker is no prompt.
pub open spec fn spec_prompt_line(line: Seq<char>) -> Option<(Seq<char>, Option<Seq<char>>)> {
    if !seq!['=', ':'].is_prefix_of(line) {
        None
    } else {
        let rest = trim_start(line.skip(2));
        if rest.len() == 0 {
            None
        } else {
            match find_ws(rest) {
                Some(i) => {
                    let label = trim(rest.skip(i + 1));
                    Some((rest.take(i), if label.len() == 0 {
                        None
                    } else {
                        Some(label)
                    }))
                },
                None => Some((rest, None)),
            }
        }
    }
}

/// Reads a gemtext prompt line, which gathers input to upload.
pub fn parse_prompt_line(line: &str) -> (r: Option<(&str, Option<&str>)>)
    ensures
        match spec_prompt_line(line@) {
            None => r is None,
            Some((t, l)) => r matches Some((t2, l2)) && t2@ == t && match l {
                Some(x) => l2 matches Some(y) && y@ == x,
                None => l2 is None,
            },
        },
{
    let cs = chars_of(line);
    let marker = ['=', ':'];
    assert(marker@ =~= seq!['=', ':']);
    if !crate::text::starts_with(cs.as_slice(), marker.as_slice()) {
        return None;
    }
    let after = crate::text::slice_chars(cs.as_slice(), 2, cs.len());
    assert(after@ =~= cs@.skip(2));
    let a = trim_start_at(after.as_slice());
    let start = 2 + a;
    let ghost rest = trim_start(line@.skip(2));
    assert(rest =~= cs@.skip(start as int));
    if start == cs.len() {
        return None;
    }
    let tail = crate::text::slice_chars(cs.as_slice(), start, cs.len());
    assert(tail@ =~= rest);
    match find_whitespace(tail.as_slice()) {
        Some(i) => {
            proof {
                crate::text::lemma_find_ws(rest);
            }
            let target = line.substring_char(start, start + i);
            assert(target@ =~= rest.take(i as int));
            let (la, lb) = trim_bounds(cs.as_slice(), start + i + 1, cs.len());
            assert(cs@.subrange(start + i + 1, cs.len() as int) =~= rest.skip(i + 1));
            if la == lb {
                Some((target, None))
            } else {
                let label = line.substring_char(la, lb);
                Some((target, Some(label)))
            }
        },
        None => {
            let target = line.substring_char(start, cs.len());
            Some((target, None))
        },
    }
}

} // verus!
