//! Nex (`nex://`, port 1900): the client sends a path, the server answers
//! with bytes and closes. A directory is an empty path or one ending in
//! `/`, and its listing is text whose `=> ` lines are links.
use vstd::prelude::*;

pub mod client;
pub mod listing;
pub mod server;

verus! {

/// Nex's port.
pub const NEX_PORT: u16 = 1900;

/// A directory path: empty, or ending in `/`.
pub open spec fn spec_is_directory_path(path: Seq<char>) -> bool {
    path.len() == 0 || path.last() == '/'
}

/// Whether a request path names a directory.
pub fn is_directory_path(path: &str) -> (r: bool)
    ensures
        r == spec_is_directory_path(path@),
{
    let cs = crate::text::chars_of(path);
    cs.len() == 0 || cs[cs.len() - 1] == '/'
}

} // verus!
