//! Guppy (`guppy://`, UDP port 6775): a response split in numbered
//! packets, each acknowledged, reassembled in order by the client.
pub mod client;
pub mod files;
pub mod packet;
pub mod reassembly;
pub mod server;

use vstd::prelude::*;

verus! {

/// Guppy's default port.
pub const GUPPY_PORT: u16 = 6775;

/// The request-size ceiling: the URL and its CRLF fit in 2048 bytes.
pub const MAX_REQUEST_BYTES: usize = 2048;

/// The largest sequence number, that of a signed 32-bit integer.
pub const MAX_SEQ: u32 = 2_147_483_647;

/// The smallest first-packet sequence number.
pub const MIN_SEQ: u32 = 6;

/// A complete response, as the client hands it back.
#[derive(Debug, Clone, PartialEq, Eq)]
pub enum GuppyResponse {
    /// A reassembled success.
    Success { mime: String, body: Vec<u8> },
    /// `1 <prompt>`: repeat the request with input in the URL query.
    Prompt { text: String },
    /// `3 <url>`: request again at this URL.
    Redirect { target: String },
    /// `4 <error>`: a message for the user.
    Error { message: String },
}

} // verus!
