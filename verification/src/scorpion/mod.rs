//! Scorpion: a binary-document protocol with upload, ranged download and
//! interactive subprotocols sharing one port with TLS.
use vstd::prelude::*;

pub mod client;
pub mod document;
pub mod request;
pub mod response;
pub mod server;
pub mod status;

verus! {

/// Scorpion's well-known port.
pub const DEFAULT_PORT: u16 = 1517;

/// The request line's cap, in bytes.
pub const MAX_REQUEST_LINE: usize = 8192;

/// Whether a connection's first byte opens a TLS handshake (a handshake
/// record), which is how one port serves both plaintext and TLS.
pub fn is_tls_hello(first_byte: u8) -> (r: bool)
    ensures
        r == (first_byte == 0x16),
{
    first_byte == 0x16
}

} // verus!
