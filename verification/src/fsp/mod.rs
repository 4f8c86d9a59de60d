//! FSP: file transfer over UDP, with its own reliability and a one-byte
//! checksum whose starting value depends on the direction of travel.
pub mod client;
pub mod wire;
