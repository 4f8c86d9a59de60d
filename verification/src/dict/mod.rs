//! DICT (RFC 2229): look a word up in networked dictionaries over a command
//! loop of numeric status lines, quoted parameters and dot-stuffed text
//! blocks.
pub mod client;
pub mod wire;
