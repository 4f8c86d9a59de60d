//! Gopher (RFC 1436) and Gopher+: menus, the Gopher+ attribute model, the
//! request line a server reads, and the reply framing a client applies.
pub mod client;
pub mod menu;
pub mod plus;
pub mod server;
