//! Gemini: one request line over TLS, one status line and a body back, and
//! the gemtext document format.
pub mod client;
pub mod gemtext;
pub mod server;
pub mod titan;
pub mod tofu;
