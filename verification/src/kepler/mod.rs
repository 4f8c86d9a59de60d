//! Kepler (`kepler://`): the only small-web protocol with a cache model,
//! its request carrying a last-cached time and its success response length,
//! last-updated and expires.
pub mod client;
pub mod wire;
