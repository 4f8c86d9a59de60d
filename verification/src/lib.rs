use vstd::prelude::*;

pub mod bytes;
pub mod dict;
pub mod finger;
pub mod fsp;
pub mod gemini;
pub mod gopher;
pub mod guppy;
pub mod kepler;
pub mod nex;
pub mod scorpion;
pub mod scroll;
pub mod spartan;
pub mod text;
pub mod text_protocol;
pub mod urls;

verus! {

} // verus!
