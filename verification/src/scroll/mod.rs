//! Scroll (`scroll://`): gemini's shape with languages in the request,
//! document metadata and a subject class in the response, and the
//! scrolltext document format.
pub mod client;
pub mod scrolltext;
pub mod wire;
