//! Pull-based XML deserialization core: a shared event cache with
//! independently positioned cursors, a sequence decoder for repeated
//! sibling elements, and an enum variant decoder.

pub mod de_reader;
pub mod errors;
pub mod events;
pub mod seq;
pub mod source;
pub mod var;
