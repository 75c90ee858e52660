//! Failures surfaced by the deserialization core.

use crate::events::Token;
use vstd::prelude::*;

verus! {

/// A failure of a decode operation.
#[derive(Debug, PartialEq, Eq)]
pub enum DeError {
    /// The token source could not produce the next token.
    Read,
    /// The token at a variant-selection point cannot name a variant;
    /// the offending token is attached for diagnostics.
    InvalidEnum(Token),
    /// The stream ended inside content that still had to be consumed.
    UnexpectedEof,
}

} // verus!
