//! The error of the glyph sources.

use vstd::prelude::*;

verus! {

#[derive(Debug, Clone, PartialEq, Eq)]
pub struct GlyphError {
    pub message: String,
}

pub fn gerr(message: &str) -> (e: GlyphError)
    ensures
        e.message@ == message@,
{
    GlyphError { message: message.to_owned() }
}

} // verus!
