//! What colours a text.

use crate::draw::Draw;
use vstd::prelude::*;

verus! {

/// A highlighter writes a text in colours.
pub trait Highlighter {
    /// The steps that write the text, each part in its colour.
    fn highlight(&self, content: &str) -> Vec<Draw>;
}

} // verus!
