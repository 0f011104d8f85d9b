//! Decoding of run-length encoded cellular-automaton patterns.
//!
//! A pattern text consists of comment lines (`#...`), one header line
//! (`x = 3, y = 3, rule = B3/S23`) and body lines such as `bob$2bo$3o!`, in which
//! `b` is a dead cell, `o` a live one, `$` ends a row and `!` ends the pattern, each
//! with an optional count in front. [`parse`] turns such a text into a cursor over
//! the rows of a rectangular grid of zeros and ones.
//!
//! The meaning of a text is defined by the state machine in [`state`] and the
//! packing in [`pattern`]; the executable code in [`decoder`] is proved to compute
//! exactly that.

use vstd::prelude::*;

pub mod decoder;
pub mod error;
pub mod header;
pub mod laws;
pub mod pattern;
pub mod state;
pub mod text;

pub use crate::decoder::Parser;
pub use crate::error::ParseError;
pub use crate::pattern::{Pattern, PatternIter};

use crate::pattern::{decode, Cursor};

verus! {

/// Decodes `rle_text` and returns a cursor before the first row of the pattern.
///
/// Fails with the first error that reading the text meets, or with
/// `DimensionMismatch` when the rows do not fill the declared rectangle.
pub fn parse(rle_text: &str) -> (r: Result<PatternIter, ParseError>)
    ensures
        (match decode(rle_text@) {
            Ok(grid) => r is Ok && r->Ok_0@ == Cursor::start(grid) && grid.wf(),
            Err(e) => r is Err && r->Err_0 == e,
        }),
{
    let mut parser = Parser::new();
    match parser.parse(rle_text) {
        Ok(pattern) => Ok(PatternIter::new(pattern)),
        Err(e) => Err(e),
    }
}

} // verus!
