use vstd::prelude::*;

verus! {

/// Why a decode was abandoned. Every failure is fatal: no partial pattern is produced.
#[derive(Clone, Copy, Debug, PartialEq, Eq, Structural)]
pub enum ParseError {
    /// A header line lacks a field, lacks `=`, or carries a dimension that is not an
    /// unsigned decimal number that fits the machine word.
    HeaderParse,
    /// A row held more cells than the declared width when it was closed.
    RowTooLong,
    /// The pending digits do not form an unsigned run count that fits the machine word.
    InvalidRunCount,
    /// The decoded rows do not hold exactly `width * height` cells.
    DimensionMismatch,
}

} // verus!
