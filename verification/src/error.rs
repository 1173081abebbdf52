//! The errors the traversal and the transformations can surface.

use vstd::prelude::*;

verus! {

/// What went wrong while reading or rewriting a file.
#[derive(Clone, Copy, Debug, PartialEq, Eq, Structural)]
pub enum Mp4Error {
    /// The stream ended where a header or a field was expected.
    UnexpectedEof,
    /// A 16-byte header carries a largesize in the forbidden range `1..=15`.
    InvalidData,
    /// The donor file handed to a moov transplant holds no `moov` box.
    MissingMoov,
}

} // verus!
