//! What the board refuses.

use vstd::prelude::*;

verus! {

/// Why a board could not be made or an operation was not carried out.
#[derive(Clone, Copy, Debug, PartialEq, Eq, Structural)]
pub enum GameError {
    /// The cell scale is zero.
    ZeroScale,
    /// The pixel width or height is not a multiple of the cell scale.
    Misaligned,
    /// The board would have fewer than two columns or two rows.
    TooSmall,
    /// The number of cells does not fit the machine's word.
    TooLarge,
    /// The point lies outside the board.
    OutOfRange,
    /// The image does not have the board's extent in pixels.
    ImageMismatch,
}

} // verus!
