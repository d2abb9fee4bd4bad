//! The ways in which reading a screenshot can fail.

use vstd::prelude::*;
use crate::segment::Segment;

verus! {

/// Why a screenshot could not be read.
#[derive(Debug, Clone, Copy, PartialEq, Eq, Structural)]
pub enum Error {
    /// The board was found, but its height differs from its width by more
    /// than two percent of the width.
    BoardNotSquare {
        /// Width of the board that was found.
        width: u32,
        /// Height of the board that was found.
        height: u32,
    },
    /// A segmentation pass reached the end of its profile before it had
    /// found everything; holds the cursor it stopped at.
    LayoutFailed(Segment),
    /// The layout was found, but a cell of it cannot be classified: it
    /// reaches beyond the screenshot, it is too small to hold the region
    /// that is matched, or no template fits into that region.
    CellUnreadable,
}

} // verus!
