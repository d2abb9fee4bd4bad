//! Axis-aligned rectangles in pixel coordinates.

use vstd::prelude::*;

verus! {

/// A rectangle given by its top left corner and its size, in pixels.
#[derive(Debug, Clone, Copy, PartialEq, Eq, Structural)]
pub struct Rect {
    /// Column of the left edge.
    pub x: u32,
    /// Row of the top edge.
    pub y: u32,
    /// Number of columns covered.
    pub width: u32,
    /// Number of rows covered.
    pub height: u32,
}

impl Rect {
    /// Tells whether the rectangle lies inside an area of `width` by `height`
    /// pixels whose top left corner is the origin.
    pub open spec fn fits(self, width: int, height: int) -> bool {
        &&& self.x + self.width <= width
        &&& self.y + self.height <= height
    }

    /// Number of pixels covered.
    pub open spec fn area(self) -> int {
        self.width * self.height
    }

    /// Executable form of [`Rect::fits`].
    pub fn fits_in(&self, width: u32, height: u32) -> (r: bool)
        ensures
            r == self.fits(width as int, height as int),
    {
        self.x <= width && self.width <= width - self.x && self.y <= height && self.height
            <= height - self.y
    }
}

} // verus!
