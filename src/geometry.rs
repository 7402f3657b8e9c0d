use vstd::prelude::*;

verus! {

/// A rectangle of grid cells: columns `x .. x + width`, rows `y .. y + height`.
#[derive(Clone, Copy, Debug, PartialEq, Eq, Structural)]
pub struct CharBBox {
    pub x: usize,
    pub y: usize,
    pub width: usize,
    pub height: usize,
}

impl CharBBox {
    /// Whether the cell `(x, y)` lies in the box; the upper edges are exclusive.
    pub fn contains(&self, x: usize, y: usize) -> (r: bool)
        ensures
            r == (self.x <= x < self.x + self.width && self.y <= y < self.y + self.height),
    {
        x >= self.x && x - self.x < self.width && y >= self.y && y - self.y < self.height
    }

    /// The number of cells in the box.
    pub fn area(&self) -> (r: usize)
        requires
            self.width * self.height <= usize::MAX,
        ensures
            r == self.width * self.height,
    {
        self.width * self.height
    }
}

/// A rectangle on the page, in millipoints, with `y` measured down from the top of the page.
#[derive(Clone, Copy, Debug, PartialEq, Eq, Structural)]
pub struct PDFBBox {
    pub x0: i64,
    pub y0: i64,
    pub x1: i64,
    pub y1: i64,
}

} // verus!
