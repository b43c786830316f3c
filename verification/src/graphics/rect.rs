use vstd::prelude::*;

verus! {

/// An axis-aligned rectangle in screen pixels; `x`/`y` is its top-left corner.
#[derive(Clone, Copy, Debug, PartialEq, Eq, Structural)]
pub struct Rect {
    pub x: i32,
    pub y: i32,
    pub width: u32,
    pub height: u32,
}

impl Rect {
    pub open spec fn has_point(self, x: int, y: int) -> bool {
        self.x <= x < self.x + self.width && self.y <= y < self.y + self.height
    }

    /// On the one-pixel outline: inside, and in the first or last column or
    /// row.
    pub open spec fn on_border(self, x: int, y: int) -> bool {
        &&& self.has_point(x, y)
        &&& x == self.x || x == self.x + self.width - 1 || y == self.y || y == self.y + self.height - 1
    }

    /// All of the rectangle, or only its outline.
    pub open spec fn marks(self, x: int, y: int, outline: bool) -> bool {
        if outline {
            self.on_border(x, y)
        } else {
            self.has_point(x, y)
        }
    }

    pub fn new(x: i32, y: i32, width: u32, height: u32) -> (rect: Rect)
        ensures
            rect == (Rect { x, y, width, height }),
    {
        Rect { x, y, width, height }
    }

    /// Whether the pixel `(x, y)` lies inside; the right and bottom edges are
    /// exclusive.
    pub fn contains(self, x: i32, y: i32) -> (inside: bool)
        ensures
            inside == self.has_point(x as int, y as int),
    {
        let x = x as i64;
        let y = y as i64;
        x >= self.x as i64 && y >= self.y as i64 && x < self.x as i64 + self.width as i64 && y
            < self.y as i64 + self.height as i64
    }
}

} // verus!
