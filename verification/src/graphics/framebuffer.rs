use vstd::prelude::*;

use super::color::Color;
use super::rect::Rect;

verus! {

/// The window's pixels, row by row from the top-left corner.
pub struct FrameBuffer {
    pub width: u32,
    pub height: u32,
    pub pixels: Vec<u32>,
}

/// Color of the checkerboard cell that holds pixel `(x, y)`.
pub open spec fn checker_value(x: int, y: int, cell_size: int, light: Color, dark: Color) -> u32 {
    if (x / cell_size + y / cell_size) % 2 == 0 {
        light.0
    } else {
        dark.0
    }
}

impl Default for FrameBuffer {
    fn default() -> (framebuffer: FrameBuffer)
        ensures
            framebuffer.width == 0,
            framebuffer.height == 0,
            framebuffer.pixels@ == Seq::<u32>::empty(),
    {
        FrameBuffer { width: 0, height: 0, pixels: Vec::new() }
    }
}

impl FrameBuffer {
    /// Every row is present and pixel indices fit in `u32`.
    pub open spec fn wf(&self) -> bool {
        &&& self.pixels@.len() == self.width as int * self.height as int
        &&& self.width as int * self.height as int <= u32::MAX as int + 1
    }

    pub open spec fn index_of(&self, x: int, y: int) -> int {
        pixel_index(self.width, x, y)
    }

    pub open spec fn in_bounds(&self, x: int, y: int) -> bool {
        0 <= x < self.width && 0 <= y < self.height
    }

    /// Changes the dimensions; pixels that already existed keep their values
    /// by index and new ones are zero.
    pub fn resize(&mut self, width: u32, height: u32)
        requires
            width as int * height as int <= usize::MAX,
        ensures
            final(self).width == width,
            final(self).height == height,
            final(self).pixels@.len() == width as int * height as int,
            forall|i: int|
                0 <= i < final(self).pixels@.len() ==> #[trigger] final(self).pixels@[i] == if i
                    < old(self).pixels@.len() {
                    old(self).pixels@[i]
                } else {
                    0
                },
    {
        self.width = width;
        self.height = height;
        proof {
            vstd::arithmetic::mul::lemma_mul_nonnegative(width as int, height as int);
        }
        let count = width as usize * height as usize;
        self.pixels.resize(count, 0);
    }

    pub fn get_pixel(&self, x: i32, y: i32) -> (pixel: Option<Color>)
        requires
            self.wf(),
        ensures
            pixel == if self.in_bounds(x as int, y as int) {
                Some(Color(self.pixels@[self.index_of(x as int, y as int)]))
            } else {
                None::<Color>
            },
    {
        if x < 0 || y < 0 || x as u32 >= self.width || y as u32 >= self.height {
            return None;
        }
        let index = self.index(x as u32, y as u32);
        Some(Color(self.pixels[index]))
    }

    fn index(&self, x: u32, y: u32) -> (index: usize)
        requires
            self.wf(),
            x < self.width,
            y < self.height,
        ensures
            index as int == self.index_of(x as int, y as int),
            index < self.pixels@.len(),
    {
        proof {
            lemma_row_index(x as int, y as int, self.width as int, self.height as int);
        }
        (y * self.width + x) as usize
    }

    /// Stores `color` at `(x, y)`; coordinates outside the buffer are ignored.
    pub fn set_pixel(&mut self, x: i32, y: i32, color: Color)
        requires
            old(self).wf(),
        ensures
            final(self).width == old(self).width,
            final(self).height == old(self).height,
            final(self).pixels@ == if old(self).in_bounds(x as int, y as int) {
                old(self).pixels@.update(old(self).index_of(x as int, y as int), color.0)
            } else {
                old(self).pixels@
            },
    {
        if x < 0 || y < 0 || x as u32 >= self.width || y as u32 >= self.height {
            return;
        }
        let index = self.index(x as u32, y as u32);
        self.pixels.set(index, color.as_bgrx());
    }

    /// Composites `color` over the pixel at `(x, y)`; coordinates outside the
    /// buffer are ignored.
    pub fn blend_pixel(&mut self, x: i32, y: i32, color: Color)
        requires
            old(self).wf(),
        ensures
            final(self).width == old(self).width,
            final(self).height == old(self).height,
            final(self).pixels@ == if old(self).in_bounds(x as int, y as int) {
                old(self).pixels@.update(
                    old(self).index_of(x as int, y as int),
                    color.over(Color(old(self).pixels@[old(self).index_of(x as int, y as int)])).0,
                )
            } else {
                old(self).pixels@
            },
    {
        if x < 0 || y < 0 || x as u32 >= self.width || y as u32 >= self.height {
            return;
        }
        let index = self.index(x as u32, y as u32);
        let blended = color.blend_over(Color(self.pixels[index]));
        self.pixels.set(index, blended.as_bgrx());
    }

    /// Fills every pixel with `color`.
    pub fn clear(&mut self, color: Color)
        requires
            old(self).wf(),
        ensures
            final(self).width == old(self).width,
            final(self).height == old(self).height,
            final(self).pixels@ == Seq::new(old(self).pixels@.len(), |i: int| color.0),
    {
        let count = self.pixels.len();
        let mut i: usize = 0;
        while i < count
            invariant
                self.width == old(self).width,
                self.height == old(self).height,
                count == self.pixels@.len(),
                count == old(self).pixels@.len(),
                i <= count,
                forall|j: int| 0 <= j < i ==> #[trigger] self.pixels@[j] == color.0,
            decreases count - i,
        {
            self.pixels.set(i, color.as_bgrx());
            i += 1;
        }
        assert(self.pixels@ =~= Seq::new(old(self).pixels@.len(), |i: int| color.0));
    }

    /// Paints alternating `cell_size` squares, `light` in the top-left one.
    /// Pixels past the `width` x `height` area keep their values.
    pub fn checkerboard(&mut self, cell_size: u32, light: Color, dark: Color)
        requires
            old(self).pixels@.len() >= old(self).width as int * old(self).height as int,
            old(self).width as int * old(self).height as int <= u32::MAX as int + 1,
            cell_size > 0,
        ensures
            final(self).width == old(self).width,
            final(self).height == old(self).height,
            final(self).pixels@.len() == old(self).pixels@.len(),
            forall|x: int, y: int|
                0 <= x < final(self).width && 0 <= y < final(self).height
                    ==> #[trigger] final(self).pixels@[final(self).index_of(x, y)]
                    == checker_value(x, y, cell_size as int, light, dark),
            forall|i: int|
                old(self).width as int * old(self).height as int <= i < old(self).pixels@.len()
                    ==> #[trigger] final(self).pixels@[i] == old(self).pixels@[i],
    {
        let width = self.width;
        let height = self.height;
        let ghost area = width as int * height as int;
        let mut y: u32 = 0;
        while y < height
            invariant
                self.width == width,
                self.height == height,
                area == width as int * height as int,
                area <= u32::MAX as int + 1,
                self.pixels@.len() == old(self).pixels@.len(),
                self.pixels@.len() >= area,
                cell_size > 0,
                y <= height,
                forall|px: int, py: int|
                    0 <= px < width && 0 <= py < y ==> #[trigger] self.pixels@[pixel_index(width, px, py)]
                        == checker_value(px, py, cell_size as int, light, dark),
                forall|i: int| area <= i < self.pixels@.len() ==> #[trigger] self.pixels@[i] == old(self).pixels@[i],
            decreases height - y,
        {
            let mut x: u32 = 0;
            while x < width
                invariant
                    self.width == width,
                    self.height == height,
                    area == width as int * height as int,
                    area <= u32::MAX as int + 1,
                    self.pixels@.len() == old(self).pixels@.len(),
                    self.pixels@.len() >= area,
                    cell_size > 0,
                    y < height,
                    x <= width,
                    forall|px: int, py: int|
                        0 <= px < width && 0 <= py < y ==> #[trigger] self.pixels@[pixel_index(width, px, py)] == checker_value(px, py, cell_size as int, light, dark),
                    forall|px: int|
                        0 <= px < x ==> #[trigger] self.pixels@[pixel_index(width, px, y as int)]
                            == checker_value(px, y as int, cell_size as int, light, dark),
                    forall|i: int| area <= i < self.pixels@.len() ==> #[trigger] self.pixels@[i] == old(self).pixels@[i],
                decreases width - x,
            {
                proof {
                    lemma_coordinate_sum(x as int, y as int, width as int, height as int);
                    lemma_row_index(x as int, y as int, width as int, height as int);
                }
                let color = if (x / cell_size + y / cell_size) % 2 == 0 {
                    light
                } else {
                    dark
                };
                let index = (y * width + x) as usize;
                self.pixels.set(index, color.as_bgrx());
                proof {
                    assert forall|px: int, py: int|
                        0 <= px < width && 0 <= py < y implies #[trigger] self.pixels@[pixel_index(width, px, py)] == checker_value(px, py, cell_size as int, light, dark) by {
                        lemma_row_index_distinct(px, py, x as int, y as int, width as int, height as int);
                        lemma_row_index(px, py, width as int, height as int);
                    }
                    assert forall|px: int| 0 <= px < x + 1 implies #[trigger] self.pixels@[pixel_index(width, px, y as int)] == checker_value(px, y as int, cell_size as int, light, dark) by {
                        lemma_row_index_distinct(px, y as int, x as int, y as int, width as int, height as int);
                        lemma_row_index(px, y as int, width as int, height as int);
                    }
                }
                x += 1;
            }
            y += 1;
        }
    }

    /// Composites `color` over the pixels that `rect` marks (all of it, or
    /// only its outline) inside the buffer, each pixel once.
    fn paint_rect(&mut self, rect: Rect, color: Color, outline: bool)
        requires
            old(self).wf(),
        ensures
            final(self).width == old(self).width,
            final(self).height == old(self).height,
            final(self).pixels@.len() == old(self).pixels@.len(),
            forall|x: int, y: int|
                old(self).in_bounds(x, y) ==> #[trigger] final(self).pixels@[old(self).index_of(x, y)]
                    == if rect.marks(x, y, outline) {
                    color.over(Color(old(self).pixels@[old(self).index_of(x, y)])).0
                } else {
                    old(self).pixels@[old(self).index_of(x, y)]
                },
    {
        let width = self.width;
        let height = self.height;
        let left = clamp_span(rect.x as i64, width);
        let right = clamp_span(rect.x as i64 + rect.width as i64, width);
        let top = clamp_span(rect.y as i64, height);
        let bottom = clamp_span(rect.y as i64 + rect.height as i64, height);
        let ghost original = self.pixels@;
        let mut y: u32 = 0;
        while y < height
            invariant
                self.wf(),
                self.width == width,
                self.height == height,
                self.pixels@.len() == original.len(),
                original.len() == width * height,
                y <= height,
                left as int == clamp_spec(rect.x as int, width as int),
                right as int == clamp_spec(rect.x + rect.width, width as int),
                top as int == clamp_spec(rect.y as int, height as int),
                bottom as int == clamp_spec(rect.y + rect.height, height as int),
                forall|px: int, py: int|
                    0 <= px < width && 0 <= py < height ==> #[trigger] self.pixels@[pixel_index(width, px, py)]
                        == if py < y && rect.marks(px, py, outline) {
                        color.over(Color(original[pixel_index(width, px, py)])).0
                    } else {
                        original[pixel_index(width, px, py)]
                    },
            decreases height - y,
        {
            if top <= y && y < bottom {
                let mut x: u32 = left;
                while x < right
                    invariant
                        self.wf(),
                        self.width == width,
                        self.height == height,
                        self.pixels@.len() == original.len(),
                        original.len() == width * height,
                        y < height,
                        top <= y < bottom,
                        left <= x,
                        right <= width,
                        left as int == clamp_spec(rect.x as int, width as int),
                        right as int == clamp_spec(rect.x + rect.width, width as int),
                        top as int == clamp_spec(rect.y as int, height as int),
                        bottom as int == clamp_spec(rect.y + rect.height, height as int),
                        forall|px: int, py: int|
                            0 <= px < width && 0 <= py < height ==> #[trigger] self.pixels@[pixel_index(width, px, py)] == if (py < y || (py == y && px < x)) && rect.marks(px, py, outline) {
                                color.over(Color(original[pixel_index(width, px, py)])).0
                            } else {
                                original[pixel_index(width, px, py)]
                            },
                    decreases right - x,
                {
                    let on_border = x as i64 == rect.x as i64 || x as i64 == rect.x as i64 + rect.width as i64 - 1
                        || y as i64 == rect.y as i64 || y as i64 == rect.y as i64 + rect.height as i64 - 1;
                    if !outline || on_border {
                        let index = self.index(x, y);
                        let blended = color.blend_over(Color(self.pixels[index]));
                        self.pixels.set(index, blended.as_bgrx());
                    }
                    proof {
                        assert forall|px: int, py: int|
                            0 <= px < width && 0 <= py < height implies #[trigger] self.pixels@[pixel_index(width, px, py)] == if (py < y || (py == y && px < x + 1)) && rect.marks(px, py, outline) {
                                color.over(Color(original[pixel_index(width, px, py)])).0
                            } else {
                                original[pixel_index(width, px, py)]
                            } by {
                            lemma_row_index_distinct(px, py, x as int, y as int, width as int, height as int);
                            lemma_row_index(px, py, width as int, height as int);
                        }
                    }
                    x += 1;
                }
            }
            y += 1;
        }
    }

    /// Composites `color` over every pixel of `rect` that lies inside the
    /// buffer.
    pub fn fill_rect(&mut self, rect: Rect, color: Color)
        requires
            old(self).wf(),
        ensures
            final(self).width == old(self).width,
            final(self).height == old(self).height,
            final(self).pixels@.len() == old(self).pixels@.len(),
            forall|x: int, y: int|
                old(self).in_bounds(x, y) ==> #[trigger] final(self).pixels@[old(self).index_of(x, y)]
                    == if rect.has_point(x, y) {
                    color.over(Color(old(self).pixels@[old(self).index_of(x, y)])).0
                } else {
                    old(self).pixels@[old(self).index_of(x, y)]
                },
    {
        self.paint_rect(rect, color, false);
    }

    /// Composites `color` over the one-pixel outline of `rect`, where it lies
    /// inside the buffer; each outline pixel is painted once.
    pub fn draw_rect(&mut self, rect: Rect, color: Color)
        requires
            old(self).wf(),
        ensures
            final(self).width == old(self).width,
            final(self).height == old(self).height,
            final(self).pixels@.len() == old(self).pixels@.len(),
            forall|x: int, y: int|
                old(self).in_bounds(x, y) ==> #[trigger] final(self).pixels@[old(self).index_of(x, y)]
                    == if rect.on_border(x, y) {
                    color.over(Color(old(self).pixels@[old(self).index_of(x, y)])).0
                } else {
                    old(self).pixels@[old(self).index_of(x, y)]
                },
    {
        self.paint_rect(rect, color, true);
    }
}

/// Position of pixel `(x, y)` in a row-major buffer `width` pixels wide.
pub open spec fn pixel_index(width: u32, x: int, y: int) -> int {
    y * width + x
}

pub open spec fn clamp_spec(value: int, limit: int) -> int {
    if value < 0 {
        0
    } else if value > limit {
        limit
    } else {
        value
    }
}

fn clamp_span(value: i64, limit: u32) -> (clamped: u32)
    ensures
        clamped as int == clamp_spec(value as int, limit as int),
{
    if value < 0 {
        0
    } else if value > limit as i64 {
        limit
    } else {
        value as u32
    }
}

pub proof fn lemma_row_index(x: int, y: int, width: int, height: int)
    requires
        0 <= x < width,
        0 <= y < height,
    ensures
        0 <= y * width + x < width * height,
{
    assert(y * width + x < width * height) by (nonlinear_arith)
        requires 0 <= x < width, 0 <= y < height;
    assert(y * width >= 0) by (nonlinear_arith)
        requires 0 <= y, 0 <= width;
}

/// In a buffer that fits the `u32` index space, `x + y` fits in `u32`.
pub proof fn lemma_coordinate_sum(x: int, y: int, width: int, height: int)
    requires
        0 <= x < width,
        0 <= y < height,
        width * height <= u32::MAX + 1,
    ensures
        x + y <= u32::MAX,
{
    assert((width - 1) * (height - 1) >= 0) by (nonlinear_arith)
        requires width >= 1, height >= 1;
    assert((width - 1) * (height - 1) == width * height - width - height + 1) by (nonlinear_arith);
}

pub proof fn lemma_row_index_distinct(x1: int, y1: int, x2: int, y2: int, width: int, height: int)
    requires
        0 <= x1 < width,
        0 <= x2 < width,
        0 <= y1 < height,
        0 <= y2 < height,
    ensures
        (y1 * width + x1 == y2 * width + x2) <==> (x1 == x2 && y1 == y2),
{
    if y1 < y2 {
        assert(y1 * width + x1 < y2 * width + x2) by (nonlinear_arith)
            requires y1 < y2, 0 <= x1 < width, 0 <= x2;
    } else if y2 < y1 {
        assert(y2 * width + x2 < y1 * width + x1) by (nonlinear_arith)
            requires y2 < y1, 0 <= x2 < width, 0 <= x1;
    }
}

} // verus!
