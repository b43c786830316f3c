use vstd::prelude::*;

use crate::graphics::color::Color;
use crate::graphics::framebuffer::{lemma_row_index, lemma_row_index_distinct, pixel_index};
use crate::support::try_reserve_exact;

use super::{DocumentError, MAX_PIXELS};

verus! {

/// The pixels of one layer, `0xAARRGGBB`, row by row from the top-left corner.
#[derive(Clone, Debug)]
pub struct PixelBuffer {
    pub width: u32,
    pub height: u32,
    pub pixels: Vec<u32>,
}

/// Why a `width` x `height` buffer cannot be made, judged from the
/// dimensions alone: no pixels, or more than `MAX_PIXELS`.
pub open spec fn buffer_dimensions_error(width: u32, height: u32) -> Option<DocumentError> {
    if width == 0 || height == 0 {
        Some(DocumentError::InvalidDimensions)
    } else if width as int * height as int > MAX_PIXELS as int {
        Some(DocumentError::TooLarge)
    } else {
        None
    }
}

/// The number of pixels that a `width` x `height` buffer holds, or the error
/// that its dimensions give.
pub fn checked_pixel_count(width: u32, height: u32) -> (count: Result<usize, DocumentError>)
    ensures
        match buffer_dimensions_error(width, height) {
            Some(error) => count == Err::<usize, DocumentError>(error),
            None => count == Ok::<usize, DocumentError>((width as int * height as int) as usize)
                && width as int * height as int <= MAX_PIXELS as int,
        },
{
    if width == 0 || height == 0 {
        return Err(DocumentError::InvalidDimensions);
    }
    proof {
        lemma_u32_product(width, height);
    }
    let pixel_count = width as u64 * height as u64;
    if pixel_count > MAX_PIXELS {
        return Err(DocumentError::TooLarge);
    }
    Ok(pixel_count as usize)
}

/// `inner`'s pixel at `(x, y)` once it is centered in a `width` x `height`
/// canvas; cells outside it are transparent.
pub open spec fn centered_value(inner: Seq<u32>, inner_width: u32, inner_height: u32, width: u32, height: u32, x: int, y: int) -> u32 {
    let offset_x = (width - inner_width) / 2;
    let offset_y = (height - inner_height) / 2;
    if offset_x <= x < offset_x + inner_width && offset_y <= y < offset_y + inner_height {
        inner[pixel_index(inner_width, x - offset_x, y - offset_y)]
    } else {
        0
    }
}

impl PixelBuffer {
    /// All rows are present and every index fits in `u32`.
    pub open spec fn wf(&self) -> bool {
        &&& self.pixels@.len() == self.width as int * self.height as int
        &&& self.width as int * self.height as int <= u32::MAX as int + 1
    }

    pub open spec fn in_bounds(&self, x: int, y: int) -> bool {
        0 <= x < self.width && 0 <= y < self.height
    }

    /// The color stored at `(x, y)`.
    pub open spec fn at(&self, x: int, y: int) -> Color {
        Color(self.pixels@[pixel_index(self.width, x, y)])
    }

    /// A buffer of the given size filled with `fill`.
    pub fn new(width: u32, height: u32, fill: Color) -> (result: Result<PixelBuffer, DocumentError>)
        ensures
            match result {
                Ok(buffer) => {
                    &&& buffer_dimensions_error(width, height) is None
                    &&& buffer.width == width
                    &&& buffer.height == height
                    &&& buffer.pixels@ == Seq::new(width as nat * height as nat, |i: int| fill.0)
                    &&& buffer.wf()
                },
                Err(error) => match buffer_dimensions_error(width, height) {
                    Some(expected) => error == expected,
                    None => error == DocumentError::AllocationFailed,
                },
            },
    {
        let pixel_count = match checked_pixel_count(width, height) {
            Ok(count) => count,
            Err(error) => return Err(error),
        };
        let mut pixels: Vec<u32> = Vec::new();
        if !try_reserve_exact(&mut pixels, pixel_count) {
            return Err(DocumentError::AllocationFailed);
        }
        pixels.resize(pixel_count, fill.as_u32());
        assert(pixels@ =~= Seq::new(width as nat * height as nat, |i: int| fill.0));
        Ok(PixelBuffer { width, height, pixels })
    }

    /// The color at `(x, y)`, or `None` outside the buffer.
    pub fn get_pixel(&self, x: u32, y: u32) -> (pixel: Option<Color>)
        requires
            self.wf(),
        ensures
            pixel == if self.in_bounds(x as int, y as int) {
                Some(self.at(x as int, y as int))
            } else {
                None::<Color>
            },
    {
        if x >= self.width || y >= self.height {
            return None;
        }
        let index = self.index(x, y);
        Some(Color::from_u32(self.pixels[index]))
    }

    pub fn index(&self, x: u32, y: u32) -> (index: usize)
        requires
            self.wf(),
            x < self.width,
            y < self.height,
        ensures
            index as int == pixel_index(self.width, x as int, y as int),
            index < self.pixels@.len(),
    {
        proof {
            lemma_row_index(x as int, y as int, self.width as int, self.height as int);
        }
        (y * self.width + x) as usize
    }

    /// A copy of this buffer centered in a larger `width` x `height` canvas;
    /// the border is transparent.
    pub fn centered_in(&self, width: u32, height: u32) -> (result: Result<PixelBuffer, DocumentError>)
        requires
            self.wf(),
            self.width <= width,
            self.height <= height,
        ensures
            match result {
                Ok(buffer) => {
                    &&& buffer_dimensions_error(width, height) is None
                    &&& buffer.width == width
                    &&& buffer.height == height
                    &&& buffer.wf()
                    &&& forall|x: int, y: int|
                        0 <= x < width && 0 <= y < height ==> #[trigger] buffer.pixels@[pixel_index(width, x, y)]
                            == centered_value(self.pixels@, self.width, self.height, width, height, x, y)
                },
                Err(error) => match buffer_dimensions_error(width, height) {
                    Some(expected) => error == expected,
                    None => error == DocumentError::AllocationFailed,
                },
            },
    {
        let mut result = PixelBuffer::new(width, height, Color::rgba(0, 0, 0, 0))?;
        let offset_x = (width - self.width) / 2;
        let offset_y = (height - self.height) / 2;
        let inner_width = self.width;
        let inner_height = self.height;
        let ghost blank = result.pixels@;
        proof {
            assert(Color::from_channels(0, 0, 0, 0).0 == 0);
            assert forall|px: int, py: int|
                0 <= px < width && 0 <= py < height implies #[trigger] result.pixels@[pixel_index(width, px, py)]
                    == if py < offset_y + 0 {
                    centered_value(self.pixels@, self.width, self.height, width, height, px, py)
                } else {
                    0u32
                } by {
                lemma_row_index(px, py, width as int, height as int);
            }
        }
        let mut y: u32 = 0;
        #[verifier::loop_isolation(false)]
        while y < inner_height
            invariant
                self.wf(),
                result.wf(),
                result.width == width,
                result.height == height,
                inner_width == self.width,
                inner_height == self.height,
                self.width <= width,
                self.height <= height,
                offset_x == (width - self.width) / 2,
                offset_y == (height - self.height) / 2,
                y <= inner_height,
                blank == Seq::new(width as nat * height as nat, |i: int| 0u32),
                buffer_dimensions_error(width, height) is None,
                forall|px: int, py: int|
                    0 <= px < width && 0 <= py < height ==> #[trigger] result.pixels@[pixel_index(width, px, py)]
                        == if py < offset_y + y {
                        centered_value(self.pixels@, self.width, self.height, width, height, px, py)
                    } else {
                        0u32
                    },
            decreases inner_height - y,
        {
            let mut x: u32 = 0;
            while x < inner_width
                invariant
                    self.wf(),
                    result.wf(),
                    result.width == width,
                    result.height == height,
                    inner_width == self.width,
                    inner_height == self.height,
                    self.width <= width,
                    self.height <= height,
                    offset_x == (width - self.width) / 2,
                    offset_y == (height - self.height) / 2,
                    y < inner_height,
                    x <= inner_width,
                    buffer_dimensions_error(width, height) is None,
                    forall|px: int, py: int|
                        0 <= px < width && 0 <= py < height ==> #[trigger] result.pixels@[pixel_index(width, px, py)]
                            == if py < offset_y + y || (py == offset_y + y && px < offset_x + x) {
                            centered_value(self.pixels@, self.width, self.height, width, height, px, py)
                        } else {
                            0u32
                        },
                decreases inner_width - x,
            {
                let source = self.index(x, y);
                let target = result.index(x + offset_x, y + offset_y);
                let value = self.pixels[source];
                result.pixels.set(target, value);
                proof {
                    assert forall|px: int, py: int|
                        0 <= px < width && 0 <= py < height implies #[trigger] result.pixels@[pixel_index(width, px, py)]
                            == if py < offset_y + y || (py == offset_y + y && px < offset_x + x + 1) {
                            centered_value(self.pixels@, self.width, self.height, width, height, px, py)
                        } else {
                            0u32
                        } by {
                        lemma_row_index(px, py, width as int, height as int);
                        lemma_row_index_distinct(px, py, (x + offset_x) as int, (y + offset_y) as int, width as int, height as int);
                    }
                }
                x += 1;
            }
            y += 1;
        }
        Ok(result)
    }
}

impl PixelBuffer {
    /// Composites `color` over the pixel at `(x, y)`; outside the buffer
    /// nothing changes. A brush dab paints each covered pixel this way, with
    /// the alpha already scaled by its coverage.
    pub fn blend_pixel(&mut self, x: u32, y: u32, color: Color)
        requires
            old(self).wf(),
        ensures
            final(self).width == old(self).width,
            final(self).height == old(self).height,
            final(self).pixels@ == if old(self).in_bounds(x as int, y as int) {
                old(self).pixels@.update(
                    pixel_index(old(self).width, x as int, y as int),
                    color.over(old(self).at(x as int, y as int)).0,
                )
            } else {
                old(self).pixels@
            },
    {
        if x >= self.width || y >= self.height {
            return;
        }
        let index = self.index(x, y);
        let blended = color.blend_over(Color::from_u32(self.pixels[index]));
        self.pixels.set(index, blended.as_u32());
    }

    /// Keeps `remaining / 255` of the alpha of the pixel at `(x, y)`, rounded
    /// to nearest, and leaves its color channels; outside the buffer nothing
    /// changes. An eraser dab erases each covered pixel this way.
    pub fn erase_pixel(&mut self, x: u32, y: u32, remaining: u16)
        requires
            old(self).wf(),
            remaining <= 255,
        ensures
            final(self).width == old(self).width,
            final(self).height == old(self).height,
            final(self).pixels@ == if old(self).in_bounds(x as int, y as int) {
                old(self).pixels@.update(
                    pixel_index(old(self).width, x as int, y as int),
                    erased(old(self).at(x as int, y as int), remaining as int).0,
                )
            } else {
                old(self).pixels@
            },
            old(self).in_bounds(x as int, y as int) ==> {
                let before = old(self).at(x as int, y as int);
                let after = final(self).at(x as int, y as int);
                &&& after.red_s() == before.red_s()
                &&& after.green_s() == before.green_s()
                &&& after.blue_s() == before.blue_s()
                &&& after.alpha_s() as int == (before.alpha_s() as int * remaining + 127) / 255
            },
    {
        if x >= self.width || y >= self.height {
            return;
        }
        let index = self.index(x, y);
        let pixel = Color::from_u32(self.pixels[index]);
        let alpha = pixel.alpha() as u16;
        assert(alpha * remaining <= 255 * 255) by (nonlinear_arith)
            requires alpha <= 255, remaining <= 255;
        let kept = ((alpha * remaining + 127) / 255) as u8;
        let result = Color::rgba(pixel.red(), pixel.green(), pixel.blue(), kept);
        self.pixels.set(index, result.as_u32());
        proof {
            lemma_erasing_keeps_color(pixel, remaining as int);
        }
    }

    /// A copy of this buffer, made element by element.
    pub fn duplicate(&self) -> (copy: PixelBuffer)
        ensures
            copy.width == self.width,
            copy.height == self.height,
            copy.pixels@ == self.pixels@,
    {
        let mut pixels: Vec<u32> = Vec::with_capacity(self.pixels.len());
        let mut i: usize = 0;
        while i < self.pixels.len()
            invariant
                i <= self.pixels@.len(),
                pixels@ == self.pixels@.subrange(0, i as int),
            decreases self.pixels@.len() - i,
        {
            pixels.push(self.pixels[i]);
            i += 1;
        }
        PixelBuffer { width: self.width, height: self.height, pixels }
    }
}

/// `pixel` with `remaining / 255` of its alpha kept, rounded to nearest.
pub open spec fn erased(pixel: Color, remaining: int) -> Color {
    Color::from_channels(
        pixel.red_s(),
        pixel.green_s(),
        pixel.blue_s(),
        ((pixel.alpha_s() as int * remaining + 127) / 255) as u8,
    )
}

/// Erasing keeps a pixel's red, green and blue and only scales its alpha by
/// `remaining / 255`, rounded to nearest.
pub proof fn lemma_erasing_keeps_color(pixel: Color, remaining: int)
    requires
        0 <= remaining <= 255,
    ensures
        erased(pixel, remaining).red_s() == pixel.red_s(),
        erased(pixel, remaining).green_s() == pixel.green_s(),
        erased(pixel, remaining).blue_s() == pixel.blue_s(),
        erased(pixel, remaining).alpha_s() as int == (pixel.alpha_s() as int * remaining + 127) / 255,
{
    let alpha = pixel.alpha_s() as int;
    assert(0 <= alpha * remaining <= 255 * 255) by (nonlinear_arith)
        requires 0 <= alpha <= 255, 0 <= remaining <= 255;
    crate::graphics::color::lemma_channels_round_trip(
        pixel.red_s(),
        pixel.green_s(),
        pixel.blue_s(),
        ((alpha * remaining + 127) / 255) as u8,
    );
}

pub proof fn lemma_u32_product(a: u32, b: u32)
    ensures
        0 <= a as int * b as int <= u64::MAX,
{
    assert(0 <= a as int * b as int <= 0xffff_ffff * 0xffff_ffff) by (nonlinear_arith)
        requires a <= 0xffff_ffff, b <= 0xffff_ffff;
}

} // verus!
