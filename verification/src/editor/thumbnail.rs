//! The small preview of a layer that the layer list shows.

use vstd::prelude::*;

use crate::document::{layer_color_at, scale_alpha, Layer, LayerView};
use crate::graphics::color::Color;
use crate::graphics::framebuffer::{lemma_row_index, lemma_row_index_distinct, pixel_index, FrameBuffer};
use crate::graphics::rect::Rect;

verus! {

/// Every offset below `span`, taken as an `i32` the way a cast wraps it,
/// lands inside the `i32` range once added to `origin`.
pub open spec fn offsets_fit(origin: i32, span: u32) -> bool {
    if span as int > i32::MAX as int + 1 {
        origin == 0
    } else {
        origin as int + span as int <= i32::MAX as int + 1
    }
}

/// The checkerboard under a thumbnail: 6-pixel cells, light in the corner.
pub open spec fn thumbnail_checker(x: int, y: int) -> Color {
    if (x / 6 + y / 6) % 2 == 0 {
        Color::from_channels(210, 210, 210, 255)
    } else {
        Color::from_channels(160, 160, 160, 255)
    }
}

/// The thumbnail of `layer` at offset `(x, y)` in a `width` x `height`
/// preview: the nearest layer pixel, with the layer's opacity, over the
/// checkerboard, and dimmed when the layer is hidden.
#[verifier::opaque]
pub open spec fn thumbnail_color(layer: LayerView, width: int, height: int, x: int, y: int) -> Color {
    let sample = layer_color_at(layer, x * layer.width / width, y * layer.height / height);
    let preview = sample.over(thumbnail_checker(x, y));
    if layer.visible {
        preview
    } else {
        Color::from_channels(27, 30, 35, 120).over(preview)
    }
}

/// Whether the thumbnail loop writes the screen pixel `(x, y)`: it lies in
/// `rect` at coordinates that an `i32` can hold.
pub open spec fn thumbnail_covers(rect: Rect, x: int, y: int) -> bool {
    rect.has_point(x, y) && x <= i32::MAX && y <= i32::MAX
}

/// The screen pixel at `(x, y)`, holding `value` before, once the thumbnail
/// of `layer` is drawn in `rect` with its outline.
pub open spec fn thumbnail_pixel(value: u32, layer: LayerView, rect: Rect, x: int, y: int) -> u32 {
    let drawn = if thumbnail_covers(rect, x, y) {
        thumbnail_color(layer, rect.width as int, rect.height as int, x - rect.x, y - rect.y).0
    } else {
        value
    };
    if rect.on_border(x, y) {
        Color::from_channels(150, 160, 175, 255).over(Color(drawn)).0
    } else {
        drawn
    }
}

/// Whether the screen pixel `(x, y)` is written once the rows above `row`
/// and the first `column` pixels of row `row` are drawn.
pub open spec fn thumbnail_done(rect: Rect, x: int, y: int, row: int, column: int) -> bool {
    thumbnail_covers(rect, x, y) && (y - rect.y < row || (y - rect.y == row && x - rect.x < column))
}

/// Offset `offset` as an `i32` cast wraps it.
pub open spec fn wrapped(offset: int) -> int {
    if offset <= i32::MAX {
        offset
    } else {
        offset - 0x1_0000_0000
    }
}

/// A screen coordinate that an `i32` can hold is `origin` moved by the
/// wrapped `offset` exactly when it lies `offset` past `origin`.
proof fn lemma_screen_position(origin: i32, offset: u32, span: u32, position: int)
    requires
        offset < span,
        offsets_fit(origin, span),
        0 <= position <= i32::MAX,
    ensures
        (position == origin + wrapped(offset as int)) == (position - origin == offset),
{
}

/// `origin` moved by `offset`, which wraps as an `i32` cast does.
fn shifted(origin: i32, offset: u32, span: u32) -> (moved: i32)
    requires
        offset < span,
        offsets_fit(origin, span),
    ensures
        moved == origin + wrapped(offset as int),
{
    let step: i64 = if offset <= 0x7fff_ffff {
        offset as i64
    } else {
        offset as i64 - 0x1_0000_0000
    };
    (origin as i64 + step) as i32
}

/// The thumbnail color for offset `(x, y)` of a `width` x `height` preview.
fn thumbnail_sample(layer: &Layer, width: u32, height: u32, x: u32, y: u32) -> (color: Color)
    requires
        layer.pixels.wf(),
        x < width,
        y < height,
        layer.pixels.width > 0,
        layer.pixels.height > 0,
        (width - 1) * layer.pixels.width <= u32::MAX,
        (height - 1) * layer.pixels.height <= u32::MAX,
    ensures
        color == thumbnail_color(layer@, width as int, height as int, x as int, y as int),
{
    reveal(thumbnail_color);
    let checker = if (x / 6 + y / 6) % 2 == 0 {
        Color::rgb(210, 210, 210)
    } else {
        Color::rgb(160, 160, 160)
    };
    let layer_width = layer.pixels.width;
    let layer_height = layer.pixels.height;
    proof {
        assert(x * layer_width <= (width - 1) * layer_width) by (nonlinear_arith)
            requires x <= width - 1, layer_width >= 0;
        assert(y * layer_height <= (height - 1) * layer_height) by (nonlinear_arith)
            requires y <= height - 1, layer_height >= 0;
        assert((x * layer_width) as int / width as int <= layer_width - 1) by (nonlinear_arith)
            requires x < width, layer_width > 0, width > 0;
        assert((y * layer_height) as int / height as int <= layer_height - 1) by (nonlinear_arith)
            requires y < height, layer_height > 0, height > 0;
    }
    let source_x = x * layer_width / width;
    let source_y = y * layer_height / height;
    let pixel = layer.pixels.get_pixel(source_x, source_y).unwrap();
    let scaled = Color::rgba(pixel.red(), pixel.green(), pixel.blue(), scale_alpha(pixel.alpha(), layer.opacity));
    let preview = scaled.blend_over(checker);
    if layer.visible {
        preview
    } else {
        Color::rgba(27, 30, 35, 120).blend_over(preview)
    }
}

/// The pixels of a `width` x `height` screen that held `original`, once
/// the thumbnail pixels before `(column, row)` are written.
#[verifier::opaque]
pub open spec fn thumbnail_progress(
    pixels: Seq<u32>,
    original: Seq<u32>,
    width: u32,
    height: u32,
    layer: LayerView,
    rect: Rect,
    row: int,
    column: int,
) -> bool {
    forall|x: int, y: int|
        0 <= x < width && 0 <= y < height ==> #[trigger] pixels[pixel_index(width, x, y)] == if thumbnail_done(
            rect,
            x,
            y,
            row,
            column,
        ) {
            thumbnail_color(layer, rect.width as int, rect.height as int, x - rect.x, y - rect.y).0
        } else {
            original[pixel_index(width, x, y)]
        }
}

/// Writing the thumbnail pixel at `(column, row)` moves the progress on by
/// one pixel.
proof fn lemma_thumbnail_step(
    before: Seq<u32>,
    after: Seq<u32>,
    original: Seq<u32>,
    width: u32,
    height: u32,
    layer: LayerView,
    rect: Rect,
    row: u32,
    column: u32,
    screen_x: i32,
    screen_y: i32,
    color: Color,
)
    requires
        offsets_fit(rect.x, rect.width),
        offsets_fit(rect.y, rect.height),
        column < rect.width,
        row < rect.height,
        screen_x == rect.x + wrapped(column as int),
        screen_y == rect.y + wrapped(row as int),
        color == thumbnail_color(layer, rect.width as int, rect.height as int, column as int, row as int),
        after == if 0 <= screen_x < width && 0 <= screen_y < height {
            before.update(pixel_index(width, screen_x as int, screen_y as int), color.0)
        } else {
            before
        },
        before.len() == width * height,
        thumbnail_progress(before, original, width, height, layer, rect, row as int, column as int),
    ensures
        thumbnail_progress(after, original, width, height, layer, rect, row as int, column as int + 1),
{
    reveal(thumbnail_progress);
    assert forall|x: int, y: int| 0 <= x < width && 0 <= y < height implies #[trigger] after[pixel_index(width, x, y)]
        == if thumbnail_done(rect, x, y, row as int, column as int + 1) {
        thumbnail_color(layer, rect.width as int, rect.height as int, x - rect.x, y - rect.y).0
    } else {
        original[pixel_index(width, x, y)]
    } by {
        lemma_row_index(x, y, width as int, height as int);
        if x <= i32::MAX && y <= i32::MAX {
            lemma_screen_position(rect.x, column, rect.width, x);
            lemma_screen_position(rect.y, row, rect.height, y);
        }
        if 0 <= screen_x < width && 0 <= screen_y < height {
            lemma_row_index(screen_x as int, screen_y as int, width as int, height as int);
            lemma_row_index_distinct(x, y, screen_x as int, screen_y as int, width as int, height as int);
        }
    }
}

/// Writes the thumbnail pixel at `(column, row)`.
fn draw_thumbnail_pixel(framebuffer: &mut FrameBuffer, layer: &Layer, rect: Rect, row: u32, column: u32, Ghost(original): Ghost<Seq<u32>>)
    requires
        old(framebuffer).wf(),
        original.len() == old(framebuffer).pixels@.len(),
        layer.pixels.wf(),
        offsets_fit(rect.x, rect.width),
        offsets_fit(rect.y, rect.height),
        column < rect.width,
        row < rect.height,
        layer.pixels.width > 0,
        layer.pixels.height > 0,
        (rect.width - 1) * layer.pixels.width <= u32::MAX,
        (rect.height - 1) * layer.pixels.height <= u32::MAX,
        thumbnail_progress(old(framebuffer).pixels@, original, old(framebuffer).width, old(framebuffer).height, layer@, rect, row as int, column as int),
    ensures
        final(framebuffer).wf(),
        final(framebuffer).width == old(framebuffer).width,
        final(framebuffer).height == old(framebuffer).height,
        thumbnail_progress(final(framebuffer).pixels@, original, old(framebuffer).width, old(framebuffer).height, layer@, rect, row as int, column as int + 1),
{
    let color = thumbnail_sample(layer, rect.width, rect.height, column, row);
    let screen_x = shifted(rect.x, column, rect.width);
    let screen_y = shifted(rect.y, row, rect.height);
    let ghost before = framebuffer.pixels@;
    proof {
        if 0 <= screen_x < framebuffer.width && 0 <= screen_y < framebuffer.height {
            lemma_row_index(screen_x as int, screen_y as int, framebuffer.width as int, framebuffer.height as int);
        }
    }
    framebuffer.set_pixel(screen_x, screen_y, color);
    proof {
        lemma_thumbnail_step(
            before,
            framebuffer.pixels@,
            original,
            framebuffer.width,
            framebuffer.height,
            layer@,
            rect,
            row,
            column,
            screen_x,
            screen_y,
            color,
        );
    }
}

/// Draws the thumbnail of `layer` in `rect`: each pixel samples the
/// nearest layer pixel, applies the layer's opacity, lies over a
/// checkerboard and is dimmed when the layer is hidden; an outline follows.
pub fn draw_layer_thumbnail(framebuffer: &mut FrameBuffer, layer: &Layer, rect: Rect)
    requires
        old(framebuffer).wf(),
        layer.pixels.wf(),
        offsets_fit(rect.x, rect.width),
        offsets_fit(rect.y, rect.height),
        rect.width > 0 && rect.height > 0 ==> {
            &&& layer.pixels.width > 0
            &&& layer.pixels.height > 0
            &&& (rect.width - 1) * layer.pixels.width <= u32::MAX
            &&& (rect.height - 1) * layer.pixels.height <= u32::MAX
        },
    ensures
        final(framebuffer).width == old(framebuffer).width,
        final(framebuffer).height == old(framebuffer).height,
        final(framebuffer).pixels@.len() == old(framebuffer).pixels@.len(),
        forall|x: int, y: int|
            old(framebuffer).in_bounds(x, y) ==> #[trigger] final(framebuffer).pixels@[old(framebuffer).index_of(x, y)]
                == thumbnail_pixel(old(framebuffer).pixels@[old(framebuffer).index_of(x, y)], layer@, rect, x, y),
{
    let ghost original = framebuffer.pixels@;
    let width = framebuffer.width;
    let height = framebuffer.height;
    proof {
        reveal(thumbnail_progress);
    }
    let mut row: u32 = 0;
    while row < rect.height
        invariant
            framebuffer.wf(),
            framebuffer.width == width,
            framebuffer.height == height,
            original.len() == width * height,
            layer.pixels.wf(),
            offsets_fit(rect.x, rect.width),
            offsets_fit(rect.y, rect.height),
            rect.width > 0 && rect.height > 0 ==> {
                &&& layer.pixels.width > 0
                &&& layer.pixels.height > 0
                &&& (rect.width - 1) * layer.pixels.width <= u32::MAX
                &&& (rect.height - 1) * layer.pixels.height <= u32::MAX
            },
            row <= rect.height,
            thumbnail_progress(framebuffer.pixels@, original, width, height, layer@, rect, row as int, 0),
        decreases rect.height - row,
    {
        let mut column: u32 = 0;
        while column < rect.width
            invariant
                framebuffer.wf(),
                framebuffer.width == width,
                framebuffer.height == height,
                original.len() == width * height,
                layer.pixels.wf(),
                offsets_fit(rect.x, rect.width),
                offsets_fit(rect.y, rect.height),
                rect.width > 0 && rect.height > 0 ==> {
                    &&& layer.pixels.width > 0
                    &&& layer.pixels.height > 0
                    &&& (rect.width - 1) * layer.pixels.width <= u32::MAX
                    &&& (rect.height - 1) * layer.pixels.height <= u32::MAX
                },
                row < rect.height,
                column <= rect.width,
                thumbnail_progress(framebuffer.pixels@, original, width, height, layer@, rect, row as int, column as int),
            decreases rect.width - column,
        {
            draw_thumbnail_pixel(framebuffer, layer, rect, row, column, Ghost(original));
            column += 1;
        }
        proof {
            reveal(thumbnail_progress);
            assert forall|x: int, y: int|
                thumbnail_done(rect, x, y, row as int + 1, 0) == thumbnail_done(rect, x, y, row as int, rect.width as int) by {}
        }
        row += 1;
    }
    let ghost drawn = framebuffer.pixels@;
    proof {
        reveal(thumbnail_progress);
        assert forall|x: int, y: int| 0 <= x < width && 0 <= y < height implies #[trigger] drawn[pixel_index(width, x, y)]
            == if thumbnail_covers(rect, x, y) {
            thumbnail_color(layer@, rect.width as int, rect.height as int, x - rect.x, y - rect.y).0
        } else {
            original[pixel_index(width, x, y)]
        } by {
            lemma_row_index(x, y, width as int, height as int);
            assert(thumbnail_done(rect, x, y, rect.height as int, 0) == thumbnail_covers(rect, x, y));
        }
    }
    let ghost outlined = *framebuffer;
    framebuffer.draw_rect(rect, Color::rgb(150, 160, 175));
    proof {
        assert forall|x: int, y: int| old(framebuffer).in_bounds(x, y) implies #[trigger] framebuffer.pixels@[old(
            framebuffer,
        ).index_of(x, y)] == thumbnail_pixel(old(framebuffer).pixels@[old(framebuffer).index_of(x, y)], layer@, rect, x, y) by {
            lemma_row_index(x, y, width as int, height as int);
            assert(outlined.in_bounds(x, y));
            assert(framebuffer.pixels@[outlined.index_of(x, y)] == if rect.on_border(x, y) {
                Color::from_channels(150, 160, 175, 255).over(Color(drawn[pixel_index(width, x, y)])).0
            } else {
                drawn[pixel_index(width, x, y)]
            });
            assert(drawn[pixel_index(width, x, y)] == if thumbnail_covers(rect, x, y) {
                thumbnail_color(layer@, rect.width as int, rect.height as int, x - rect.x, y - rect.y).0
            } else {
                original[pixel_index(width, x, y)]
            });
        }
    }
}

} // verus!
