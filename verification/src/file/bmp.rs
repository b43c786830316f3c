//! Uncompressed 24-bit BMP export, flattened over white.

use vstd::prelude::*;

use crate::document::{composite, Document, DocumentView};
use crate::graphics::color::Color;

use super::bytes::{le_u16, le_u32, push_u16_le, push_u32_le};

verus! {

/// Bytes per stored row: three per pixel, padded to a multiple of four.
pub open spec fn bmp_stride(width: u32) -> int {
    (width as int * 3 + 3) / 4 * 4
}

/// Size of the pixel array.
pub open spec fn bmp_image_size(width: u32, height: u32) -> int {
    bmp_stride(width) * height as int
}

/// The 14-byte file header and the 40-byte `BITMAPINFOHEADER`.
pub open spec fn bmp_header(width: u32, height: u32) -> Seq<u8> {
    let image_size = bmp_image_size(width, height) as u32;
    seq![0x42u8, 0x4du8] + le_u32((54 + bmp_image_size(width, height)) as u32) + Seq::new(4, |i: int| 0u8)
        + le_u32(54) + le_u32(40) + le_u32(width) + le_u32(height) + le_u16(1) + le_u16(24) + le_u32(0)
        + le_u32(image_size) + Seq::new(16, |i: int| 0u8)
}

/// The document at `(x, y)` flattened over opaque white.
pub open spec fn flattened(document: DocumentView, x: int, y: int) -> Color {
    composite(document.layers, x, y, Color(0)).over(Color::from_channels(255, 255, 255, 255))
}

/// Row `y` as stored: blue, green, red for each pixel, then zero padding.
pub open spec fn bmp_row(document: DocumentView, y: int) -> Seq<u8> {
    Seq::new(
        bmp_stride(document.width) as nat,
        |i: int|
            if i < document.width as int * 3 {
                let color = flattened(document, i / 3, y);
                if i % 3 == 0 {
                    color.blue_s()
                } else if i % 3 == 1 {
                    color.green_s()
                } else {
                    color.red_s()
                }
            } else {
                0u8
            },
    )
}

/// The first `count` stored rows; BMP stores rows bottom-up.
pub open spec fn bmp_rows(document: DocumentView, count: nat) -> Seq<u8>
    decreases count,
{
    if count == 0 {
        Seq::empty()
    } else {
        bmp_rows(document, (count - 1) as nat) + bmp_row(document, document.height - count)
    }
}

/// The complete BMP file for a document.
pub open spec fn bmp_bytes(document: DocumentView) -> Seq<u8> {
    bmp_header(document.width, document.height) + bmp_rows(document, document.height as nat)
}

/// Encodes the document as a 24-bit BMP, each pixel composited over white.
pub fn write(document: &Document) -> (bytes: Vec<u8>)
    requires
        document.layers_cover(),
        document.width as int * 3 + 3 <= u32::MAX,
        54 + bmp_image_size(document.width, document.height) <= u32::MAX,
    ensures
        bytes@ == bmp_bytes(document@),
{
    let width = document.width;
    let height = document.height;
    let row_size = width * 3;
    let stride = (row_size + 3) / 4 * 4;
    proof {
        assert(bmp_stride(width) * height as int >= 0) by (nonlinear_arith)
            requires bmp_stride(width) >= 0;
    }
    let image_size = stride * height;
    let mut out: Vec<u8> = Vec::new();
    push_header(&mut out, width, height, image_size);
    let ghost view = document@;
    let white = Color::rgb(255, 255, 255);
    let clear = Color::rgba(0, 0, 0, 0);
    let mut row: Vec<u8> = vec![0u8; stride as usize];
    assert forall|j: int| width as int * 3 <= j < stride implies row@[j] == 0u8 by {}
    let mut written: u32 = 0;
    while written < height
        invariant
            view == document@,
            document.layers_cover(),
            width == view.width,
            height == view.height,
            stride as int == bmp_stride(width),
            row@.len() == stride,
            written <= height,
            white == Color::from_channels(255, 255, 255, 255),
            clear == Color(0),
            forall|j: int| width as int * 3 <= j < stride ==> row@[j] == 0u8,
            out@ == bmp_header(width, height) + bmp_rows(view, written as nat),
        decreases height - written,
    {
        let y = height - 1 - written;
        fill_row(document, &mut row, y, white, clear);
        let ghost before = out@;
        let mut j: usize = 0;
        while j < row.len()
            invariant
                j <= row@.len(),
                out@ == before + row@.take(j as int),
            decreases row@.len() - j,
        {
            out.push(row[j]);
            assert(row@.take(j + 1) =~= row@.take(j as int).push(row@[j as int]));
            j += 1;
        }
        proof {
            assert(row@.take(j as int) =~= row@);
        }
        written += 1;
    }
    out
}

fn push_header(out: &mut Vec<u8>, width: u32, height: u32, image_size: u32)
    requires
        image_size == bmp_image_size(width, height),
        54 + image_size <= u32::MAX,
    ensures
        final(out)@ == old(out)@ + bmp_header(width, height),
{
    let ghost start = out@;
    out.push(0x42);
    out.push(0x4d);
    push_u32_le(out, 54 + image_size);
    out.push(0);
    out.push(0);
    out.push(0);
    out.push(0);
    push_u32_le(out, 54);
    push_u32_le(out, 40);
    push_u32_le(out, width);
    push_u32_le(out, height);
    push_u16_le(out, 1);
    push_u16_le(out, 24);
    push_u32_le(out, 0);
    push_u32_le(out, image_size);
    let ghost prefix = out@;
    let mut k: usize = 0;
    while k < 16
        invariant
            k <= 16,
            out@ == prefix + Seq::new(k as nat, |i: int| 0u8),
        decreases 16 - k,
    {
        out.push(0);
        assert(out@ =~= prefix + Seq::new((k + 1) as nat, |i: int| 0u8));
        k += 1;
    }
    assert(out@ =~= start + bmp_header(width, height));
}

/// Stores the flattened row `y` of the document in `row`, keeping the
/// padding bytes.
fn fill_row(document: &Document, row: &mut Vec<u8>, y: u32, white: Color, clear: Color)
    requires
        document.layers_cover(),
        y < document.height,
        old(row)@.len() == bmp_stride(document.width),
        document.width as int * 3 + 3 <= u32::MAX,
        white == Color::from_channels(255, 255, 255, 255),
        clear == Color(0),
        forall|j: int| document.width as int * 3 <= j < old(row)@.len() ==> old(row)@[j] == 0u8,
    ensures
        final(row)@ == bmp_row(document@, y as int),
{
    let ghost view = document@;
    let width = document.width;
    let mut x: u32 = 0;
    while x < width
        invariant
            view == document@,
            document.layers_cover(),
            width == view.width,
            y < view.height,
            row@.len() == bmp_stride(width),
            x <= width,
            width as int * 3 + 3 <= u32::MAX,
            white == Color::from_channels(255, 255, 255, 255),
            clear == Color(0),
            forall|j: int| width as int * 3 <= j < row@.len() ==> row@[j] == 0u8,
            forall|j: int| 0 <= j < x as int * 3 ==> row@[j] == bmp_row(view, y as int)[j],
        decreases width - x,
    {
        let color = document.composite_pixel(x, y, clear).unwrap().blend_over(white);
        let offset = (x * 3) as usize;
        row.set(offset, color.blue());
        row.set(offset + 1, color.green());
        row.set(offset + 2, color.red());
        proof {
            assert forall|j: int| 0 <= j < (x + 1) as int * 3 implies row@[j] == bmp_row(view, y as int)[j] by {
                if j >= x as int * 3 {
                    assert(j / 3 == x as int);
                }
            }
        }
        x += 1;
    }
    assert(row@ =~= bmp_row(view, y as int));
}

} // verus!

verus! {

/// BMP export flattens onto white: every stored pixel is opaque, and where
/// the composition is fully transparent it is white.
pub proof fn lemma_flattened_onto_white(document: DocumentView, x: int, y: int)
    ensures
        flattened(document, x, y).alpha_s() == 255,
        composite(document.layers, x, y, Color(0)).alpha_s() == 0 ==> flattened(document, x, y)
            == Color::from_channels(255, 255, 255, 255),
{
    let white = Color::from_channels(255, 255, 255, 255);
    crate::graphics::color::lemma_channels_round_trip(255, 255, 255, 255);
    crate::graphics::color::lemma_over_opaque_stays_opaque(composite(document.layers, x, y, Color(0)), white);
}

/// Stored row `k` of the first `count` stored rows is document row
/// `height - 1 - k`.
proof fn lemma_bmp_rows_index(document: DocumentView, count: nat, k: int, i: int)
    requires
        0 <= k < count,
        0 <= i < bmp_stride(document.width),
    ensures
        bmp_rows(document, count).len() == count * bmp_stride(document.width),
        bmp_rows(document, count)[k * bmp_stride(document.width) + i] == bmp_row(document, document.height - 1 - k)[i],
    decreases count,
{
    let stride = bmp_stride(document.width);
    lemma_bmp_rows_len(document, (count - 1) as nat);
    if k < count - 1 {
        lemma_bmp_rows_index(document, (count - 1) as nat, k, i);
        assert(k * stride + i < (count - 1) * stride) by (nonlinear_arith)
            requires k < count - 1, 0 <= i < stride, k >= 0;
    } else {
        assert(k * stride == (count - 1) * stride);
    }
    assert(k * stride + i >= 0) by (nonlinear_arith)
        requires k >= 0, i >= 0, stride >= 0;
    assert((count - 1) * stride + stride == count * stride) by (nonlinear_arith);
}

proof fn lemma_bmp_rows_len(document: DocumentView, count: nat)
    ensures
        bmp_rows(document, count).len() == count * bmp_stride(document.width),
    decreases count,
{
    assert(bmp_stride(document.width) >= 0);
    if count > 0 {
        lemma_bmp_rows_len(document, (count - 1) as nat);
        assert(bmp_row(document, document.height - count).len() == bmp_stride(document.width));
        assert(bmp_rows(document, count) == bmp_rows(document, (count - 1) as nat) + bmp_row(
            document,
            document.height - count,
        ));
        assert((count - 1) * bmp_stride(document.width) + bmp_stride(document.width) == count * bmp_stride(
            document.width,
        )) by (nonlinear_arith);
    } else {
        assert(0 * bmp_stride(document.width) == 0);
    }
}

/// BMP stores its rows bottom-up: after the 54 header bytes, stored row `k`
/// holds the pixels of document row `height - 1 - k`, each as blue, green and
/// red of the composition over opaque white.
pub proof fn lemma_bmp_rows_are_bottom_up(document: DocumentView, k: int, x: int)
    requires
        0 <= k < document.height,
        0 <= x < document.width,
    ensures
        ({
            let bytes = bmp_bytes(document);
            let stride = (document.width as int * 3 + 3) / 4 * 4;
            let at = 54 + k * stride + 3 * x;
            let color = composite(document.layers, x, document.height - 1 - k, Color(0)).over(
                Color::from_channels(255, 255, 255, 255),
            );
            &&& bytes.len() == 54 + stride * document.height
            &&& bytes[at] == color.blue_s()
            &&& bytes[at + 1] == color.green_s()
            &&& bytes[at + 2] == color.red_s()
        }),
{
    let stride = bmp_stride(document.width);
    let header = bmp_header(document.width, document.height);
    assert(header.len() == 54);
    lemma_bmp_rows_len(document, document.height as nat);
    assert(3 * x + 2 < stride);
    lemma_bmp_rows_index(document, document.height as nat, k, 3 * x);
    lemma_bmp_rows_index(document, document.height as nat, k, 3 * x + 1);
    lemma_bmp_rows_index(document, document.height as nat, k, 3 * x + 2);
    let row = bmp_row(document, document.height - 1 - k);
    assert((3 * x) / 3 == x && (3 * x + 1) / 3 == x && (3 * x + 2) / 3 == x);
    assert((3 * x) % 3 == 0 && (3 * x + 1) % 3 == 1 && (3 * x + 2) % 3 == 2);
    assert(k * stride + stride <= document.height * stride) by (nonlinear_arith)
        requires k + 1 <= document.height, stride >= 0;
    assert(stride * document.height == document.height * stride) by (nonlinear_arith);
}

} // verus!
