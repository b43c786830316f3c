//! RGBA PNG export with stored (uncompressed) DEFLATE blocks.

use vstd::prelude::*;

use crate::document::{composite, Document, DocumentView};
use crate::graphics::color::Color;

use super::bytes::{be_u32, le_u16, push_bytes, push_u16_le, push_u32_be};
use super::checksum::{adler32, crc32, crc_table, crc_update, is_crc_table, Adler32};

verus! {

/// The largest stored DEFLATE block.
pub const MAX_DEFLATE_BLOCK: usize = 65_535;

/// The eight-byte PNG signature.
pub open spec fn png_signature() -> Seq<u8> {
    seq![0x89, 0x50, 0x4e, 0x47, 0x0d, 0x0a, 0x1a, 0x0a]
}

pub open spec fn ihdr_kind() -> Seq<u8> {
    seq![0x49, 0x48, 0x44, 0x52]
}

pub open spec fn idat_kind() -> Seq<u8> {
    seq![0x49, 0x44, 0x41, 0x54]
}

pub open spec fn iend_kind() -> Seq<u8> {
    seq![0x49, 0x45, 0x4e, 0x44]
}

/// A PNG chunk: length, kind, data, and the CRC-32 of kind and data.
pub open spec fn chunk_bytes(kind: Seq<u8>, data: Seq<u8>) -> Seq<u8> {
    be_u32(data.len() as u32) + kind + data + be_u32(crc_update(crc_update(0xffff_ffff, kind), data) ^ 0xffff_ffff)
}

/// Image header: dimensions, 8 bits per channel, RGBA, no interlacing.
pub open spec fn ihdr_data(width: u32, height: u32) -> Seq<u8> {
    be_u32(width) + be_u32(height) + seq![8u8, 6u8, 0u8, 0u8, 0u8]
}

/// One scanline: filter type 0, then red, green, blue and alpha per pixel.
pub open spec fn png_row(document: DocumentView, y: int) -> Seq<u8> {
    seq![0u8] + Seq::new(
        document.width as nat * 4,
        |i: int|
            {
                let color = composite(document.layers, i / 4, y, Color(0));
                if i % 4 == 0 {
                    color.red_s()
                } else if i % 4 == 1 {
                    color.green_s()
                } else if i % 4 == 2 {
                    color.blue_s()
                } else {
                    color.alpha_s()
                }
            },
    )
}

/// The first `rows` scanlines, top to bottom.
pub open spec fn png_scanlines(document: DocumentView, rows: nat) -> Seq<u8>
    decreases rows,
{
    if rows == 0 {
        Seq::empty()
    } else {
        png_scanlines(document, (rows - 1) as nat) + png_row(document, rows - 1)
    }
}

/// Stored block `index` of the zlib stream over `raw`, with the zlib header
/// before the first block and the checksum after the last.
pub open spec fn idat_data(raw: Seq<u8>, index: nat, adler: u32) -> Seq<u8> {
    let start: int = index as int * 65_535;
    let end = if start + 65_535 < raw.len() {
        start + 65_535
    } else {
        raw.len() as int
    };
    idat_block(raw.subrange(start, end), index == 0, end == raw.len(), adler)
}

/// The IDAT chunks of the first `count` blocks.
pub open spec fn idat_chunks(raw: Seq<u8>, count: nat, adler: u32) -> Seq<u8>
    decreases count,
{
    if count == 0 {
        Seq::empty()
    } else {
        idat_chunks(raw, (count - 1) as nat, adler) + chunk_bytes(idat_kind(), idat_data(raw, (count - 1) as nat, adler))
    }
}

/// A PNG file of a `width` x `height` image whose raw image data, before
/// zlib, is `raw`.
pub open spec fn png_file(width: u32, height: u32, raw: Seq<u8>) -> Seq<u8> {
    png_signature() + chunk_bytes(ihdr_kind(), ihdr_data(width, height)) + idat_chunks(
        raw,
        ((raw.len() + 65_534) / 65_535) as nat,
        adler32(raw),
    ) + chunk_bytes(iend_kind(), Seq::empty())
}

/// The complete PNG file for a document.
pub open spec fn png_bytes(document: DocumentView) -> Seq<u8> {
    png_file(document.width, document.height, png_scanlines(document, document.height as nat))
}

/// Appends one PNG chunk.
pub fn write_chunk(out: &mut Vec<u8>, kind: &[u8; 4], data: &[u8], crc_table: &[u32; 256])
    requires
        data@.len() <= u32::MAX,
        is_crc_table(crc_table@),
    ensures
        final(out)@ == old(out)@ + chunk_bytes(kind@, data@),
{
    push_u32_be(out, data.len() as u32);
    push_bytes(out, kind.as_slice());
    push_bytes(out, data);
    let crc = crc32(crc32(0xffff_ffff, kind.as_slice(), crc_table), data, crc_table) ^ 0xffff_ffff;
    push_u32_be(out, crc);
    assert(final(out)@ =~= old(out)@ + chunk_bytes(kind@, data@));
}

/// Appends one IDAT chunk holding a stored DEFLATE block.
pub fn write_idat_block(
    out: &mut Vec<u8>,
    pixels: &[u8],
    first: bool,
    final_block: bool,
    adler: u32,
    crc_table: &[u32; 256],
)
    requires
        pixels@.len() <= MAX_DEFLATE_BLOCK,
        is_crc_table(crc_table@),
    ensures
        final(out)@ == old(out)@ + chunk_bytes(idat_kind(), idat_block(pixels@, first, final_block, adler)),
{
    let mut data: Vec<u8> = Vec::new();
    if first {
        data.push(0x78);
        data.push(0x01);
    }
    data.push(if final_block { 1u8 } else { 0u8 });
    let length = pixels.len() as u16;
    push_u16_le(&mut data, length);
    push_u16_le(&mut data, 0xffff - length);
    push_bytes(&mut data, pixels);
    if final_block {
        push_u32_be(&mut data, adler);
    }
    assert(data@ =~= idat_block(pixels@, first, final_block, adler));
    let kind: [u8; 4] = [0x49, 0x44, 0x41, 0x54];
    assert(kind@ =~= idat_kind());
    write_chunk(out, &kind, data.as_slice(), crc_table);
}

/// The data of an IDAT chunk holding `block`.
pub open spec fn idat_block(block: Seq<u8>, first: bool, last: bool, adler: u32) -> Seq<u8> {
    (if first {
        seq![0x78u8, 0x01u8]
    } else {
        Seq::empty()
    }) + seq![if last { 1u8 } else { 0u8 }] + le_u16(block.len() as u16) + le_u16((65_535 - block.len()) as u16) + block
        + (if last {
        be_u32(adler)
    } else {
        Seq::empty()
    })
}

/// Appends the scanline of row `y`.
fn push_row(out: &mut Vec<u8>, document: &Document, y: u32, clear: Color)
    requires
        document.layers_cover(),
        y < document.height,
        clear == Color(0),
    ensures
        final(out)@ == old(out)@ + png_row(document@, y as int),
{
    let ghost view = document@;
    let ghost start = out@;
    out.push(0);
    let mut x: u32 = 0;
    while x < document.width
        invariant
            view == document@,
            document.layers_cover(),
            y < document.height,
            x <= document.width,
            clear == Color(0),
            out@ == start + png_row(view, y as int).take(1 + 4 * x),
        decreases document.width - x,
    {
        let color = document.composite_pixel(x, y, clear).unwrap();
        out.push(color.red());
        out.push(color.green());
        out.push(color.blue());
        out.push(color.alpha());
        proof {
            let row = png_row(view, y as int);
            let base = 4 * x as int;
            assert(base / 4 == x && (base + 1) / 4 == x && (base + 2) / 4 == x && (base + 3) / 4 == x);
            assert(base % 4 == 0 && (base + 1) % 4 == 1 && (base + 2) % 4 == 2 && (base + 3) % 4 == 3);
            assert(row[1 + base] == color.red_s());
            assert(row[1 + base + 1] == color.green_s());
            assert(row[1 + base + 2] == color.blue_s());
            assert(row[1 + base + 3] == color.alpha_s());
            assert(out@ =~= start + row.take(1 + 4 * (x + 1)));
        }
        x += 1;
    }
    assert(png_row(view, y as int).take(1 + 4 * document.width) =~= png_row(view, y as int));
}

/// Encodes the document as an 8-bit RGBA PNG whose zlib stream holds stored
/// blocks of at most 65535 bytes.
pub fn write(document: &Document) -> (bytes: Vec<u8>)
    requires
        document.layers_cover(),
        document.height as int * (1 + 4 * document.width as int) <= usize::MAX,
    ensures
        bytes@ == png_bytes(document@),
{
    let ghost view = document@;
    let table = crc_table();
    let mut out: Vec<u8> = Vec::new();
    let signature: [u8; 8] = [0x89, 0x50, 0x4e, 0x47, 0x0d, 0x0a, 0x1a, 0x0a];
    push_bytes(&mut out, signature.as_slice());
    let mut header: Vec<u8> = Vec::new();
    push_u32_be(&mut header, document.width);
    push_u32_be(&mut header, document.height);
    header.push(8);
    header.push(6);
    header.push(0);
    header.push(0);
    header.push(0);
    let ihdr: [u8; 4] = [0x49, 0x48, 0x44, 0x52];
    assert(ihdr@ =~= ihdr_kind());
    assert(header@ =~= ihdr_data(document.width, document.height));
    write_chunk(&mut out, &ihdr, header.as_slice(), &table);
    let ghost prefix = out@;
    assert(prefix =~= png_signature() + chunk_bytes(ihdr_kind(), ihdr_data(document.width, document.height)));

    let clear = Color::rgba(0, 0, 0, 0);
    let mut raw: Vec<u8> = Vec::new();
    let mut y: u32 = 0;
    while y < document.height
        invariant
            view == document@,
            document.layers_cover(),
            y <= document.height,
            clear == Color(0),
            raw@ == png_scanlines(view, y as nat),
            raw@.len() == y as int * (1 + 4 * document.width as int),
            document.height as int * (1 + 4 * document.width as int) <= usize::MAX,
        decreases document.height - y,
    {
        push_row(&mut raw, document, y, clear);
        proof {
            assert((y + 1) as int * (1 + 4 * document.width as int) == y as int * (1 + 4 * document.width as int) + (1 + 4 * document.width as int)) by (nonlinear_arith);
        }
        y += 1;
    }
    let mut adler = Adler32::new();
    adler.update(raw.as_slice());
    let checksum = adler.value();
    let total = raw.len();
    let count = total / MAX_DEFLATE_BLOCK + if total % MAX_DEFLATE_BLOCK != 0 {
        1
    } else {
        0
    };
    proof {
        lemma_block_count(total as int);
    }
    let mut index: usize = 0;
    while index < count
        invariant
            raw@.len() == total,
            index <= count,
            count as int == (total as int + 65_534) / 65_535,
            checksum == adler32(raw@),
            is_crc_table(table@),
            out@ == prefix + idat_chunks(raw@, index as nat, checksum),
        decreases count - index,
    {
        proof {
            lemma_block_start(total as int, index as int);
        }
        let start = index * MAX_DEFLATE_BLOCK;
        let end = if total - start > MAX_DEFLATE_BLOCK {
            start + MAX_DEFLATE_BLOCK
        } else {
            total
        };
        let block = &raw.as_slice()[start..end];
        write_idat_block(&mut out, block, index == 0, end == total, checksum, &table);
        index += 1;
    }
    let iend: [u8; 4] = [0x49, 0x45, 0x4e, 0x44];
    assert(iend@ =~= iend_kind());
    let empty: [u8; 0] = [];
    assert(empty@ =~= Seq::<u8>::empty());
    write_chunk(&mut out, &iend, empty.as_slice(), &table);
    out
}

proof fn lemma_block_count(total: int)
    requires
        total >= 0,
    ensures
        total / 65_535 + (if total % 65_535 != 0 { 1int } else { 0int }) == (total + 65_534) / 65_535,
{
    vstd::arithmetic::div_mod::lemma_fundamental_div_mod(total, 65_535);
    let q = total / 65_535;
    let r = total % 65_535;
    if r == 0 {
        vstd::arithmetic::div_mod::lemma_fundamental_div_mod_converse(total + 65_534, 65_535, q, 65_534);
    } else {
        vstd::arithmetic::div_mod::lemma_fundamental_div_mod_converse(total + 65_534, 65_535, q + 1, r - 1);
    }
}

proof fn lemma_block_start(total: int, index: int)
    requires
        total >= 0,
        0 <= index < (total + 65_534) / 65_535,
    ensures
        index * 65_535 < total,
{
    vstd::arithmetic::div_mod::lemma_fundamental_div_mod(total + 65_534, 65_535);
    let count = (total + 65_534) / 65_535;
    assert(index * 65_535 <= (count - 1) * 65_535) by (nonlinear_arith)
        requires index <= count - 1;
}

/// The filter byte and the four channel bytes of pixel `x` on scanline `k`
/// of raw image data whose scanlines are `line` bytes long.
pub open spec fn raw_pixel(raw: Seq<u8>, line: int, k: int, x: int) -> (u8, u8, u8, u8, u8) {
    let start = k * line;
    (raw[start], raw[start + 1 + 4 * x], raw[start + 2 + 4 * x], raw[start + 3 + 4 * x], raw[start + 4 + 4 * x])
}

/// Raw image data holds the document's rows top to bottom: each scanline
/// is filter type 0 followed by red, green, blue and alpha of the
/// composition of each pixel of that row.
pub open spec fn scanlines_top_down(document: DocumentView, raw: Seq<u8>) -> bool {
    let line = 1 + 4 * document.width as int;
    &&& raw.len() == document.height as int * line
    &&& forall|k: int, x: int|
        0 <= k < document.height && 0 <= x < document.width ==> {
            let color = composite(document.layers, x, k, Color(0));
            #[trigger] raw_pixel(raw, line, k, x) == (0u8, color.red_s(), color.green_s(), color.blue_s(), color.alpha_s())
        }
}

proof fn lemma_png_scanlines_len(document: DocumentView, rows: nat)
    ensures
        png_scanlines(document, rows).len() == rows * (1 + 4 * document.width as int),
    decreases rows,
{
    let line = 1 + 4 * document.width as int;
    if rows > 0 {
        lemma_png_scanlines_len(document, (rows - 1) as nat);
        assert(png_row(document, rows - 1).len() == line);
        assert(png_scanlines(document, rows) == png_scanlines(document, (rows - 1) as nat) + png_row(document, rows - 1));
        assert((rows - 1) * line + line == rows * line) by (nonlinear_arith);
    } else {
        assert(0 * line == 0);
    }
}

/// Scanline `k` of the first `rows` scanlines is that of document row `k`.
proof fn lemma_png_scanlines_index(document: DocumentView, rows: nat, k: int, i: int)
    requires
        0 <= k < rows,
        0 <= i < 1 + 4 * document.width as int,
    ensures
        png_scanlines(document, rows)[k * (1 + 4 * document.width as int) + i] == png_row(document, k)[i],
    decreases rows,
{
    let line = 1 + 4 * document.width as int;
    lemma_png_scanlines_len(document, (rows - 1) as nat);
    assert(png_scanlines(document, rows) == png_scanlines(document, (rows - 1) as nat) + png_row(document, rows - 1));
    assert(k * line + i >= 0) by (nonlinear_arith)
        requires k >= 0, i >= 0, line >= 0;
    if k < rows - 1 {
        lemma_png_scanlines_index(document, (rows - 1) as nat, k, i);
        assert(k * line + i < (rows - 1) * line) by (nonlinear_arith)
            requires k < rows - 1, 0 <= i < line, k >= 0;
    } else {
        assert(k * line == (rows - 1) * line);
    }
}

/// The bytes of pixel `(x, k)` in the document's scanlines.
proof fn lemma_png_pixel_bytes(document: DocumentView, k: int, x: int)
    requires
        0 <= k < document.height,
        0 <= x < document.width,
    ensures
        ({
            let raw = png_scanlines(document, document.height as nat);
            let line = 1 + 4 * document.width as int;
            let color = composite(document.layers, x, k, Color(0));
            &&& raw[k * line] == 0
            &&& raw[k * line + 1 + 4 * x] == color.red_s()
            &&& raw[k * line + 2 + 4 * x] == color.green_s()
            &&& raw[k * line + 3 + 4 * x] == color.blue_s()
            &&& raw[k * line + 4 + 4 * x] == color.alpha_s()
        }),
{
    let row = png_row(document, k);
    let line = 1 + 4 * document.width as int;
    lemma_png_scanlines_index(document, document.height as nat, k, 0);
    lemma_png_scanlines_index(document, document.height as nat, k, 1 + 4 * x);
    lemma_png_scanlines_index(document, document.height as nat, k, 2 + 4 * x);
    lemma_png_scanlines_index(document, document.height as nat, k, 3 + 4 * x);
    lemma_png_scanlines_index(document, document.height as nat, k, 4 + 4 * x);
    let b = 4 * x;
    assert(b / 4 == x && (b + 1) / 4 == x && (b + 2) / 4 == x && (b + 3) / 4 == x);
    assert(b % 4 == 0 && (b + 1) % 4 == 1 && (b + 2) % 4 == 2 && (b + 3) % 4 == 3);
    assert(row[1 + b] == composite(document.layers, x, k, Color(0)).red_s());
    assert(row[2 + b] == composite(document.layers, x, k, Color(0)).green_s());
    assert(row[3 + b] == composite(document.layers, x, k, Color(0)).blue_s());
    assert(row[4 + b] == composite(document.layers, x, k, Color(0)).alpha_s());
}

/// PNG stores its rows top-down: a document's PNG file frames raw image
/// data in which scanline `k` is document row `k`.
pub proof fn lemma_png_rows_are_top_down(document: DocumentView)
    ensures
        exists|raw: Seq<u8>| #[trigger] png_file(document.width, document.height, raw) == png_bytes(document)
            && scanlines_top_down(document, raw),
{
    let raw = png_scanlines(document, document.height as nat);
    let line = 1 + 4 * document.width as int;
    lemma_png_scanlines_len(document, document.height as nat);
    assert(raw.len() == document.height as int * line) by (nonlinear_arith)
        requires raw.len() == document.height * line;
    assert forall|k: int, x: int| 0 <= k < document.height && 0 <= x < document.width implies {
        let color = composite(document.layers, x, k, Color(0));
        #[trigger] raw_pixel(raw, line, k, x) == (0u8, color.red_s(), color.green_s(), color.blue_s(), color.alpha_s())
    } by {
        lemma_png_pixel_bytes(document, k, x);
    }
    assert(scanlines_top_down(document, raw));
    assert(png_file(document.width, document.height, raw) == png_bytes(document));
}

} // verus!
