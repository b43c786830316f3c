//! ODRW v1 stores `ODRW`, version, dimensions, layer count and active layer,
//! followed by each UTF-8 name, visibility, opacity and `0xAARRGGBB` pixels.
//! Every integer is little-endian; layer pixels are stored from top-left by rows.

pub mod bmp;
pub mod bytes;
pub mod checksum;
pub mod format;
pub mod png;

use vstd::prelude::*;
use vstd::utf8::encode_utf8;

use crate::document::{Document, DocumentView, Layer, LayerView};

use self::bytes::{le_u32, lemma_le_u32_round_trip, lemma_u32_at_window, push_bytes, push_u32_le, read_u32_le, u32_at};
use crate::document::{name_number, next_number, MAX_LAYERS, MAX_PIXELS};
use crate::document::pixels::{lemma_u32_product, PixelBuffer};
use crate::support::{decimal_chars, decimal_string, string_from_utf8, try_reserve_exact};
use vstd::string::StringExecFns;
pub use self::format::ImageFormat;
use vstd::utf8::{decode_utf8, valid_utf8};

verus! {

/// The longest layer name a file may hold, in UTF-8 bytes.
pub const MAX_LAYER_NAME_BYTES: usize = 4096;

/// The only format version this library reads and writes.
pub const VERSION: u32 = 1;

#[verifier::external_type_specification]
#[verifier::external_body]
pub struct ExIoError(std::io::Error);

/// Why a document could not be stored or read back.
#[derive(Debug)]
pub enum OdrawError {
    Io(std::io::Error),
    InvalidFile,
    UnsupportedVersion(u32),
    UnexpectedEndOfFile,
    InvalidDimensions,
    AllocationFailed,
}

/// Calls `std::io::Error`'s `Display` implementation. What it writes
/// depends on the operating system's description of the error, so nothing
/// is stated of the text.
#[verifier::external_body]
fn io_error_text(error: &std::io::Error) -> (text: String) {
    format!("{error}")
}

pub open spec fn error_text_prefix(error: OdrawError) -> Seq<char> {
    match error {
        OdrawError::Io(_) => "file error: "@,
        OdrawError::InvalidFile => "invalid OpenDraw file"@,
        OdrawError::UnsupportedVersion(version) => "unsupported OpenDraw version "@ + decimal_chars(version as nat),
        OdrawError::UnexpectedEndOfFile => "unexpected end of OpenDraw file"@,
        OdrawError::InvalidDimensions => "invalid document dimensions"@,
        OdrawError::AllocationFailed => "could not allocate document pixels"@,
    }
}

impl OdrawError {
    /// The description of the error, as the program reports it; a file error
    /// goes on with the system's description of it.
    pub fn message(&self) -> (message: String)
        ensures
            self is Io ==> message@.len() >= 12 && message@.subrange(0, 12) == error_text_prefix(*self),
            !(self is Io) ==> message@ == error_text_prefix(*self),
    {
        match self {
            OdrawError::Io(error) => {
                let mut text = <String as StringExecFns>::from_str("file error: ");
                let detail = io_error_text(error);
                text.append(detail.as_str());
                proof {
                    reveal_strlit("file error: ");
                    assert(text@.subrange(0, 12) =~= "file error: "@);
                }
                text
            },
            OdrawError::InvalidFile => <String as StringExecFns>::from_str("invalid OpenDraw file"),
            OdrawError::UnsupportedVersion(version) => {
                let mut text = <String as StringExecFns>::from_str("unsupported OpenDraw version ");
                let number = decimal_string(*version);
                text.append(number.as_str());
                text
            },
            OdrawError::UnexpectedEndOfFile => <String as StringExecFns>::from_str("unexpected end of OpenDraw file"),
            OdrawError::InvalidDimensions => <String as StringExecFns>::from_str("invalid document dimensions"),
            OdrawError::AllocationFailed => <String as StringExecFns>::from_str("could not allocate document pixels"),
        }
    }
}

/// The file signature, `ODRW`.
pub open spec fn magic() -> Seq<u8> {
    seq![0x4f, 0x44, 0x52, 0x57]
}

/// Pixels as consecutive little-endian words.
pub open spec fn pixel_bytes(pixels: Seq<u32>) -> Seq<u8>
    decreases pixels.len(),
{
    if pixels.len() == 0 {
        Seq::empty()
    } else {
        pixel_bytes(pixels.drop_last()) + le_u32(pixels.last())
    }
}

/// One layer record: name length, UTF-8 name, visibility, opacity, pixels.
pub open spec fn layer_bytes(layer: LayerView) -> Seq<u8> {
    let name = encode_utf8(layer.name);
    le_u32(name.len() as u32) + name + seq![if layer.visible { 1u8 } else { 0u8 }, layer.opacity]
        + pixel_bytes(layer.pixels)
}

pub open spec fn layers_bytes(layers: Seq<LayerView>) -> Seq<u8>
    decreases layers.len(),
{
    if layers.len() == 0 {
        Seq::empty()
    } else {
        layers_bytes(layers.drop_last()) + layer_bytes(layers.last())
    }
}

/// The complete ODRW encoding of a document.
pub open spec fn document_bytes(document: DocumentView) -> Seq<u8> {
    magic() + le_u32(VERSION) + le_u32(document.width) + le_u32(document.height) + le_u32(
        document.layers.len() as u32,
    ) + le_u32(document.active_layer as u32) + layers_bytes(document.layers)
}

/// Why the encoder refuses a document: counts or name lengths that do not fit
/// the format's 32-bit fields.
pub open spec fn encode_error(document: DocumentView) -> Option<OdrawError> {
    if document.layers.len() > u32::MAX || document.active_layer > u32::MAX {
        Some(OdrawError::InvalidDimensions)
    } else if exists|i: int|
        0 <= i < document.layers.len() && #[trigger] encode_utf8(document.layers[i].name).len() > u32::MAX {
        Some(OdrawError::InvalidFile)
    } else {
        None
    }
}

/// Encodes `document` in the ODRW format.
pub fn write_document(document: &Document) -> (result: Result<Vec<u8>, OdrawError>)
    ensures
        match encode_error(document@) {
            Some(OdrawError::InvalidDimensions) => result matches Err(OdrawError::InvalidDimensions),
            Some(_) => result matches Err(OdrawError::InvalidFile),
            None => result matches Ok(bytes) && bytes@ == document_bytes(document@),
        },
{
    let ghost view = document@;
    if document.layers.len() > 0xffff_ffff || document.active_layer > 0xffff_ffff {
        return Err(OdrawError::InvalidDimensions);
    }
    let mut out: Vec<u8> = Vec::new();
    out.push(0x4f);
    out.push(0x44);
    out.push(0x52);
    out.push(0x57);
    push_u32_le(&mut out, VERSION);
    push_u32_le(&mut out, document.width);
    push_u32_le(&mut out, document.height);
    push_u32_le(&mut out, document.layers.len() as u32);
    push_u32_le(&mut out, document.active_layer as u32);
    let ghost header = out@;
    assert(header =~= magic() + le_u32(VERSION) + le_u32(view.width) + le_u32(view.height) + le_u32(
        view.layers.len() as u32,
    ) + le_u32(view.active_layer as u32));
    let mut i: usize = 0;
    while i < document.layers.len()
        invariant
            view == document@,
            view.layers.len() <= u32::MAX,
            view.active_layer <= u32::MAX,
            i <= view.layers.len(),
            out@ == header + layers_bytes(view.layers.take(i as int)),
            forall|k: int| 0 <= k < i ==> encode_utf8(#[trigger] view.layers[k].name).len() <= u32::MAX,
        decreases view.layers.len() - i,
    {
        let layer = &document.layers[i];
        proof {
            assert(view.layers[i as int] == layer@);
            assert(view.layers.take(i + 1).drop_last() =~= view.layers.take(i as int));
        }
        let name = layer.name.as_str().as_bytes();
        if name.len() > 0xffff_ffff {
            proof {
                assert(encode_utf8(view.layers[i as int].name).len() > u32::MAX);
            }
            return Err(OdrawError::InvalidFile);
        }
        let ghost before = out@;
        push_u32_le(&mut out, name.len() as u32);
        push_bytes(&mut out, name);
        out.push(if layer.visible { 1u8 } else { 0u8 });
        out.push(layer.opacity);
        let ghost start = out@;
        let mut p: usize = 0;
        while p < layer.pixels.pixels.len()
            invariant
                p <= layer.pixels.pixels@.len(),
                out@ == start + pixel_bytes(layer.pixels.pixels@.take(p as int)),
            decreases layer.pixels.pixels@.len() - p,
        {
            push_u32_le(&mut out, layer.pixels.pixels[p]);
            assert(layer.pixels.pixels@.take(p + 1).drop_last() =~= layer.pixels.pixels@.take(p as int));
            p += 1;
        }
        proof {
            assert(layer.pixels.pixels@.take(p as int) =~= layer.pixels.pixels@);
            assert(out@ =~= before + layer_bytes(layer@));
        }
        i += 1;
    }
    proof {
        assert(view.layers.take(i as int) =~= view.layers);
        assert(!(exists|k: int| 0 <= k < view.layers.len() && #[trigger] encode_utf8(view.layers[k].name).len() > u32::MAX));
    }
    Ok(out)
}

/// A document the format can hold: the document invariant, and layer names
/// of at most `MAX_LAYER_NAME_BYTES` UTF-8 bytes.
pub open spec fn storable(document: DocumentView) -> bool {
    &&& document.wf()
    &&& forall|i: int|
        0 <= i < document.layers.len() ==> #[trigger] encode_utf8(document.layers[i].name).len()
            <= MAX_LAYER_NAME_BYTES
}

/// Checks that `document` can be saved and loaded again.
pub fn validate_document(document: &Document) -> (result: Result<(), OdrawError>)
    ensures
        storable(document@) <==> result is Ok,
        result is Err ==> result matches Err(OdrawError::InvalidDimensions),
{
    let ghost view = document@;
    proof {
        lemma_u32_product(document.width, document.height);
    }
    let pixels_per_layer = document.width as u64 * document.height as u64;
    if pixels_per_layer > usize::MAX as u64 {
        proof {
            if storable(view) {
                assert(view.width as int * view.height as int * view.layers.len() >= view.width as int * view.height as int) by (nonlinear_arith)
                    requires view.layers.len() >= 1, view.width as int * view.height as int >= 0;
            }
        }
        return Err(OdrawError::InvalidDimensions);
    }
    let expected = pixels_per_layer as usize;
    let count = document.layers.len();
    if document.width == 0 || document.height == 0 || count == 0 || count > MAX_LAYERS
        || document.active_layer >= count {
        return Err(OdrawError::InvalidDimensions);
    }
    match pixels_per_layer.checked_mul(count as u64) {
        None => {
            return Err(OdrawError::InvalidDimensions);
        },
        Some(total) => {
            if total > MAX_PIXELS {
                return Err(OdrawError::InvalidDimensions);
            }
        },
    }
    let mut i: usize = 0;
    #[verifier::loop_isolation(false)]
    while i < count
        invariant
            view == document@,
            count == view.layers.len(),
            i <= count,
            expected as int == view.width as int * view.height as int,
            forall|k: int| 0 <= k < i ==> #[trigger] crate::document::layer_fits(view.layers[k], view.width, view.height),
            forall|k: int| 0 <= k < i ==> #[trigger] encode_utf8(view.layers[k].name).len() <= MAX_LAYER_NAME_BYTES,
        decreases count - i,
    {
        let layer = &document.layers[i];
        proof {
            assert(view.layers[i as int] == layer@);
        }
        if layer.name.as_str().as_bytes().len() > MAX_LAYER_NAME_BYTES || layer.pixels.width != document.width
            || layer.pixels.height != document.height || layer.pixels.pixels.len() != expected {
            proof {
                assert(!crate::document::layer_fits(view.layers[i as int], view.width, view.height)
                    || encode_utf8(view.layers[i as int].name).len() > MAX_LAYER_NAME_BYTES);
            }
            return Err(OdrawError::InvalidDimensions);
        }
        proof {
            assert(crate::document::layer_fits(view.layers[i as int], view.width, view.height));
            assert(encode_utf8(view.layers[i as int].name).len() <= MAX_LAYER_NAME_BYTES);
        }
        i += 1;
    }
    proof {
        assert(crate::document::layers_fit(view.layers, view.width, view.height));
        assert(view.width > 0 && view.height > 0);
        assert(1 <= view.layers.len() <= MAX_LAYERS);
        assert(view.active_layer < view.layers.len());
        assert(view.width as int * view.height as int * view.layers.len() <= MAX_PIXELS);
        assert(view.wf());

    }
    Ok(())
}

/// Reading one layer record at `at`: its layer and where the next begins.
pub open spec fn decode_layer(bytes: Seq<u8>, at: int, width: u32, height: u32) -> Result<(LayerView, int), OdrawError> {
    if at + 4 > bytes.len() {
        Err(OdrawError::UnexpectedEndOfFile)
    } else {
        let name_length = u32_at(bytes, at) as int;
        let flags = at + 4 + name_length;
        let start = flags + 2;
        let count = width as int * height as int;
        if name_length > MAX_LAYER_NAME_BYTES {
            Err(OdrawError::InvalidFile)
        } else if flags > bytes.len() {
            Err(OdrawError::UnexpectedEndOfFile)
        } else if !valid_utf8(bytes.subrange(at + 4, flags)) {
            Err(OdrawError::InvalidFile)
        } else if start > bytes.len() {
            Err(OdrawError::UnexpectedEndOfFile)
        } else if bytes[flags] > 1 {
            Err(OdrawError::InvalidFile)
        } else if start + 4 * count > bytes.len() {
            Err(OdrawError::UnexpectedEndOfFile)
        } else {
            Ok((
                LayerView {
                    name: decode_utf8(bytes.subrange(at + 4, flags)),
                    visible: bytes[flags] == 1,
                    opacity: bytes[flags + 1],
                    width,
                    height,
                    pixels: Seq::new(count as nat, |i: int| u32_at(bytes, start + 4 * i)),
                },
                start + 4 * count,
            ))
        }
    }
}

/// Reading `count` consecutive layer records from `at`.
pub open spec fn decode_layers(bytes: Seq<u8>, at: int, count: nat, width: u32, height: u32) -> Result<(Seq<LayerView>, int), OdrawError>
    decreases count,
{
    if count == 0 {
        Ok((Seq::empty(), at))
    } else {
        match decode_layers(bytes, at, (count - 1) as nat, width, height) {
            Err(error) => Err(error),
            Ok((layers, next)) => match decode_layer(bytes, next, width, height) {
                Err(error) => Err(error),
                Ok((layer, end)) => Ok((layers.push(layer), end)),
            },
        }
    }
}

/// The header fields accepted by the reader.
pub open spec fn valid_header(width: u32, height: u32, count: u32, active: u32) -> bool {
    &&& width > 0
    &&& height > 0
    &&& count > 0
    &&& count <= MAX_LAYERS
    &&& active < count
    &&& width as int * height as int * count as int <= MAX_PIXELS
}

/// The file passes every check of its header: its length, magic, version
/// and dimensions. The reader asks for memory only past this point.
pub open spec fn header_accepted(bytes: Seq<u8>) -> bool {
    &&& bytes.len() >= 24
    &&& bytes.subrange(0, 4) == magic()
    &&& u32_at(bytes, 4) == VERSION
    &&& valid_header(u32_at(bytes, 8), u32_at(bytes, 12), u32_at(bytes, 16), u32_at(bytes, 20))
}

/// What reading an ODRW file gives: the document, or the first problem met
/// while reading it front to back.
pub open spec fn decode_document(bytes: Seq<u8>) -> Result<DocumentView, OdrawError> {
    if bytes.len() < 4 {
        Err(OdrawError::UnexpectedEndOfFile)
    } else if bytes.subrange(0, 4) != magic() {
        Err(OdrawError::InvalidFile)
    } else if bytes.len() < 8 {
        Err(OdrawError::UnexpectedEndOfFile)
    } else if u32_at(bytes, 4) != VERSION {
        Err(OdrawError::UnsupportedVersion(u32_at(bytes, 4)))
    } else if bytes.len() < 24 {
        Err(OdrawError::UnexpectedEndOfFile)
    } else {
        let width = u32_at(bytes, 8);
        let height = u32_at(bytes, 12);
        let count = u32_at(bytes, 16);
        let active = u32_at(bytes, 20);
        if !valid_header(width, height, count, active) {
            Err(OdrawError::InvalidDimensions)
        } else {
            match decode_layers(bytes, 24, count as nat, width, height) {
                Err(error) => Err(error),
                Ok((layers, end)) => if end != bytes.len() {
                    Err(OdrawError::InvalidFile)
                } else {
                    Ok(
                        DocumentView {
                            width,
                            height,
                            layers,
                            active_layer: active as usize,
                            next_layer_number: next_number(layers),
                        },
                    )
                },
            }
        }
    }
}

/// Reads one layer record at `at`; the pixels of a `width` x `height` layer
/// follow its name and flags.
fn read_layer(bytes: &[u8], at: usize, width: u32, height: u32, pixel_count: usize) -> (result: Result<(Layer, usize), OdrawError>)
    requires
        at <= bytes@.len(),
        pixel_count as int == width as int * height as int,
        pixel_count <= MAX_PIXELS,
    ensures
        match result {
            Ok((layer, next)) => decode_layer(bytes@, at as int, width, height) == Ok::<(LayerView, int), OdrawError>((layer@, next as int)),
            Err(OdrawError::AllocationFailed) => true,
            Err(error) => decode_layer(bytes@, at as int, width, height) == Err::<(LayerView, int), OdrawError>(error),
        },
{
    let length = bytes.len();
    if length - at < 4 {
        return Err(OdrawError::UnexpectedEndOfFile);
    }
    let name_length = read_u32_le(bytes, at);
    if name_length as usize > MAX_LAYER_NAME_BYTES {
        return Err(OdrawError::InvalidFile);
    }
    let name_start = at + 4;
    if length - name_start < name_length as usize {
        return Err(OdrawError::UnexpectedEndOfFile);
    }
    let flags = name_start + name_length as usize;
    let mut name_bytes: Vec<u8> = Vec::new();
    let mut i = name_start;
    while i < flags
        invariant
            name_start <= i <= flags,
            flags <= bytes@.len(),
            name_bytes@ == bytes@.subrange(name_start as int, i as int),
        decreases flags - i,
    {
        name_bytes.push(bytes[i]);
        assert(bytes@.subrange(name_start as int, i + 1) =~= bytes@.subrange(name_start as int, i as int).push(bytes@[i as int]));
        i += 1;
    }
    let name = match string_from_utf8(name_bytes) {
        Some(name) => name,
        None => {
            return Err(OdrawError::InvalidFile);
        },
    };
    if length - flags < 2 {
        return Err(OdrawError::UnexpectedEndOfFile);
    }
    let visible = bytes[flags];
    let opacity = bytes[flags + 1];
    if visible > 1 {
        return Err(OdrawError::InvalidFile);
    }
    let start = flags + 2;
    let mut pixels: Vec<u32> = Vec::new();
    if !try_reserve_exact(&mut pixels, pixel_count) {
        return Err(OdrawError::AllocationFailed);
    }
    if length - start < 4 * pixel_count {
        return Err(OdrawError::UnexpectedEndOfFile);
    }
    let mut p: usize = 0;
    while p < pixel_count
        invariant
            p <= pixel_count,
            length == bytes@.len(),
            start + 4 * pixel_count <= bytes@.len(),
            pixels@ == Seq::new(p as nat, |k: int| u32_at(bytes@, start + 4 * k)),
        decreases pixel_count - p,
    {
        pixels.push(read_u32_le(bytes, start + 4 * p));
        assert(pixels@ =~= Seq::new((p + 1) as nat, |k: int| u32_at(bytes@, start + 4 * k)));
        p += 1;
    }
    let layer = Layer {
        name,
        visible: visible == 1,
        opacity,
        pixels: PixelBuffer { width, height, pixels },
    };
    let next = start + 4 * pixel_count;
    proof {
        assert(layer@ =~= decode_layer(bytes@, at as int, width, height)->Ok_0.0);
    }
    Ok((layer, next))
}

/// Reads a complete ODRW file.
pub fn read_document(bytes: &[u8]) -> (result: Result<Document, OdrawError>)
    ensures
        match result {
            Ok(document) => decode_document(bytes@) == Ok::<DocumentView, OdrawError>(document@) && document@.wf(),
            Err(OdrawError::AllocationFailed) => header_accepted(bytes@),
            Err(error) => decode_document(bytes@) == Err::<DocumentView, OdrawError>(error),
        },
        result matches Ok(document) ==> forall|i: int|
            0 <= i < document@.layers.len() ==> (#[trigger] name_number(document@.layers[i].name) matches Some(n) ==> (n
                < u32::MAX ==> n < document.next_layer_number)),
{
    let length = bytes.len();
    if length < 4 {
        return Err(OdrawError::UnexpectedEndOfFile);
    }
    if bytes[0] != 0x4f || bytes[1] != 0x44 || bytes[2] != 0x52 || bytes[3] != 0x57 {
        proof {
            assert(bytes@.subrange(0, 4) != magic()) by {
                if bytes@.subrange(0, 4) == magic() {
                    assert(bytes@.subrange(0, 4)[0] == bytes@[0]);
                    assert(bytes@.subrange(0, 4)[1] == bytes@[1]);
                    assert(bytes@.subrange(0, 4)[2] == bytes@[2]);
                    assert(bytes@.subrange(0, 4)[3] == bytes@[3]);
                }
            }
        }
        return Err(OdrawError::InvalidFile);
    }
    proof {
        assert(bytes@.subrange(0, 4) =~= magic());
    }
    if length < 8 {
        return Err(OdrawError::UnexpectedEndOfFile);
    }
    let version = read_u32_le(bytes, 4);
    if version != VERSION {
        return Err(OdrawError::UnsupportedVersion(version));
    }
    if length < 24 {
        return Err(OdrawError::UnexpectedEndOfFile);
    }
    let width = read_u32_le(bytes, 8);
    let height = read_u32_le(bytes, 12);
    let count = read_u32_le(bytes, 16);
    let active = read_u32_le(bytes, 20);
    proof {
        lemma_u32_product(width, height);
    }
    let pixels_per_layer = width as u64 * height as u64;
    if width == 0 || height == 0 || count == 0 || count > 256 || active >= count {
        return Err(OdrawError::InvalidDimensions);
    }
    match pixels_per_layer.checked_mul(count as u64) {
        None => {
            return Err(OdrawError::InvalidDimensions);
        },
        Some(total) => {
            if total > MAX_PIXELS {
                return Err(OdrawError::InvalidDimensions);
            }
        },
    }
    proof {
        assert(pixels_per_layer <= MAX_PIXELS) by (nonlinear_arith)
            requires pixels_per_layer as int * count as int <= MAX_PIXELS, count >= 1, pixels_per_layer >= 0;
    }
    let pixel_count = pixels_per_layer as usize;
    let mut layers: Vec<Layer> = Vec::new();
    if !try_reserve_exact(&mut layers, count as usize) {
        return Err(OdrawError::AllocationFailed);
    }
    let mut at: usize = 24;
    let mut n: u32 = 0;
    assert(layers@.map_values(|layer: Layer| layer@) =~= Seq::<LayerView>::empty());
    while n < count
        invariant
            n <= count,
            at <= bytes@.len(),
            pixel_count as int == width as int * height as int,
            pixel_count <= MAX_PIXELS,
            valid_header(width, height, count, active),
            bytes@.len() >= 24,
            width == u32_at(bytes@, 8),
            height == u32_at(bytes@, 12),
            count == u32_at(bytes@, 16),
            active == u32_at(bytes@, 20),
            bytes@.subrange(0, 4) == magic(),
            u32_at(bytes@, 4) == VERSION,
            layers@.len() == n,
            decode_layers(bytes@, 24, n as nat, width, height) == Ok::<(Seq<LayerView>, int), OdrawError>((
                layers@.map_values(|layer: Layer| layer@),
                at as int,
            )),
        decreases count - n,
    {
        match read_layer(bytes, at, width, height, pixel_count) {
            Ok((layer, next)) => {
                proof {
                    assert(decode_layers(bytes@, 24, (n + 1) as nat, width, height) == Ok::<(Seq<LayerView>, int), OdrawError>((
                        layers@.map_values(|layer: Layer| layer@).push(layer@),
                        next as int,
                    )));
                }
                let ghost before = layers@;
                layers.push(layer);
                assert(layers@.map_values(|layer: Layer| layer@) =~= before.map_values(|layer: Layer| layer@).push(layer@));
                at = next;
            },
            Err(error) => {
                proof {
                    if !(error is AllocationFailed) {
                        assert(decode_layers(bytes@, 24, (n + 1) as nat, width, height) == Err::<(Seq<LayerView>, int), OdrawError>(error));
                        lemma_decode_layers_error_persists(bytes@, (n + 1) as nat, count as nat, width, height);
                    }
                }
                return Err(error);
            },
        }
        n += 1;
    }
    if at != length {
        return Err(OdrawError::InvalidFile);
    }
    let ghost views = layers@.map_values(|layer: Layer| layer@);
    proof {
        lemma_decoded_layers_fit(bytes@, count as nat, width, height);
        assert(crate::document::from_layers_error(width, height, views, active as usize) is None) by {
            assert((DocumentView { width, height, layers: views, active_layer: active as usize, next_layer_number: 0 }).wf());
        }
    }
    match Document::from_layers(width, height, layers, active as usize) {
        Ok(document) => Ok(document),
        Err(_) => Err(OdrawError::InvalidDimensions),
    }
}

/// Once reading the first `n` records fails, reading more fails the same way.
proof fn lemma_decode_layers_error_persists(bytes: Seq<u8>, n: nat, count: nat, width: u32, height: u32)
    requires
        n <= count,
        decode_layers(bytes, 24, n, width, height) is Err,
    ensures
        decode_layers(bytes, 24, count, width, height) == decode_layers(bytes, 24, n, width, height),
    decreases count - n,
{
    if n < count {
        lemma_decode_layers_error_persists(bytes, n, (count - 1) as nat, width, height);
    }
}

/// Every decoded layer has the header's dimensions.
proof fn lemma_decoded_layers_fit(bytes: Seq<u8>, count: nat, width: u32, height: u32)
    ensures
        decode_layers(bytes, 24, count, width, height) matches Ok((layers, end)) ==> layers.len() == count
            && crate::document::layers_fit(layers, width, height),
    decreases count,
{
    if count > 0 {
        lemma_decoded_layers_fit(bytes, (count - 1) as nat, width, height);
        if let Ok((layers, end)) = decode_layers(bytes, 24, count, width, height) {
            let (below, next) = decode_layers(bytes, 24, (count - 1) as nat, width, height)->Ok_0;
            let (layer, last_end) = decode_layer(bytes, next, width, height)->Ok_0;
            assert(layers == below.push(layer));
            assert forall|i: int| 0 <= i < layers.len() implies #[trigger] crate::document::layer_fits(layers[i], width, height) by {
                if i < below.len() {
                    assert(layers[i] == below[i]);
                }
            }
        }
    }
}

proof fn lemma_pixel_bytes_read(pixels: Seq<u32>, prefix: Seq<u8>, suffix: Seq<u8>)
    ensures
        pixel_bytes(pixels).len() == 4 * pixels.len(),
        forall|k: int|
            0 <= k < pixels.len() ==> #[trigger] u32_at(prefix + pixel_bytes(pixels) + suffix, prefix.len() + 4 * k)
                == pixels[k],
    decreases pixels.len(),
{
    if pixels.len() > 0 {
        let init = pixels.drop_last();
        let last = pixels.last();
        lemma_pixel_bytes_read(init, prefix, le_u32(last) + suffix);
        lemma_le_u32_round_trip(last, prefix + pixel_bytes(init), suffix);
        assert(prefix + pixel_bytes(pixels) + suffix =~= prefix + pixel_bytes(init) + (le_u32(last) + suffix));
        assert(prefix + pixel_bytes(pixels) + suffix =~= (prefix + pixel_bytes(init)) + le_u32(last) + suffix);
        assert forall|k: int| 0 <= k < pixels.len() implies #[trigger] u32_at(prefix + pixel_bytes(pixels) + suffix, prefix.len() + 4 * k)
            == pixels[k] by {
            if k < init.len() {
                assert(u32_at(prefix + pixel_bytes(init) + (le_u32(last) + suffix), prefix.len() + 4 * k) == init[k]);
            }
        }
    }
}

proof fn lemma_layer_read(layer: LayerView, width: u32, height: u32, prefix: Seq<u8>, suffix: Seq<u8>)
    requires
        crate::document::layer_fits(layer, width, height),
        encode_utf8(layer.name).len() <= MAX_LAYER_NAME_BYTES,
    ensures
        decode_layer(prefix + layer_bytes(layer) + suffix, prefix.len() as int, width, height) == Ok::<(LayerView, int), OdrawError>((
            layer,
            (prefix.len() + layer_bytes(layer).len()) as int,
        )),
{
    let name = encode_utf8(layer.name);
    let flag_bytes = seq![if layer.visible { 1u8 } else { 0u8 }, layer.opacity];
    let bytes = prefix + layer_bytes(layer) + suffix;
    let p = prefix.len() as int;
    let rest = name + flag_bytes + pixel_bytes(layer.pixels) + suffix;
    assert(bytes =~= prefix + le_u32(name.len() as u32) + rest);
    lemma_le_u32_round_trip(name.len() as u32, prefix, rest);
    let flags = p + 4 + name.len();
    assert(bytes.subrange(p + 4, flags) =~= name);
    vstd::utf8::encode_utf8_valid_utf8(layer.name);
    vstd::utf8::encode_utf8_decode_utf8(layer.name);
    assert(bytes[flags] == flag_bytes[0]);
    assert(bytes[flags + 1] == flag_bytes[1]);
    let head = prefix + le_u32(name.len() as u32) + name + flag_bytes;
    assert(bytes =~= head + pixel_bytes(layer.pixels) + suffix);
    lemma_pixel_bytes_read(layer.pixels, head, suffix);
    let start = flags + 2;
    assert(head.len() == start);
    let decoded = Seq::new((width as int * height as int) as nat, |i: int| u32_at(bytes, start + 4 * i));
    assert(decoded =~= layer.pixels) by {
        assert forall|i: int| 0 <= i < layer.pixels.len() implies decoded[i] == layer.pixels[i] by {
            assert(u32_at(head + pixel_bytes(layer.pixels) + suffix, head.len() + 4 * i) == layer.pixels[i]);
        }
    }
    let expected = decode_layer(bytes, p, width, height);
    assert(expected is Ok);
    assert(expected->Ok_0.0 =~= layer);
}

proof fn lemma_layers_read(layers: Seq<LayerView>, width: u32, height: u32, header: Seq<u8>, suffix: Seq<u8>)
    requires
        header.len() == 24,
        crate::document::layers_fit(layers, width, height),
        forall|i: int| 0 <= i < layers.len() ==> #[trigger] encode_utf8(layers[i].name).len() <= MAX_LAYER_NAME_BYTES,
    ensures
        decode_layers(header + layers_bytes(layers) + suffix, 24, layers.len(), width, height) == Ok::<(Seq<LayerView>, int), OdrawError>((
            layers,
            (24 + layers_bytes(layers).len()) as int,
        )),
    decreases layers.len(),
{
    if layers.len() > 0 {
        let init = layers.drop_last();
        let last = layers.last();
        assert(crate::document::layer_fits(layers[layers.len() - 1], width, height));
        assert(encode_utf8(layers[layers.len() - 1].name).len() <= MAX_LAYER_NAME_BYTES);
        assert forall|i: int| 0 <= i < init.len() implies #[trigger] crate::document::layer_fits(init[i], width, height) by {
            assert(init[i] == layers[i]);
        }
        assert forall|i: int| 0 <= i < init.len() implies #[trigger] encode_utf8(init[i].name).len() <= MAX_LAYER_NAME_BYTES by {
            assert(init[i] == layers[i]);
        }
        let bytes = header + layers_bytes(layers) + suffix;
        assert(bytes =~= header + layers_bytes(init) + (layer_bytes(last) + suffix));
        lemma_layers_read(init, width, height, header, layer_bytes(last) + suffix);
        assert(bytes =~= (header + layers_bytes(init)) + layer_bytes(last) + suffix);
        lemma_layer_read(last, width, height, header + layers_bytes(init), suffix);
        assert(init.push(last) =~= layers);
    } else {
        assert(layers =~= Seq::<LayerView>::empty());
        assert(layers_bytes(layers) =~= Seq::<u8>::empty());
    }
}

/// Reading back what the encoder wrote for a storable document gives the
/// same document. Only the counter for default layer names is recomputed,
/// from the names the file holds.
pub proof fn lemma_read_after_write(document: DocumentView)
    requires
        storable(document),
    ensures
        encode_error(document) is None,
        decode_document(document_bytes(document)) == Ok::<DocumentView, OdrawError>(DocumentView {
            next_layer_number: next_number(document.layers),
            ..document
        }),
{
    let count = document.layers.len() as u32;
    let active = document.active_layer as u32;
    let header = magic() + le_u32(VERSION) + le_u32(document.width) + le_u32(document.height) + le_u32(count) + le_u32(active);
    let body = layers_bytes(document.layers);
    let bytes = document_bytes(document);
    assert(bytes == header + body);
    assert(header.len() == 24);
    assert(bytes.subrange(0, 4) =~= magic());
    assert(bytes.subrange(4, 8) =~= le_u32(VERSION));
    assert(bytes.subrange(8, 12) =~= le_u32(document.width));
    assert(bytes.subrange(12, 16) =~= le_u32(document.height));
    assert(bytes.subrange(16, 20) =~= le_u32(count));
    assert(bytes.subrange(20, 24) =~= le_u32(active));
    lemma_u32_at_window(bytes, 4, VERSION);
    lemma_u32_at_window(bytes, 8, document.width);
    lemma_u32_at_window(bytes, 12, document.height);
    lemma_u32_at_window(bytes, 16, count);
    lemma_u32_at_window(bytes, 20, active);
    assert(valid_header(document.width, document.height, count, active));
    assert(bytes =~= header + body + Seq::<u8>::empty());
    lemma_layers_read(document.layers, document.width, document.height, header, Seq::empty());
    assert(!(exists|i: int|
        0 <= i < document.layers.len() && #[trigger] encode_utf8(document.layers[i].name).len() > u32::MAX));
}

/// The bytes to store for `document`: it is checked first, so a document
/// that could not be read back is never written.
pub fn save(document: &Document) -> (result: Result<Vec<u8>, OdrawError>)
    ensures
        match result {
            Ok(bytes) => storable(document@) && bytes@ == document_bytes(document@),
            Err(error) => !storable(document@) && error is InvalidDimensions,
        },
{
    validate_document(document)?;
    proof {
        lemma_read_after_write(document@);
    }
    match write_document(document) {
        Ok(bytes) => Ok(bytes),
        Err(error) => Err(error),
    }
}

/// The image file for `document` in `format`.
pub fn export(document: &Document, format: ImageFormat) -> (bytes: Vec<u8>)
    requires
        document.layers_cover(),
        format == ImageFormat::Bmp ==> document.width as int * 3 + 3 <= u32::MAX && 54
            + bmp::bmp_image_size(document.width, document.height) <= u32::MAX,
        format == ImageFormat::Png ==> document.height as int * (1 + 4 * document.width as int) <= usize::MAX,
    ensures
        bytes@ == match format {
            ImageFormat::Bmp => bmp::bmp_bytes(document@),
            ImageFormat::Png => png::png_bytes(document@),
        },
{
    match format {
        ImageFormat::Bmp => bmp::write(document),
        ImageFormat::Png => png::write(document),
    }
}

} // verus!
