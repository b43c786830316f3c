use vstd::prelude::*;

pub mod fill;
pub mod pixels;

pub use pixels::{buffer_dimensions_error, centered_value, lemma_u32_product, PixelBuffer};

use crate::graphics::color::Color;
use crate::graphics::framebuffer::pixel_index;
use crate::support::{decimal_chars, decimal_string, parse_decimal, parse_u32, try_reserve_exact};
use vstd::string::StringExecFns;

verus! {

/// The most pixels a document may hold, summed over all its layers.
pub const MAX_PIXELS: u64 = 64 * 1024 * 1024;

/// The most layers a document may hold.
pub const MAX_LAYERS: usize = 256;

#[derive(Clone, Copy, Debug, PartialEq, Eq, Structural)]
pub enum DocumentError {
    InvalidDimensions,
    TooLarge,
    AllocationFailed,
}

impl DocumentError {
    /// The description of the error, as the program reports it.
    pub fn message(self) -> (message: &'static str)
        ensures
            message@ == match self {
                DocumentError::InvalidDimensions => "document dimensions must be positive"@,
                DocumentError::TooLarge => "document exceeds the pixel limit"@,
                DocumentError::AllocationFailed => "could not allocate document pixels"@,
            },
    {
        match self {
            DocumentError::InvalidDimensions => "document dimensions must be positive",
            DocumentError::TooLarge => "document exceeds the pixel limit",
            DocumentError::AllocationFailed => "could not allocate document pixels",
        }
    }
}

} // verus!

verus! {

/// One named layer of a document.
#[derive(Clone, Debug)]
pub struct Layer {
    pub name: String,
    pub visible: bool,
    pub opacity: u8,
    pub pixels: PixelBuffer,
}

/// A stack of equally sized layers; `layers[0]` is the bottom one.
#[derive(Clone, Debug)]
pub struct Document {
    pub width: u32,
    pub height: u32,
    pub layers: Vec<Layer>,
    pub active_layer: usize,
    /// The number that the next added layer's default name carries.
    pub next_layer_number: u32,
}

/// A layer as plain values.
#[verifier::ext_equal]
pub struct LayerView {
    pub name: Seq<char>,
    pub visible: bool,
    pub opacity: u8,
    pub width: u32,
    pub height: u32,
    pub pixels: Seq<u32>,
}

impl View for Layer {
    type V = LayerView;

    open spec fn view(&self) -> LayerView {
        LayerView {
            name: self.name@,
            visible: self.visible,
            opacity: self.opacity,
            width: self.pixels.width,
            height: self.pixels.height,
            pixels: self.pixels.pixels@,
        }
    }
}

/// A document as plain values.
#[verifier::ext_equal]
pub struct DocumentView {
    pub width: u32,
    pub height: u32,
    pub layers: Seq<LayerView>,
    pub active_layer: usize,
    pub next_layer_number: u32,
}

impl View for Document {
    type V = DocumentView;

    open spec fn view(&self) -> DocumentView {
        DocumentView {
            width: self.width,
            height: self.height,
            layers: self.layers@.map_values(|layer: Layer| layer@),
            active_layer: self.active_layer,
            next_layer_number: self.next_layer_number,
        }
    }
}

pub open spec fn layer_prefix() -> Seq<char> {
    seq!['L', 'A', 'Y', 'E', 'R', ' ']
}

/// `"LAYER "` followed by the decimal `number`.
pub open spec fn layer_name(number: u32) -> Seq<char> {
    layer_prefix() + decimal_chars(number as nat)
}

/// The number in a default layer name, `LAYER <n>`, as `str::parse` reads it.
pub open spec fn name_number(name: Seq<char>) -> Option<u32> {
    if name.len() >= 6 && name.subrange(0, 6) == layer_prefix() {
        parse_u32(name.subrange(6, name.len() as int))
    } else {
        None
    }
}

/// The highest number among the default-named layers.
pub open spec fn highest_number(layers: Seq<LayerView>) -> Option<u32>
    decreases layers.len(),
{
    if layers.len() == 0 {
        None
    } else {
        let below = highest_number(layers.drop_last());
        match name_number(layers.last().name) {
            None => below,
            Some(n) => match below {
                None => Some(n),
                Some(m) => Some(if m >= n { m } else { n }),
            },
        }
    }
}

/// The number the next default layer name takes in a loaded document: one
/// past the highest `LAYER <n>`, or one past the layer count when there is
/// none; it stops at `u32::MAX`.
pub open spec fn next_number(layers: Seq<LayerView>) -> u32 {
    let base: int = match highest_number(layers) {
        Some(n) => n as int,
        None => (layers.len() as u32) as int,
    };
    if base + 1 > u32::MAX {
        u32::MAX
    } else {
        (base + 1) as u32
    }
}

pub open spec fn background_name() -> Seq<char> {
    seq!['B', 'A', 'C', 'K', 'G', 'R', 'O', 'U', 'N', 'D']
}

/// A visible, opaque layer of the given size filled with one value.
pub open spec fn filled_layer(name: Seq<char>, width: u32, height: u32, value: u32) -> LayerView {
    LayerView {
        name,
        visible: true,
        opacity: 255,
        width,
        height,
        pixels: Seq::new(width as nat * height as nat, |i: int| value),
    }
}

/// Alpha of a layer pixel once the layer's opacity is applied.
pub open spec fn scaled_alpha(alpha: u8, opacity: u8) -> u8 {
    ((alpha as int * opacity as int + 127) / 255) as u8
}

/// The color that a layer contributes at `(x, y)`.
pub open spec fn layer_color_at(layer: LayerView, x: int, y: int) -> Color {
    let pixel = Color(layer.pixels[pixel_index(layer.width, x, y)]);
    Color::from_channels(pixel.red_s(), pixel.green_s(), pixel.blue_s(), scaled_alpha(pixel.alpha_s(), layer.opacity))
}

/// The visible layers at `(x, y)` composited bottom to top over `background`.
pub open spec fn composite(layers: Seq<LayerView>, x: int, y: int, background: Color) -> Color
    decreases layers.len(),
{
    if layers.len() == 0 {
        background
    } else {
        let below = composite(layers.drop_last(), x, y, background);
        if layers.last().visible {
            layer_color_at(layers.last(), x, y).over(below)
        } else {
            below
        }
    }
}

impl DocumentView {
    /// The document's own invariant: positive dimensions, between one and
    /// `MAX_LAYERS` layers of the document's size, at most `MAX_PIXELS` pixels
    /// over all layers, and an active layer that exists.
    pub open spec fn wf(self) -> bool {
        &&& self.width > 0
        &&& self.height > 0
        &&& 1 <= self.layers.len() <= MAX_LAYERS
        &&& self.active_layer < self.layers.len()
        &&& self.width as int * self.height as int * self.layers.len() <= MAX_PIXELS
        &&& layers_fit(self.layers, self.width, self.height)
    }
}

/// Every layer is `width` x `height` and holds that many pixels.
pub open spec fn layers_fit(layers: Seq<LayerView>, width: u32, height: u32) -> bool {
    forall|i: int| 0 <= i < layers.len() ==> #[trigger] layer_fits(layers[i], width, height)
}

pub open spec fn layer_fits(layer: LayerView, width: u32, height: u32) -> bool {
    &&& layer.width == width
    &&& layer.height == height
    &&& layer.pixels.len() == width as int * height as int
}

impl Document {
    /// Every layer's buffer is well formed and at least as large as the
    /// document, so each document pixel can be read from every layer.
    pub open spec fn layers_cover(&self) -> bool {
        forall|i: int|
            0 <= i < self.layers@.len() ==> {
                &&& (#[trigger] self.layers@[i]).pixels.wf()
                &&& self.layers@[i].pixels.width >= self.width
                &&& self.layers@[i].pixels.height >= self.height
            }
    }

    /// Whether the document keeps its invariant, `wf`: a document whose
    /// fields were set by hand can be checked before it is handed on.
    pub fn is_well_formed(&self) -> (ok: bool)
        ensures
            ok == self@.wf(),
    {
        let count = self.layers.len();
        if self.width == 0 || self.height == 0 || count == 0 || count > MAX_LAYERS || self.active_layer >= count {
            return false;
        }
        proof {
            lemma_u32_product(self.width, self.height);
        }
        let per_layer = self.width as u64 * self.height as u64;
        if per_layer > MAX_PIXELS {
            proof {
                assert(per_layer * count >= per_layer * 1) by (nonlinear_arith)
                    requires count >= 1, per_layer >= 0;
            }
            return false;
        }
        proof {
            assert(per_layer * count <= MAX_PIXELS * 256) by (nonlinear_arith)
                requires per_layer <= MAX_PIXELS, count <= 256;
        }
        if per_layer * (count as u64) > MAX_PIXELS {
            return false;
        }
        let mut i: usize = 0;
        while i < count
            invariant
                i <= count,
                count == self.layers@.len(),
                per_layer == self.width as int * self.height as int,
                forall|j: int| 0 <= j < i ==> #[trigger] layer_fits(self@.layers[j], self.width, self.height),
            decreases count - i,
        {
            let layer = &self.layers[i];
            if layer.pixels.width != self.width || layer.pixels.height != self.height
                || layer.pixels.pixels.len() as u64 != per_layer {
                proof {
                    assert(self@.layers[i as int] == layer@);
                    assert(!layer_fits(self@.layers[i as int], self.width, self.height));
                }
                return false;
            }
            proof {
                assert(self@.layers[i as int] == layer@);
            }
            i += 1;
        }
        true
    }

    /// A document with one opaque layer, `LAYER 1`, filled with `background`.
    pub fn new(width: u32, height: u32, background: Color) -> (result: Result<Document, DocumentError>)
        ensures
            match result {
                Ok(document) => {
                    &&& buffer_dimensions_error(width, height) is None
                    &&& document@ == DocumentView {
                        width,
                        height,
                        layers: seq![filled_layer(layer_name(1), width, height, background.0)],
                        active_layer: 0,
                        next_layer_number: 2,
                    }
                    &&& document@.wf()
                },
                Err(error) => match buffer_dimensions_error(width, height) {
                    Some(expected) => error == expected,
                    None => error == DocumentError::AllocationFailed,
                },
            },
    {
        let pixels = PixelBuffer::new(width, height, background)?;
        let name = <String as StringExecFns>::from_str("LAYER 1");
        proof {
            reveal_strlit("LAYER 1");
            assert(decimal_chars(1) == seq!['1']);
            assert(name@ =~= layer_name(1));
        }
        let mut layers: Vec<Layer> = Vec::new();
        layers.push(Layer { name, visible: true, opacity: 255, pixels });
        let document = Document { width, height, layers, active_layer: 0, next_layer_number: 2 };
        assert(document@.layers =~= seq![filled_layer(layer_name(1), width, height, background.0)]);
        Ok(document)
    }
}

impl Document {
    pub fn active_layer(&self) -> (layer: &Layer)
        requires
            self.active_layer < self.layers@.len(),
        ensures
            *layer == self.layers@[self.active_layer as int],
    {
        &self.layers[self.active_layer]
    }

    pub fn active_layer_mut(&mut self) -> (layer: &mut Layer)
        requires
            old(self).active_layer < old(self).layers@.len(),
        ensures
            *layer == old(self).layers@[old(self).active_layer as int],
            final(self).layers@ == old(self).layers@.update(old(self).active_layer as int, *final(layer)),
            final(self).width == old(self).width,
            final(self).height == old(self).height,
            final(self).active_layer == old(self).active_layer,
            final(self).next_layer_number == old(self).next_layer_number,
    {
        let index = self.active_layer;
        &mut self.layers[index]
    }

    pub fn layer_mut(&mut self, index: usize) -> (layer: &mut Layer)
        requires
            index < old(self).layers@.len(),
        ensures
            *layer == old(self).layers@[index as int],
            final(self).layers@ == old(self).layers@.update(index as int, *final(layer)),
            final(self).width == old(self).width,
            final(self).height == old(self).height,
            final(self).active_layer == old(self).active_layer,
            final(self).next_layer_number == old(self).next_layer_number,
    {
        &mut self.layers[index]
    }

    /// The visible layers at `(x, y)` composited over `background`, each with
    /// its opacity applied; `None` outside the document.
    pub fn composite_pixel(&self, x: u32, y: u32, background: Color) -> (pixel: Option<Color>)
        requires
            self.layers_cover(),
        ensures
            pixel == if x < self.width && y < self.height {
                Some(composite(self@.layers, x as int, y as int, background))
            } else {
                None::<Color>
            },
    {
        if x >= self.width || y >= self.height {
            return None;
        }
        let mut result = background;
        let mut i: usize = 0;
        while i < self.layers.len()
            invariant
                self.layers_cover(),
                x < self.width,
                y < self.height,
                i <= self.layers@.len(),
                result == composite(self@.layers.take(i as int), x as int, y as int, background),
            decreases self.layers@.len() - i,
        {
            let layer = &self.layers[i];
            proof {
                assert(self@.layers.take(i + 1).drop_last() =~= self@.layers.take(i as int));
                assert(self@.layers[i as int] == layer@);
            }
            if layer.visible {
                let stored = layer.pixels.get_pixel(x, y).unwrap();
                let alpha = scale_alpha(stored.alpha(), layer.opacity);
                let pixel = Color::rgba(stored.red(), stored.green(), stored.blue(), alpha);
                result = pixel.blend_over(result);
            }
            i += 1;
        }
        assert(self@.layers.take(self@.layers.len() as int) =~= self@.layers);
        Some(result)
    }

    /// Adds an empty, transparent layer named `LAYER n` on top and makes it
    /// active.
    pub fn add_layer(&mut self) -> (result: Result<(), DocumentError>)
        requires
            old(self).width as int * old(self).height as int * (old(self).layers@.len() + 1) <= u64::MAX,
            add_layer_error(old(self)@) is None ==> old(self).next_layer_number < u32::MAX,
        ensures
            match add_layer_error(old(self)@) {
                Some(expected) => result == Err::<(), DocumentError>(expected) && final(self)@ == old(self)@,
                None => match result {
                    Ok(_) => final(self)@ == added_layer(old(self)@),
                    Err(error) => error == DocumentError::AllocationFailed && final(self)@ == old(self)@,
                },
            },
    {
        proof {
            lemma_u32_product(self.width, self.height);
        }
        let pixels_per_layer = self.width as u64 * self.height as u64;
        if self.layers.len() >= MAX_LAYERS || pixels_per_layer * (self.layers.len() as u64 + 1)
            > MAX_PIXELS {
            return Err(DocumentError::TooLarge);
        }
        let pixels = PixelBuffer::new(self.width, self.height, Color::rgba(0, 0, 0, 0))?;
        let mut name = <String as StringExecFns>::from_str("LAYER ");
        let number = decimal_string(self.next_layer_number);
        name.append(number.as_str());
        proof {
            reveal_strlit("LAYER ");
            assert(name@ =~= layer_name(self.next_layer_number));
            assert(Color::from_channels(0, 0, 0, 0).0 == 0);
        }
        let ghost before = self@;
        self.layers.push(Layer { name, visible: true, opacity: 255, pixels });
        self.next_layer_number += 1;
        self.active_layer = self.layers.len() - 1;
        assert(self@.layers =~= before.layers.push(filled_layer(layer_name(before.next_layer_number), before.width, before.height, 0)));
        Ok(())
    }
}

/// Applies a layer's opacity to a pixel's alpha, rounding to nearest.
pub fn scale_alpha(alpha: u8, opacity: u8) -> (scaled: u8)
    ensures
        scaled == scaled_alpha(alpha, opacity),
{
    proof {
        assert(alpha as int * opacity as int <= 255 * 255) by (nonlinear_arith)
            requires alpha <= 255, opacity <= 255;
        assert(alpha as int * opacity as int >= 0) by (nonlinear_arith)
            requires alpha >= 0, opacity >= 0;
    }
    ((alpha as u16 * opacity as u16 + 127) / 255) as u8
}

/// Why `add_layer` refuses a document, as decided before any allocation.
pub open spec fn add_layer_error(document: DocumentView) -> Option<DocumentError> {
    if document.layers.len() >= MAX_LAYERS || document.width as int * document.height as int * (document.layers.len() + 1) > MAX_PIXELS {
        Some(DocumentError::TooLarge)
    } else {
        buffer_dimensions_error(document.width, document.height)
    }
}

/// `document` with a new empty layer on top, active.
pub open spec fn added_layer(document: DocumentView) -> DocumentView {
    DocumentView {
        layers: document.layers.push(filled_layer(layer_name(document.next_layer_number), document.width, document.height, 0)),
        active_layer: document.layers.len() as usize,
        next_layer_number: (document.next_layer_number + 1) as u32,
        ..document
    }
}

impl Document {
    /// A user-created document: a `BACKGROUND` layer filled with `background`
    /// under an empty active drawing layer. The combined size is checked
    /// before either buffer is allocated.
    pub fn with_background(width: u32, height: u32, background: Color) -> (result: Result<Document, DocumentError>)
        ensures
            match background_document_error(width, height) {
                Some(expected) => result == Err::<Document, DocumentError>(expected),
                None => match result {
                    Ok(document) => {
                        &&& document@ == background_document(width, height, background)
                        &&& document@.wf()
                    },
                    Err(error) => error == DocumentError::AllocationFailed,
                },
            },
    {
        proof {
            lemma_u32_product(width, height);
        }
        if width as u64 * height as u64 > MAX_PIXELS / 2 {
            return Err(DocumentError::TooLarge);
        }
        let mut document = Document::new(width, height, background)?;
        let name = <String as StringExecFns>::from_str("BACKGROUND");
        proof {
            reveal_strlit("BACKGROUND");
            assert(name@ =~= background_name());
        }
        let ghost fresh = document@;
        document.layers[0].name = name;
        let ghost renamed = document@;
        proof {
            assert(renamed.layers.len() == 1);
            assert(width as int * height as int * 2 <= MAX_PIXELS);
            assert(add_layer_error(renamed) is None);
            assert(fresh.layers[0] == filled_layer(layer_name(1), width, height, background.0));
            assert(renamed.layers[0] =~= filled_layer(background_name(), width, height, background.0));
        }
        document.add_layer()?;
        proof {
            assert(decimal_chars(2) == seq!['2']);
            assert(document@.layers =~= background_document(width, height, background).layers);
        }
        Ok(document)
    }

    /// Deletes the active layer unless it is the only one; the layer below,
    /// or the new bottom layer, becomes active. Returns whether a layer was
    /// deleted.
    pub fn remove_active_layer(&mut self) -> (removed: bool)
        requires
            old(self).active_layer < old(self).layers@.len(),
        ensures
            removed == (old(self).layers@.len() != 1),
            final(self)@ == if removed {
                removed_active_layer(old(self)@)
            } else {
                old(self)@
            },
    {
        if self.layers.len() == 1 {
            return false;
        }
        let ghost before = self@;
        self.layers.remove(self.active_layer);
        if self.active_layer > self.layers.len() - 1 {
            self.active_layer = self.layers.len() - 1;
        }
        assert(self@.layers =~= before.layers.remove(before.active_layer as int));
        true
    }

    /// Moves the active layer one step down the stack, keeping it active.
    pub fn move_active_down(&mut self)
        requires
            old(self).active_layer < old(self).layers@.len(),
        ensures
            final(self)@ == if old(self).active_layer > 0 {
                swapped_layers(old(self)@, old(self).active_layer as int - 1)
            } else {
                old(self)@
            },
    {
        if self.active_layer > 0 {
            let ghost before = self@;
            let layer = self.layers.remove(self.active_layer);
            self.layers.insert(self.active_layer - 1, layer);
            self.active_layer -= 1;
            assert(self@.layers =~= swapped_layers(before, before.active_layer as int - 1).layers);
        }
    }

    /// Moves the active layer one step up the stack, keeping it active.
    pub fn move_active_up(&mut self)
        ensures
            final(self)@ == if old(self).active_layer + 1 < old(self).layers@.len() {
                swapped_layers(old(self)@, old(self).active_layer as int)
            } else {
                old(self)@
            },
    {
        if self.active_layer < self.layers.len() && self.active_layer + 1 < self.layers.len() {
            let ghost before = self@;
            let layer = self.layers.remove(self.active_layer);
            self.layers.insert(self.active_layer + 1, layer);
            self.active_layer += 1;
            assert(self@.layers =~= swapped_layers(before, before.active_layer as int).layers);
        }
    }
}

impl Layer {
    /// A copy of this layer.
    pub fn duplicate(&self) -> (copy: Layer)
        ensures
            copy@ == self@,
    {
        Layer {
            name: self.name.clone(),
            visible: self.visible,
            opacity: self.opacity,
            pixels: self.pixels.duplicate(),
        }
    }
}

impl Document {
    /// A copy of this document, layer by layer.
    pub fn duplicate(&self) -> (copy: Document)
        ensures
            copy@ == self@,
    {
        let mut layers: Vec<Layer> = Vec::with_capacity(self.layers.len());
        let mut i: usize = 0;
        while i < self.layers.len()
            invariant
                i <= self.layers@.len(),
                layers@.len() == i,
                forall|k: int| 0 <= k < i ==> #[trigger] layers@[k]@ == self.layers@[k]@,
            decreases self.layers@.len() - i,
        {
            layers.push(self.layers[i].duplicate());
            i += 1;
        }
        let copy = Document {
            width: self.width,
            height: self.height,
            layers,
            active_layer: self.active_layer,
            next_layer_number: self.next_layer_number,
        };
        assert(copy@.layers =~= self@.layers);
        copy
    }
}

/// Bytes of pixel memory that the layers hold, four per pixel.
pub open spec fn pixel_memory(layers: Seq<LayerView>) -> int
    decreases layers.len(),
{
    if layers.len() == 0 {
        0
    } else {
        pixel_memory(layers.drop_last()) + 4 * layers.last().pixels.len()
    }
}

/// Why `with_background` refuses the dimensions, decided before allocating.
pub open spec fn background_document_error(width: u32, height: u32) -> Option<DocumentError> {
    if width as int * height as int > MAX_PIXELS / 2 {
        Some(DocumentError::TooLarge)
    } else {
        buffer_dimensions_error(width, height)
    }
}

/// The document that `with_background` builds.
pub open spec fn background_document(width: u32, height: u32, background: Color) -> DocumentView {
    DocumentView {
        width,
        height,
        layers: seq![
            filled_layer(background_name(), width, height, background.0),
            filled_layer(layer_name(2), width, height, 0),
        ],
        active_layer: 1,
        next_layer_number: 3,
    }
}

/// `document` without its active layer; the active index stays unless it
/// was the top.
pub open spec fn removed_active_layer(document: DocumentView) -> DocumentView {
    let layers = document.layers.remove(document.active_layer as int);
    DocumentView {
        layers,
        active_layer: if document.active_layer < layers.len() {
            document.active_layer
        } else {
            (layers.len() - 1) as usize
        },
        ..document
    }
}

/// `document` with layers `lower` and `lower + 1` exchanged, the active
/// layer following the one it was.
pub open spec fn swapped_layers(document: DocumentView, lower: int) -> DocumentView {
    DocumentView {
        layers: document.layers.update(lower, document.layers[lower + 1]).update(lower + 1, document.layers[lower]),
        active_layer: if document.active_layer == lower {
            (lower + 1) as usize
        } else {
            lower as usize
        },
        ..document
    }
}

/// Why `import_layer` refuses an image of the given size and pixel count.
pub open spec fn import_error(document: DocumentView, width: u32, height: u32, count: int) -> Option<DocumentError> {
    let new_width = if document.width >= width { document.width } else { width };
    let new_height = if document.height >= height { document.height } else { height };
    if width == 0 || height == 0 || width as int * height as int != count {
        Some(DocumentError::InvalidDimensions)
    } else if document.layers.len() >= MAX_LAYERS || new_width as int * new_height as int * (document.layers.len() + 1) > MAX_PIXELS {
        Some(DocumentError::TooLarge)
    } else {
        None
    }
}

/// `layer` moved into the middle of a `width` x `height` canvas.
pub open spec fn centered_layer(layer: LayerView, width: u32, height: u32) -> LayerView {
    LayerView {
        width,
        height,
        pixels: Seq::new(
            width as nat * height as nat,
            |i: int| centered_value(layer.pixels, layer.width, layer.height, width, height, i % width as int, i / width as int),
        ),
        ..layer
    }
}

/// The document after importing `image` as a new top layer called `name`.
/// The canvas grows to fit both and every layer is centered in it.
pub open spec fn imported(document: DocumentView, name: Seq<char>, width: u32, height: u32, pixels: Seq<u32>) -> DocumentView {
    let new_width = if document.width >= width { document.width } else { width };
    let new_height = if document.height >= height { document.height } else { height };
    let image = LayerView { name, visible: true, opacity: 255, width, height, pixels };
    DocumentView {
        width: new_width,
        height: new_height,
        layers: document.layers.map_values(|layer: LayerView| centered_layer(layer, new_width, new_height)).push(
            centered_layer(image, new_width, new_height),
        ),
        active_layer: document.layers.len() as usize,
        next_layer_number: document.next_layer_number,
    }
}

impl Document {
    /// Adds a decoded image as a new active top layer named `name`. The canvas
    /// grows to the larger of both sizes and every layer, the image included,
    /// is centered in it without cropping.
    pub fn import_layer(&mut self, name: String, width: u32, height: u32, pixels: Vec<u32>) -> (result: Result<(), DocumentError>)
        requires
            forall|i: int|
                0 <= i < old(self).layers@.len() ==> {
                    &&& (#[trigger] old(self).layers@[i]).pixels.wf()
                    &&& old(self).layers@[i].pixels.width <= old(self).width || old(self).layers@[i].pixels.width <= width
                    &&& old(self).layers@[i].pixels.height <= old(self).height || old(self).layers@[i].pixels.height <= height
                },
        ensures
            match import_error(old(self)@, width, height, pixels@.len() as int) {
                Some(expected) => result == Err::<(), DocumentError>(expected) && final(self)@ == old(self)@,
                None => match result {
                    Ok(_) => final(self)@ == imported(old(self)@, name@, width, height, pixels@),
                    Err(error) => error == DocumentError::AllocationFailed && final(self)@ == old(self)@,
                },
            },
    {
        proof {
            lemma_u32_product(width, height);
        }
        let imported_pixels = width as u64 * height as u64;
        if width == 0 || height == 0 || imported_pixels != pixels.len() as u64 {
            return Err(DocumentError::InvalidDimensions);
        }
        let new_width = if self.width >= width { self.width } else { width };
        let new_height = if self.height >= height { self.height } else { height };
        proof {
            lemma_u32_product(new_width, new_height);
        }
        let pixels_per_layer = new_width as u64 * new_height as u64;
        if self.layers.len() >= MAX_LAYERS {
            return Err(DocumentError::TooLarge);
        }
        match pixels_per_layer.checked_mul(self.layers.len() as u64 + 1) {
            None => {
                return Err(DocumentError::TooLarge);
            },
            Some(total) => {
                if total > MAX_PIXELS {
                    return Err(DocumentError::TooLarge);
                }
            },
        }
        proof {
            assert(new_width as int * new_height as int <= MAX_PIXELS) by (nonlinear_arith)
                requires new_width as int * new_height as int * (self.layers@.len() + 1) <= MAX_PIXELS,
                    self.layers@.len() + 1 >= 1, new_width as int * new_height as int >= 0;
            assert(pixels@.len() == width as int * height as int);
            assert(width as int * height as int <= u32::MAX + 1) by (nonlinear_arith)
                requires width <= new_width, height <= new_height,
                    new_width as int * new_height as int <= MAX_PIXELS, width >= 1, height >= 1;
        }
        let ghost input = pixels@;
        let image = PixelBuffer { width, height, pixels };
        let mut layers: Vec<Layer> = Vec::new();
        if !try_reserve_exact(&mut layers, self.layers.len() + 1) {
            return Err(DocumentError::AllocationFailed);
        }
        let ghost target = imported(self@, name@, width, height, image.pixels@);
        let mut i: usize = 0;
        while i < self.layers.len()
            invariant
                i <= self.layers@.len(),
                layers@.len() == i,
                buffer_dimensions_error(new_width, new_height) is None,
                new_width == target.width,
                new_height == target.height,
                target == imported(old(self)@, name@, width, height, image.pixels@),
                import_error(old(self)@, width, height, image.pixels@.len() as int) is None,
                image.pixels@ == input,
                input == pixels@,
                *self == *old(self),
                forall|k: int|
                    0 <= k < old(self).layers@.len() ==> {
                        &&& (#[trigger] old(self).layers@[k]).pixels.wf()
                        &&& old(self).layers@[k].pixels.width <= new_width
                        &&& old(self).layers@[k].pixels.height <= new_height
                    },
                forall|k: int| 0 <= k < i ==> #[trigger] layers@[k]@ == target.layers[k],
            decreases self.layers@.len() - i,
        {
            let layer = &self.layers[i];
            let centered = match layer.pixels.centered_in(new_width, new_height) {
                Ok(centered) => centered,
                Err(error) => {
                    return Err(error);
                },
            };
            let copy = Layer {
                name: layer.name.clone(),
                visible: layer.visible,
                opacity: layer.opacity,
                pixels: centered,
            };
            proof {
                lemma_centered_layer(layer@, centered, new_width, new_height);
            }
            layers.push(copy);
            i += 1;
        }
        let centered = image.centered_in(new_width, new_height)?;
        let top = Layer { name, visible: true, opacity: 255, pixels: centered };
        proof {
            lemma_centered_layer(
                LayerView { name: name@, visible: true, opacity: 255, width, height, pixels: image.pixels@ },
                centered,
                new_width,
                new_height,
            );
        }
        layers.push(top);
        self.width = new_width;
        self.height = new_height;
        self.active_layer = layers.len() - 1;
        self.layers = layers;
        assert(self@.layers =~= target.layers);
        Ok(())
    }
}

proof fn lemma_centered_layer(layer: LayerView, centered: PixelBuffer, width: u32, height: u32)
    requires
        centered.width == width,
        centered.height == height,
        centered.wf(),
        forall|x: int, y: int|
            0 <= x < width && 0 <= y < height ==> #[trigger] centered.pixels@[pixel_index(width, x, y)]
                == centered_value(layer.pixels, layer.width, layer.height, width, height, x, y),
    ensures
        (LayerView { width, height, pixels: centered.pixels@, ..layer }) == centered_layer(layer, width, height),
{
    let expected = centered_layer(layer, width, height);
    assert forall|i: int| 0 <= i < centered.pixels@.len() implies centered.pixels@[i] == expected.pixels[i] by {
        let x = i % width as int;
        let y = i / width as int;
        vstd::arithmetic::div_mod::lemma_fundamental_div_mod(i, width as int);
        vstd::arithmetic::div_mod::lemma_mod_bound(i, width as int);
        assert(0 <= y < height) by {
            vstd::arithmetic::div_mod::lemma_div_pos_is_pos(i, width as int);
            vstd::arithmetic::div_mod::lemma_multiply_divide_lt(i, width as int, height as int);
        }
        assert(pixel_index(width, x, y) == i) by {
            vstd::arithmetic::mul::lemma_mul_is_commutative(width as int, y);
        }
    }
    assert(centered.pixels@ =~= expected.pixels);
}

/// Why `from_layers` refuses its parts.
pub open spec fn from_layers_error(width: u32, height: u32, layers: Seq<LayerView>, active_layer: usize) -> Option<DocumentError> {
    if width as int * height as int > usize::MAX {
        Some(DocumentError::TooLarge)
    } else if !(DocumentView { width, height, layers, active_layer, next_layer_number: 0 }).wf() {
        Some(DocumentError::InvalidDimensions)
    } else {
        None
    }
}

impl Document {
    /// Assembles a document from loaded layers after checking that they form
    /// a valid document.
    pub fn from_layers(width: u32, height: u32, layers: Vec<Layer>, active_layer: usize) -> (result: Result<Document, DocumentError>)
        ensures
            match from_layers_error(width, height, layers@.map_values(|layer: Layer| layer@), active_layer) {
                Some(expected) => result matches Err(error) && error == expected,
                None => result matches Ok(document) && document@ == (DocumentView {
                    width,
                    height,
                    layers: layers@.map_values(|layer: Layer| layer@),
                    active_layer,
                    next_layer_number: next_number(layers@.map_values(|layer: Layer| layer@)),
                }) && document@.wf(),
            },
            result matches Ok(document) ==> forall|i: int|
                0 <= i < document@.layers.len() ==> (#[trigger] name_number(document@.layers[i].name) matches Some(n)
                    ==> (n < u32::MAX ==> n < document.next_layer_number)),
    {
        let ghost views = layers@.map_values(|layer: Layer| layer@);
        proof {
            lemma_u32_product(width, height);
        }
        let pixels_per_layer = width as u64 * height as u64;
        if pixels_per_layer > usize::MAX as u64 {
            return Err(DocumentError::TooLarge);
        }
        let expected = pixels_per_layer as usize;
        let count = layers.len();
        if width == 0 || height == 0 || count == 0 || count > MAX_LAYERS || active_layer >= count {
            return Err(DocumentError::InvalidDimensions);
        }
        match pixels_per_layer.checked_mul(count as u64) {
            None => {
                return Err(DocumentError::InvalidDimensions);
            },
            Some(total) => {
                if total > MAX_PIXELS {
                    return Err(DocumentError::InvalidDimensions);
                }
            },
        }
        let mut highest: Option<u32> = None;
        let mut i: usize = 0;
        while i < count
            invariant
                count == layers@.len(),
                count == views.len(),
                views == layers@.map_values(|layer: Layer| layer@),
                i <= count,
                expected as int == width as int * height as int,
                layers_fit(views.take(i as int), width, height),
                highest == highest_number(views.take(i as int)),
            decreases count - i,
        {
            let layer = &layers[i];
            proof {
                assert(views[i as int] == layer@);
                assert(views.take(i + 1).drop_last() =~= views.take(i as int));
            }
            if layer.pixels.width != width || layer.pixels.height != height || layer.pixels.pixels.len() != expected {
                proof {
                    assert(!layer_fits(views[i as int], width, height));
                    assert(!layers_fit(views, width, height));
                }
                return Err(DocumentError::InvalidDimensions);
            }
            let number = layer_number(layer.name.as_str());
            highest = match number {
                None => highest,
                Some(n) => match highest {
                    None => Some(n),
                    Some(m) => Some(if m >= n { m } else { n }),
                },
            };
            proof {
                assert forall|k: int| 0 <= k < i + 1 implies #[trigger] layer_fits(views.take(i + 1)[k], width, height) by {
                    if k < i {
                        assert(views.take(i + 1)[k] == views.take(i as int)[k]);
                    }
                }
            }
            i += 1;
        }
        proof {
            assert(views.take(count as int) =~= views);
        }
        let base = match highest {
            Some(n) => n,
            None => count as u32,
        };
        let next_layer_number = if base == u32::MAX { u32::MAX } else { base + 1 };
        proof {
            lemma_next_number_follows_default_names(views);
        }
        Ok(Document { width, height, layers, active_layer, next_layer_number })
    }
}

/// The number of a default layer name `LAYER <n>`.
pub fn layer_number(name: &str) -> (number: Option<u32>)
    ensures
        number == name_number(name@),
{
    let length = name.unicode_len();
    if length < 6 {
        return None;
    }
    let prefix = "LAYER ";
    proof {
        reveal_strlit("LAYER ");
    }
    let mut i: usize = 0;
    while i < 6
        invariant
            i <= 6,
            length == name@.len(),
            length >= 6,
            prefix@ == layer_prefix(),
            forall|k: int| 0 <= k < i ==> name@[k] == layer_prefix()[k],
        decreases 6 - i,
    {
        if name.get_char(i) != prefix.get_char(i) {
            proof {
                assert(name@.subrange(0, 6)[i as int] != layer_prefix()[i as int]);
            }
            return None;
        }
        i += 1;
    }
    proof {
        assert(name@.subrange(0, 6) =~= layer_prefix());
    }
    parse_decimal(name, 6)
}

} // verus!

verus! {

/// `highest_number` is the largest number of a default-named layer, and
/// there is none exactly when no layer has a default name.
proof fn lemma_highest_number(layers: Seq<LayerView>)
    ensures
        highest_number(layers) is None <==> forall|i: int| 0 <= i < layers.len() ==> #[trigger] name_number(layers[i].name) is None,
        highest_number(layers) matches Some(m) ==> {
            &&& forall|i: int| 0 <= i < layers.len() ==> (#[trigger] name_number(layers[i].name) matches Some(n) ==> n <= m)
            &&& exists|i: int| 0 <= i < layers.len() && #[trigger] name_number(layers[i].name) == Some(m)
        },
    decreases layers.len(),
{
    if layers.len() > 0 {
        let rest = layers.drop_last();
        lemma_highest_number(rest);
        assert forall|i: int| 0 <= i < rest.len() implies rest[i] == layers[i] by {}
        let last = layers.len() - 1;
        assert(layers.last() == layers[last]);
        if let Some(m) = highest_number(layers) {
            match name_number(layers.last().name) {
                None => {
                    let i = choose|i: int| 0 <= i < rest.len() && #[trigger] name_number(rest[i].name) == Some(m);
                    assert(name_number(layers[i].name) == Some(m));
                },
                Some(n) => {
                    if n == m {
                        assert(name_number(layers[last].name) == Some(m));
                    } else {
                        let i = choose|i: int| 0 <= i < rest.len() && #[trigger] name_number(rest[i].name) == Some(m);
                        assert(name_number(layers[i].name) == Some(m));
                    }
                },
            }
            assert forall|i: int| 0 <= i < layers.len() implies (#[trigger] name_number(layers[i].name) matches Some(n) ==> n <= m) by {
                if i < rest.len() {
                    assert(name_number(rest[i].name) == name_number(layers[i].name));
                }
            }
        } else {
            assert forall|i: int| 0 <= i < layers.len() implies #[trigger] name_number(layers[i].name) is None by {
                if i < rest.len() {
                    assert(name_number(rest[i].name) == name_number(layers[i].name));
                }
            }
        }
        if forall|i: int| 0 <= i < layers.len() ==> #[trigger] name_number(layers[i].name) is None {
            assert(name_number(layers[last].name) is None);
            assert forall|i: int| 0 <= i < rest.len() implies #[trigger] name_number(rest[i].name) is None by {
                assert(name_number(layers[i].name) is None);
            }
        }
    }
}

/// The next default layer number of a loaded document lies past every
/// `LAYER <n>` among its layers (up to `u32::MAX`), so a layer added next
/// never repeats a default name; it is one past the highest such `n`, or
/// one past the layer count when no layer has a default name.
pub proof fn lemma_next_number_follows_default_names(layers: Seq<LayerView>)
    ensures
        forall|i: int|
            0 <= i < layers.len() ==> (#[trigger] name_number(layers[i].name) matches Some(n) ==> (n < u32::MAX ==> n
                < next_number(layers))),
        (exists|i: int| 0 <= i < layers.len() && #[trigger] name_number(layers[i].name) is Some) ==> exists|i: int|
            0 <= i < layers.len() && (#[trigger] name_number(layers[i].name) matches Some(n) && next_number(layers)
                == if n < u32::MAX { n + 1 } else { n as int }),
        (forall|i: int| 0 <= i < layers.len() ==> #[trigger] name_number(layers[i].name) is None) && layers.len()
            < u32::MAX ==> next_number(layers) == layers.len() + 1,
{
    lemma_highest_number(layers);
    if let Some(m) = highest_number(layers) {
        let i = choose|i: int| 0 <= i < layers.len() && #[trigger] name_number(layers[i].name) == Some(m);
        assert(name_number(layers[i].name) matches Some(n) && (next_number(layers) == if n < u32::MAX { n + 1 } else { n as int }));
    } else {
        assert forall|i: int| 0 <= i < layers.len() implies !(#[trigger] name_number(layers[i].name) is Some) by {}
    }
}

/// A well-formed document's layers all cover it, so every document pixel
/// can be read from every layer.
pub proof fn lemma_wf_covers(document: &Document)
    requires
        document@.wf(),
    ensures
        document.layers_cover(),
{
    let view = document@;
    assert(view.width as int * view.height as int <= MAX_PIXELS) by (nonlinear_arith)
        requires
            view.width as int * view.height as int * view.layers.len() <= MAX_PIXELS,
            view.layers.len() >= 1,
            view.width as int * view.height as int >= 0;
    assert forall|i: int| 0 <= i < document.layers@.len() implies {
        &&& (#[trigger] document.layers@[i]).pixels.wf()
        &&& document.layers@[i].pixels.width >= document.width
        &&& document.layers@[i].pixels.height >= document.height
    } by {
        assert(layer_fits(view.layers[i], view.width, view.height));
        assert(view.layers[i] == document.layers@[i]@);
    }
}

/// Adding a layer keeps a document well formed.
pub proof fn lemma_added_layer_wf(document: DocumentView)
    requires
        document.wf(),
        add_layer_error(document) is None,
    ensures
        added_layer(document).wf(),
{
    let added = added_layer(document);
    assert forall|i: int| 0 <= i < added.layers.len() implies #[trigger] layer_fits(added.layers[i], added.width, added.height) by {
        if i < document.layers.len() {
            assert(added.layers[i] == document.layers[i]);
        }
    }
}

/// Deleting the active layer of a document with more than one keeps it
/// well formed.
pub proof fn lemma_removed_layer_wf(document: DocumentView)
    requires
        document.wf(),
        document.layers.len() > 1,
    ensures
        removed_active_layer(document).wf(),
{
    let removed = removed_active_layer(document);
    let active = document.active_layer as int;
    assert forall|i: int| 0 <= i < removed.layers.len() implies #[trigger] layer_fits(removed.layers[i], removed.width, removed.height) by {
        if i < active {
            assert(removed.layers[i] == document.layers[i]);
        } else {
            assert(removed.layers[i] == document.layers[i + 1]);
        }
    }
    assert(document.width as int * document.height as int * removed.layers.len() <= document.width as int
        * document.height as int * document.layers.len()) by (nonlinear_arith)
        requires
            removed.layers.len() <= document.layers.len(),
            document.width as int * document.height as int >= 0;
}

/// Exchanging two neighbouring layers keeps a document well formed.
pub proof fn lemma_swapped_layers_wf(document: DocumentView, lower: int)
    requires
        document.wf(),
        0 <= lower,
        lower + 1 < document.layers.len(),
    ensures
        swapped_layers(document, lower).wf(),
{
    let swapped = swapped_layers(document, lower);
    assert forall|i: int| 0 <= i < swapped.layers.len() implies #[trigger] layer_fits(swapped.layers[i], swapped.width, swapped.height) by {
        if i == lower {
            assert(swapped.layers[i] == document.layers[lower + 1]);
        } else if i == lower + 1 {
            assert(swapped.layers[i] == document.layers[lower]);
        } else {
            assert(swapped.layers[i] == document.layers[i]);
        }
    }
}

/// Replacing one layer by another of the document's size keeps it well
/// formed; the active layer may move to any layer.
pub proof fn lemma_layer_replaced_wf(document: DocumentView, index: int, layer: LayerView, active_layer: usize)
    requires
        document.wf(),
        0 <= index < document.layers.len(),
        layer_fits(layer, document.width, document.height),
        active_layer < document.layers.len(),
    ensures
        (DocumentView { layers: document.layers.update(index, layer), active_layer, ..document }).wf(),
{
    let updated = DocumentView { layers: document.layers.update(index, layer), active_layer, ..document };
    assert forall|i: int| 0 <= i < updated.layers.len() implies #[trigger] layer_fits(updated.layers[i], updated.width, updated.height) by {
        if i != index {
            assert(updated.layers[i] == document.layers[i]);
        }
    }
}

/// Importing an image keeps a document well formed.
pub proof fn lemma_imported_wf(document: DocumentView, name: Seq<char>, width: u32, height: u32, pixels: Seq<u32>)
    requires
        document.wf(),
        import_error(document, width, height, pixels.len() as int) is None,
    ensures
        imported(document, name, width, height, pixels).wf(),
{
    let result = imported(document, name, width, height, pixels);
    assert forall|i: int| 0 <= i < result.layers.len() implies #[trigger] layer_fits(result.layers[i], result.width, result.height) by {
        if i < document.layers.len() {
            assert(result.layers[i] == centered_layer(document.layers[i], result.width, result.height));
        }
    }
}

} // verus!

verus! {

/// Importing never crops: every pixel of every layer, the imported image
/// included, is in the result, moved by that layer's centering offset.
pub proof fn lemma_import_keeps_every_pixel(
    document: DocumentView,
    name: Seq<char>,
    width: u32,
    height: u32,
    pixels: Seq<u32>,
    index: int,
    x: int,
    y: int,
)
    requires
        document.wf(),
        import_error(document, width, height, pixels.len() as int) is None,
        0 <= index <= document.layers.len(),
        ({
            let source = if index < document.layers.len() {
                document.layers[index]
            } else {
                LayerView { name, visible: true, opacity: 255, width, height, pixels }
            };
            0 <= x < source.width && 0 <= y < source.height
        }),
    ensures
        ({
            let result = imported(document, name, width, height, pixels);
            let source = if index < document.layers.len() {
                document.layers[index]
            } else {
                LayerView { name, visible: true, opacity: 255, width, height, pixels }
            };
            let offset_x = (result.width - source.width) / 2;
            let offset_y = (result.height - source.height) / 2;
            result.layers[index].pixels[pixel_index(result.width, x + offset_x, y + offset_y)]
                == source.pixels[pixel_index(source.width, x, y)]
        }),
{
    let result = imported(document, name, width, height, pixels);
    let image = LayerView { name, visible: true, opacity: 255, width, height, pixels };
    let source = if index < document.layers.len() { document.layers[index] } else { image };
    if index < document.layers.len() {
        assert(layer_fits(document.layers[index], document.width, document.height));
        assert(result.layers[index] == centered_layer(document.layers[index], result.width, result.height));
    } else {
        assert(result.layers[index] == centered_layer(image, result.width, result.height));
    }
    let big_width = result.width as int;
    let big_height = result.height as int;
    let offset_x = (big_width - source.width) / 2;
    let offset_y = (big_height - source.height) / 2;
    let column = x + offset_x;
    let row = y + offset_y;
    assert(0 <= column < big_width);
    assert(0 <= row < big_height);
    let position = pixel_index(result.width, column, row);
    vstd::arithmetic::div_mod::lemma_fundamental_div_mod_converse(position, big_width, row, column);
    crate::graphics::framebuffer::lemma_row_index(column, row, big_width, big_height);
    assert(big_width * big_height == (result.width as nat * result.height as nat) as int);
}

} // verus!
