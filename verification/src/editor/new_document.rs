//! The new-document screen: its size presets, the placement of its controls
//! in a window of any size, and the validation of the typed dimensions.

use vstd::prelude::*;

use crate::document::DocumentError;
use crate::graphics::color::Color;
use crate::graphics::rect::Rect;
use crate::support::{decimal_chars, decimal_string, parse_decimal, parse_u32};
use crate::ui::{is_control, is_control_char};
use vstd::string::StringExecFns;

verus! {

pub const WIDTH_INPUT: u32 = 1;
pub const HEIGHT_INPUT: u32 = 2;
pub const TRANSPARENT_RADIO: u32 = 3;
pub const COLOR_RADIO: u32 = 4;
pub const CANCEL_BUTTON: u32 = 5;
pub const CREATE_BUTTON: u32 = 6;
pub const OPEN_DOCUMENT_BUTTON: u32 = 35;
pub const RESET_WHITE_BUTTON: u32 = 39;
/// This id and the four after it are reserved for the controls of a
/// background color picker; no widget here uses them.
pub const COLOR_PICKER_BASE: u32 = 40;
/// Preset buttons use this id plus their index.
pub const PRESET_BASE: u32 = 100;
pub const PRESET_COUNT: usize = 12;
/// Pixels per inch of the postcard preset.
pub const POSTAL_PPI: u32 = 300;
/// The largest width or height a new document may have.
pub const MAX_DOCUMENT_SIZE: u32 = 16_384;

/// A named document size.
pub struct Preset {
    pub name: &'static str,
    pub width: u32,
    pub height: u32,
}

/// Pixels for a length in millimeters at `POSTAL_PPI`, rounded to nearest.
pub open spec fn millimeters_in_pixels(mm: int) -> int {
    (mm * POSTAL_PPI * 10 + 127) / 254
}

pub fn millimeters_to_pixels(mm: u32) -> (pixels: u32)
    requires
        mm <= 1_000_000,
    ensures
        pixels == millimeters_in_pixels(mm as int),
{
    (mm * POSTAL_PPI * 10 + 127) / 254
}

/// The width and height of each preset, in order: square, SVGA, XGA, WXGA+,
/// SXGA, WSXGA+, UXGA, FHD, WUXGA, 4K, a 100 x 148 mm postcard and a sticker.
pub open spec fn preset_size(index: int) -> (u32, u32) {
    if index == 0 {
        (1000, 1000)
    } else if index == 1 {
        (800, 600)
    } else if index == 2 {
        (1024, 768)
    } else if index == 3 {
        (1440, 900)
    } else if index == 4 {
        (1280, 1024)
    } else if index == 5 {
        (1680, 1050)
    } else if index == 6 {
        (1600, 1200)
    } else if index == 7 {
        (1920, 1080)
    } else if index == 8 {
        (1920, 1200)
    } else if index == 9 {
        (3840, 2160)
    } else if index == 10 {
        (millimeters_in_pixels(100) as u32, millimeters_in_pixels(148) as u32)
    } else {
        (370, 320)
    }
}

/// The name shown for each preset, in the order of `preset_size`.
pub open spec fn preset_name(index: int) -> Seq<char> {
    if index == 0 {
        "SQUARE"@
    } else if index == 1 {
        "SVGA"@
    } else if index == 2 {
        "XGA"@
    } else if index == 3 {
        "WXGA+"@
    } else if index == 4 {
        "SXGA"@
    } else if index == 5 {
        "WSXGA+"@
    } else if index == 6 {
        "UXGA"@
    } else if index == 7 {
        "FHD"@
    } else if index == 8 {
        "WUXGA"@
    } else if index == 9 {
        "4K"@
    } else if index == 10 {
        "POSTAL"@
    } else {
        "STICKER"@
    }
}

/// The preset at `index`.
pub fn preset(index: usize) -> (preset: Preset)
    requires
        index < PRESET_COUNT,
    ensures
        (preset.width, preset.height) == preset_size(index as int),
        preset.name@ == preset_name(index as int),
{
    if index == 0 {
        Preset { name: "SQUARE", width: 1000, height: 1000 }
    } else if index == 1 {
        Preset { name: "SVGA", width: 800, height: 600 }
    } else if index == 2 {
        Preset { name: "XGA", width: 1024, height: 768 }
    } else if index == 3 {
        Preset { name: "WXGA+", width: 1440, height: 900 }
    } else if index == 4 {
        Preset { name: "SXGA", width: 1280, height: 1024 }
    } else if index == 5 {
        Preset { name: "WSXGA+", width: 1680, height: 1050 }
    } else if index == 6 {
        Preset { name: "UXGA", width: 1600, height: 1200 }
    } else if index == 7 {
        Preset { name: "FHD", width: 1920, height: 1080 }
    } else if index == 8 {
        Preset { name: "WUXGA", width: 1920, height: 1200 }
    } else if index == 9 {
        Preset { name: "4K", width: 3840, height: 2160 }
    } else if index == 10 {
        Preset { name: "POSTAL", width: millimeters_to_pixels(100), height: millimeters_to_pixels(148) }
    } else {
        Preset { name: "STICKER", width: 370, height: 320 }
    }
}

/// The index of the first preset from `index` on with the given size.
pub open spec fn first_preset_from(index: int, width: u32, height: u32) -> Option<usize>
    decreases PRESET_COUNT - index,
{
    if index >= PRESET_COUNT || index < 0 {
        None
    } else if preset_size(index) == (width, height) {
        Some(index as usize)
    } else {
        first_preset_from(index + 1, width, height)
    }
}

/// The index of the first preset with the typed dimensions, when both parse.
pub open spec fn selected_preset_for(width_input: Seq<char>, height_input: Seq<char>) -> Option<usize> {
    match (parse_u32(width_input), parse_u32(height_input)) {
        (Some(width), Some(height)) => first_preset_from(0, width, height),
        _ => None,
    }
}

/// Which preset the typed dimensions select, if any.
pub fn selected_preset(width_input: &str, height_input: &str) -> (selected: Option<usize>)
    ensures
        selected == selected_preset_for(width_input@, height_input@),
{
    let width = match parse_decimal(width_input, 0) {
        Some(width) => width,
        None => {
            assert(width_input@.subrange(0, width_input@.len() as int) =~= width_input@);
            return None;
        },
    };
    let height = match parse_decimal(height_input, 0) {
        Some(height) => height,
        None => {
            assert(height_input@.subrange(0, height_input@.len() as int) =~= height_input@);
            return None;
        },
    };
    assert(width_input@.subrange(0, width_input@.len() as int) =~= width_input@);
    assert(height_input@.subrange(0, height_input@.len() as int) =~= height_input@);
    let mut index: usize = 0;
    while index < PRESET_COUNT
        invariant
            index <= PRESET_COUNT,
            first_preset_from(0, width, height) == first_preset_from(index as int, width, height),
            selected_preset_for(width_input@, height_input@) == first_preset_from(0, width, height),
        decreases PRESET_COUNT - index,
    {
        let candidate = preset(index);
        if candidate.width == width && candidate.height == height {
            return Some(index);
        }
        index += 1;
    }
    None
}

/// Why the typed dimensions cannot make a document.
#[derive(Clone, Copy, Debug, PartialEq, Eq, Structural)]
pub enum DimensionError {
    WidthNotNumeric,
    HeightNotNumeric,
    Zero,
    TooLarge,
}

impl DimensionError {
    /// The notice shown under the fields.
    pub fn message(self) -> (message: &'static str)
        ensures
            message@ == match self {
                DimensionError::WidthNotNumeric => "ENTER NUMERIC WIDTH"@,
                DimensionError::HeightNotNumeric => "ENTER NUMERIC HEIGHT"@,
                DimensionError::Zero => "SIZE MUST BE ABOVE 0"@,
                DimensionError::TooLarge => "MAX SIZE IS 16384"@,
            },
    {
        match self {
            DimensionError::WidthNotNumeric => "ENTER NUMERIC WIDTH",
            DimensionError::HeightNotNumeric => "ENTER NUMERIC HEIGHT",
            DimensionError::Zero => "SIZE MUST BE ABOVE 0",
            DimensionError::TooLarge => "MAX SIZE IS 16384",
        }
    }
}

/// The checks on the typed dimensions, in order.
pub open spec fn dimensions_result(width_input: Seq<char>, height_input: Seq<char>) -> Result<(u32, u32), DimensionError> {
    match parse_u32(width_input) {
        None => Err(DimensionError::WidthNotNumeric),
        Some(width) => match parse_u32(height_input) {
            None => Err(DimensionError::HeightNotNumeric),
            Some(height) => if width == 0 || height == 0 {
                Err(DimensionError::Zero)
            } else if width > MAX_DOCUMENT_SIZE || height > MAX_DOCUMENT_SIZE {
                Err(DimensionError::TooLarge)
            } else {
                Ok((width, height))
            },
        },
    }
}

/// Reads the typed width and height: both must be decimal numbers, above
/// zero and at most `MAX_DOCUMENT_SIZE`.
pub fn validate_dimensions(width_input: &str, height_input: &str) -> (result: Result<(u32, u32), DimensionError>)
    ensures
        result == dimensions_result(width_input@, height_input@),
{
    assert(width_input@.subrange(0, width_input@.len() as int) =~= width_input@);
    assert(height_input@.subrange(0, height_input@.len() as int) =~= height_input@);
    let width = match parse_decimal(width_input, 0) {
        Some(width) => width,
        None => return Err(DimensionError::WidthNotNumeric),
    };
    let height = match parse_decimal(height_input, 0) {
        Some(height) => height,
        None => return Err(DimensionError::HeightNotNumeric),
    };
    if width == 0 || height == 0 {
        return Err(DimensionError::Zero);
    }
    if width > MAX_DOCUMENT_SIZE || height > MAX_DOCUMENT_SIZE {
        return Err(DimensionError::TooLarge);
    }
    Ok((width, height))
}

pub open spec fn creation_error_text(error: DocumentError) -> Seq<char> {
    match error {
        DocumentError::TooLarge => "MAX 64 MILLION PIXELS"@,
        DocumentError::AllocationFailed => "NOT ENOUGH MEMORY"@,
        DocumentError::InvalidDimensions => "SIZE MUST BE ABOVE 0"@,
    }
}

/// The notice for a document that could not be created.
pub fn creation_error_message(error: DocumentError) -> (message: &'static str)
    ensures
        message@ == creation_error_text(error),
{
    match error {
        DocumentError::TooLarge => "MAX 64 MILLION PIXELS",
        DocumentError::AllocationFailed => "NOT ENOUGH MEMORY",
        DocumentError::InvalidDimensions => "SIZE MUST BE ABOVE 0",
    }
}

/// Where the controls of the new-document panel go.
#[derive(Clone, Copy, Debug)]
pub struct Layout {
    pub panel: Rect,
    pub sizes: Rect,
    pub width: Rect,
    pub height: Rect,
    pub background: (i32, i32),
    pub picker: Rect,
    pub open: Rect,
    pub cancel: Rect,
    pub create: Rect,
    pub maximum_scroll: i32,
}

pub open spec fn clamp_int(value: int, low: int, high: int) -> int {
    if value < low {
        low
    } else if value > high {
        high
    } else {
        value
    }
}

/// The panel's width: the window less a 16-pixel margin on each side, kept
/// between 360 and 820.
pub open spec fn panel_width(window_width: u32) -> int {
    let available = if window_width >= 32 { window_width - 32 } else { 0 };
    clamp_int(available, 360, 820)
}

/// The layout of the panel for a window size and a scroll offset: centered,
/// two columns when at least 740 pixels wide and one otherwise, and scrolled
/// when taller than the window.
pub open spec fn layout_for(window: (u32, u32), scroll: i32) -> Layout {
    let width = panel_width(window.0);
    let wide = width >= 740;
    let height: int = if wide { 560 } else { 984 };
    let maximum_scroll = if height + 32 > window.1 { height + 32 - window.1 } else { 0 };
    let x = (if window.0 > width { window.0 - width } else { 0 }) / 2;
    let centered = if window.1 >= height { (window.1 - height) / 2 } else { 0 };
    let y = (if centered >= 16 { centered } else { 16 }) - clamp_int(scroll as int, 0, maximum_scroll);
    let sizes_width = if wide { width - 372 } else { width - 48 };
    let field_width = (sizes_width - 12) / 2;
    let background = if wide { (x + width - 324, y + 80) } else { (x + 24, y + 490) };
    let footer_y = y + height - 52;
    let button_width = (width - 72) / 3;
    Layout {
        panel: Rect { x: x as i32, y: y as i32, width: width as u32, height: height as u32 },
        sizes: Rect { x: (x + 24) as i32, y: (y + 104) as i32, width: sizes_width as u32, height: 270 },
        width: Rect { x: (x + 24) as i32, y: (y + 418) as i32, width: field_width as u32, height: 34 },
        height: Rect { x: (x + 36 + field_width) as i32, y: (y + 418) as i32, width: field_width as u32, height: 34 },
        background: (background.0 as i32, background.1 as i32),
        picker: Rect { x: background.0 as i32, y: (background.1 + 63) as i32, width: 184, height: 184 },
        open: Rect { x: (x + 24) as i32, y: footer_y as i32, width: button_width as u32, height: 32 },
        cancel: Rect { x: (x + 36 + button_width) as i32, y: footer_y as i32, width: button_width as u32, height: 32 },
        create: Rect {
            x: (x + 48 + button_width * 2) as i32,
            y: footer_y as i32,
            width: button_width as u32,
            height: 32,
        },
        maximum_scroll: maximum_scroll as i32,
    }
}

/// Window sizes come from a signed 32-bit client rectangle.
pub open spec fn window_fits(window: (u32, u32)) -> bool {
    window.0 <= i32::MAX && window.1 <= i32::MAX
}

impl Layout {
    pub fn new(window: (u32, u32), scroll: i32) -> (layout: Layout)
        requires
            window_fits(window),
        ensures
            layout == layout_for(window, scroll),
    {
        let available = if window.0 >= 32 { window.0 - 32 } else { 0 };
        let width: u32 = if available < 360 { 360 } else if available > 820 { 820 } else { available };
        let wide = width >= 740;
        let height: u32 = if wide { 560 } else { 984 };
        let maximum_scroll: i32 = if height as i64 + 32 > window.1 as i64 {
            (height as i64 + 32 - window.1 as i64) as i32
        } else {
            0
        };
        let x: i32 = ((if window.0 > width { window.0 - width } else { 0 }) / 2) as i32;
        let centered: i64 = if window.1 >= height { ((window.1 - height) / 2) as i64 } else { 0 };
        let clamped_scroll: i32 = if scroll < 0 { 0 } else if scroll > maximum_scroll { maximum_scroll } else { scroll };
        let y: i32 = ((if centered >= 16 { centered } else { 16 }) - clamped_scroll as i64) as i32;
        let sizes_width: u32 = if wide { width - 372 } else { width - 48 };
        let field_width: u32 = (sizes_width - 12) / 2;
        let background: (i32, i32) = if wide {
            (x + width as i32 - 324, y + 80)
        } else {
            (x + 24, y + 490)
        };
        let footer_y: i32 = y + height as i32 - 52;
        let button_width: u32 = (width - 72) / 3;
        Layout {
            panel: Rect::new(x, y, width, height),
            sizes: Rect::new(x + 24, y + 104, sizes_width, 270),
            width: Rect::new(x + 24, y + 418, field_width, 34),
            height: Rect::new(x + 36 + field_width as i32, y + 418, field_width, 34),
            background,
            picker: Rect::new(background.0, background.1 + 63, 184, 184),
            open: Rect::new(x + 24, footer_y, button_width, 32),
            cancel: Rect::new(x + 36 + button_width as i32, footer_y, button_width, 32),
            create: Rect::new(x + 48 + button_width as i32 * 2, footer_y, button_width, 32),
            maximum_scroll,
        }
    }

    /// The panel stays within the coordinate range that a window allows.
    pub open spec fn wf(self) -> bool {
        &&& 312 <= self.sizes.width <= 691
        &&& 0 <= self.sizes.x <= 0x4000_1000
        &&& -2000 <= self.sizes.y <= 0x4000_1000
        &&& 0 <= self.background.0 <= 0x4000_1000
        &&& -2000 <= self.background.1 <= 0x4000_1000
        &&& self.picker == (Rect { x: self.background.0, y: (self.background.1 + 63) as i32, width: 184, height: 184 })
    }

    /// The rectangle of preset button `index`: two columns, 46 pixels per row.
    pub fn preset(&self, index: usize) -> (rect: Rect)
        requires
            self.wf(),
            index < 0x100_0000,
        ensures
            rect == (Rect {
                x: (self.sizes.x + (index % 2) as int * ((self.sizes.width - 12) / 2 + 12)) as i32,
                y: (self.sizes.y + (index / 2) as int * 46) as i32,
                width: ((self.sizes.width - 12) / 2) as u32,
                height: 40,
            }),
    {
        let width = (self.sizes.width - 12) / 2;
        let column = (index % 2) as i32;
        let row = (index / 2) as i32;
        let span: i32 = width as i32 + 12;
        assert(0 <= column * span <= 1 * 351) by (nonlinear_arith)
            requires 0 <= column <= 1, 0 <= span <= 351;
        assert(0 <= row * 46 <= 0x80_0000 * 46) by (nonlinear_arith)
            requires 0 <= row <= 0x80_0000;
        Rect::new(self.sizes.x + column * span, self.sizes.y + row * 46, width, 40)
    }

    /// The rectangle of the control with `id`, for bringing it into view.
    pub fn control(&self, id: u32) -> (rect: Option<Rect>)
        requires
            self.wf(),
        ensures
            rect == self.control_rect(id),
    {
        let (x, y) = self.background;
        if id == WIDTH_INPUT {
            Some(self.width)
        } else if id == HEIGHT_INPUT {
            Some(self.height)
        } else if id == COLOR_RADIO || id == TRANSPARENT_RADIO {
            Some(Rect::new(x, y + 27, 300, 20))
        } else if id == RESET_WHITE_BUTTON {
            Some(Rect::new(x + 200, y + 63, 100, 32))
        } else if id == OPEN_DOCUMENT_BUTTON {
            Some(self.open)
        } else if id == CANCEL_BUTTON {
            Some(self.cancel)
        } else if id == CREATE_BUTTON {
            Some(self.create)
        } else if PRESET_BASE <= id && id < PRESET_BASE + PRESET_COUNT as u32 {
            Some(self.preset((id - PRESET_BASE) as usize))
        } else if id == COLOR_PICKER_BASE {
            Some(self.picker)
        } else if id == COLOR_PICKER_BASE + 1 {
            Some(Rect::new(self.picker.x, self.picker.y + self.picker.height as i32 + 26, self.picker.width, 16))
        } else if COLOR_PICKER_BASE + 2 <= id && id < COLOR_PICKER_BASE + 5 {
            Some(
                Rect::new(
                    self.picker.x,
                    self.picker.y + self.picker.height as i32 + 95 + (id - COLOR_PICKER_BASE - 2) as i32 * 20,
                    self.picker.width,
                    16,
                ),
            )
        } else {
            None
        }
    }

    pub open spec fn control_rect(self, id: u32) -> Option<Rect> {
        let (x, y) = self.background;
        if id == WIDTH_INPUT {
            Some(self.width)
        } else if id == HEIGHT_INPUT {
            Some(self.height)
        } else if id == COLOR_RADIO || id == TRANSPARENT_RADIO {
            Some(Rect { x, y: (y + 27) as i32, width: 300, height: 20 })
        } else if id == RESET_WHITE_BUTTON {
            Some(Rect { x: (x + 200) as i32, y: (y + 63) as i32, width: 100, height: 32 })
        } else if id == OPEN_DOCUMENT_BUTTON {
            Some(self.open)
        } else if id == CANCEL_BUTTON {
            Some(self.cancel)
        } else if id == CREATE_BUTTON {
            Some(self.create)
        } else if PRESET_BASE <= id < PRESET_BASE + PRESET_COUNT {
            let index = id - PRESET_BASE;
            Some(
                Rect {
                    x: (self.sizes.x + (index % 2) * ((self.sizes.width - 12) / 2 + 12)) as i32,
                    y: (self.sizes.y + (index / 2) * 46) as i32,
                    width: ((self.sizes.width - 12) / 2) as u32,
                    height: 40,
                },
            )
        } else if id == COLOR_PICKER_BASE {
            Some(self.picker)
        } else if id == COLOR_PICKER_BASE + 1 {
            Some(Rect { x: self.picker.x, y: (self.picker.y + self.picker.height + 26) as i32, width: self.picker.width, height: 16 })
        } else if COLOR_PICKER_BASE + 2 <= id < COLOR_PICKER_BASE + 5 {
            Some(
                Rect {
                    x: self.picker.x,
                    y: (self.picker.y + self.picker.height + 95 + (id - COLOR_PICKER_BASE - 2) * 20) as i32,
                    width: self.picker.width,
                    height: 16,
                },
            )
        } else {
            None
        }
    }
}

/// The scroll offset that brings `rect` into a window `window_height` high,
/// keeping a 16-pixel margin, within `0..=maximum_scroll`.
pub open spec fn revealing_scroll(window_height: u32, scroll: i32, maximum_scroll: i32, rect: Rect) -> int {
    let bottom = rect.y + rect.height;
    let viewport_bottom = window_height - 16;
    let shift = if rect.y < 16 {
        rect.y - 16
    } else if bottom > viewport_bottom {
        bottom - viewport_bottom
    } else {
        0
    };
    clamp_int(scroll + shift, 0, maximum_scroll as int)
}

/// Scrolls the panel so that the focused control's rectangle shows.
pub fn reveal_scroll(window_height: u32, scroll: i32, maximum_scroll: i32, rect: Rect) -> (revealed: i32)
    requires
        0 <= maximum_scroll,
    ensures
        revealed == revealing_scroll(window_height, scroll, maximum_scroll, rect),
{
    let bottom = rect.y as i64 + rect.height as i64;
    let viewport_bottom = window_height as i64 - 16;
    let shift: i64 = if (rect.y as i64) < 16 {
        rect.y as i64 - 16
    } else if bottom > viewport_bottom {
        bottom - viewport_bottom
    } else {
        0
    };
    let target = scroll as i64 + shift;
    if target < 0 {
        0
    } else if target > maximum_scroll as i64 {
        maximum_scroll
    } else {
        target as i32
    }
}

/// Every layout of a window that fits is well formed.
pub proof fn lemma_layout_wf(window: (u32, u32), scroll: i32)
    requires
        window_fits(window),
    ensures
        layout_for(window, scroll).wf(),
{
}

/// The background of a new document's bottom layer.
#[derive(Clone, Copy, Debug, PartialEq, Eq, Structural)]
pub enum Background {
    Transparent,
    Color,
}

/// What the new-document screen holds between frames.
pub struct NewDocumentForm {
    pub width_input: String,
    pub height_input: String,
    pub background: Background,
    pub background_color: Color,
    pub background_hue: u32,
    pub validation_error: Option<&'static str>,
    pub scroll: i32,
}

impl NewDocumentForm {
    /// Full HD on a white background.
    pub fn new() -> (form: NewDocumentForm)
        ensures
            form.width_input@ == "1920"@,
            form.height_input@ == "1080"@,
            form.background == Background::Color,
            form.background_color == Color::from_channels(255, 255, 255, 255),
            form.background_hue == 0,
            form.validation_error is None,
            form.scroll == 0,
    {
        NewDocumentForm {
            width_input: <String as StringExecFns>::from_str("1920"),
            height_input: <String as StringExecFns>::from_str("1080"),
            background: Background::Color,
            background_color: Color::rgb(255, 255, 255),
            background_hue: 0,
            validation_error: None,
            scroll: 0,
        }
    }

    /// The color the bottom layer is filled with.
    pub fn background_fill(&self) -> (fill: Color)
        ensures
            fill == match self.background {
                Background::Transparent => Color::from_channels(0, 0, 0, 0),
                Background::Color => self.background_color,
            },
    {
        match self.background {
            Background::Transparent => Color::rgba(0, 0, 0, 0),
            Background::Color => self.background_color,
        }
    }

    /// Which preset the typed dimensions select.
    pub fn selected_preset(&self) -> (selected: Option<usize>)
        ensures
            selected == selected_preset_for(self.width_input@, self.height_input@),
    {
        selected_preset(self.width_input.as_str(), self.height_input.as_str())
    }

    /// Fills the dimension fields from preset `index` and clears the notice.
    pub fn select_preset(&mut self, index: usize)
        requires
            index < PRESET_COUNT,
        ensures
            final(self).width_input@ == decimal_chars(preset_size(index as int).0 as nat),
            final(self).height_input@ == decimal_chars(preset_size(index as int).1 as nat),
            final(self).validation_error is None,
            final(self).background == old(self).background,
            final(self).background_color == old(self).background_color,
            final(self).background_hue == old(self).background_hue,
            final(self).scroll == old(self).scroll,
    {
        let chosen = preset(index);
        self.width_input = decimal_string(chosen.width);
        self.height_input = decimal_string(chosen.height);
        self.validation_error = None;
    }

    /// The white button: a white background again.
    pub fn reset_white(&mut self)
        ensures
            final(self).background == Background::Color,
            final(self).background_color == Color::from_channels(255, 255, 255, 255),
            final(self).background_hue == 0,
            final(self).width_input == old(self).width_input,
            final(self).height_input == old(self).height_input,
            final(self).validation_error == old(self).validation_error,
            final(self).scroll == old(self).scroll,
    {
        self.background = Background::Color;
        self.background_color = Color::rgb(255, 255, 255);
        self.background_hue = 0;
    }

    /// Typing or deleting in a field hides the last notice.
    pub fn edited(&mut self, typed: Option<char>, backspace: bool)
        ensures
            final(self).validation_error == if backspace || (typed matches Some(c) && !is_control_char(c)) {
                None
            } else {
                old(self).validation_error
            },
            final(self).width_input == old(self).width_input,
            final(self).height_input == old(self).height_input,
            final(self).background == old(self).background,
            final(self).background_color == old(self).background_color,
            final(self).background_hue == old(self).background_hue,
            final(self).scroll == old(self).scroll,
    {
        let hides = backspace || match typed {
            Some(c) => !is_control(c),
            None => false,
        };
        if hides {
            self.validation_error = None;
        }
    }

    /// Scrolls the panel by `delta` pixels, within its range for the window.
    pub fn scroll_by(&mut self, delta: i32, window: (u32, u32))
        requires
            window_fits(window),
        ensures
            final(self).scroll == clamp_int(
                old(self).scroll as int + delta as int,
                0,
                layout_for(window, old(self).scroll).maximum_scroll as int,
            ),
            final(self).width_input == old(self).width_input,
            final(self).height_input == old(self).height_input,
            final(self).validation_error == old(self).validation_error,
            final(self).background == old(self).background,
            final(self).background_color == old(self).background_color,
            final(self).background_hue == old(self).background_hue,
    {
        let layout = Layout::new(window, self.scroll);
        let target = self.scroll as i64 + delta as i64;
        self.scroll = if target < 0 {
            0
        } else if target > layout.maximum_scroll as i64 {
            layout.maximum_scroll
        } else {
            target as i32
        };
    }

    /// Scrolls the panel so that the control with id `focused` shows.
    pub fn reveal_focus(&mut self, focused: u32, window: (u32, u32))
        requires
            window_fits(window),
        ensures
            final(self).scroll == match layout_for(window, old(self).scroll).control_rect(focused) {
                Some(rect) => revealing_scroll(
                    window.1,
                    old(self).scroll,
                    layout_for(window, old(self).scroll).maximum_scroll,
                    rect,
                ),
                None => old(self).scroll as int,
            },
            final(self).width_input == old(self).width_input,
            final(self).height_input == old(self).height_input,
            final(self).validation_error == old(self).validation_error,
            final(self).background == old(self).background,
            final(self).background_color == old(self).background_color,
            final(self).background_hue == old(self).background_hue,
    {
        let layout = Layout::new(window, self.scroll);
        proof {
            lemma_layout_wf(window, self.scroll);
        }
        match layout.control(focused) {
            Some(rect) => {
                self.scroll = reveal_scroll(window.1, self.scroll, layout.maximum_scroll, rect);
            },
            None => {},
        }
    }
}

} // verus!
