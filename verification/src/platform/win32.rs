//! The parts of Win32 message handling that are plain arithmetic on message
//! parameters: coordinates, pointer ids, keys, buttons and UTF-16 text.

#![allow(non_snake_case, non_camel_case_types)]

use vstd::prelude::*;

use crate::document::{lemma_u32_product, MAX_PIXELS};
use crate::support::{char_from_u32, is_scalar_value};

use super::{Key, MouseButton};

verus! {

pub const WM_LBUTTONDOWN: u32 = 0x0201;
pub const WM_LBUTTONUP: u32 = 0x0202;
pub const WM_RBUTTONDOWN: u32 = 0x0204;
pub const WM_RBUTTONUP: u32 = 0x0205;
pub const VK_BACK: u32 = 0x08;
pub const VK_TAB: u32 = 0x09;
pub const VK_RETURN: u32 = 0x0d;
pub const VK_SHIFT: u32 = 0x10;
pub const VK_CONTROL: u32 = 0x11;
pub const VK_MENU: u32 = 0x12;
pub const VK_ESCAPE: u32 = 0x1b;
pub const VK_SPACE: u32 = 0x20;
pub const VK_PRIOR: u32 = 0x21;
pub const VK_NEXT: u32 = 0x22;
pub const VK_END: u32 = 0x23;
pub const VK_HOME: u32 = 0x24;
pub const VK_LEFT: u32 = 0x25;
pub const VK_UP: u32 = 0x26;
pub const VK_RIGHT: u32 = 0x27;
pub const VK_DOWN: u32 = 0x28;
pub const VK_DELETE: u32 = 0x2e;
pub const BI_RGB: u32 = 0;

/// The Unicode replacement character, U+FFFD.
pub const REPLACEMENT_CHARACTER: char = '\u{fffd}';

#[derive(Clone, Copy, Debug, Default, PartialEq, Eq, Structural)]
pub struct POINT {
    pub x: i32,
    pub y: i32,
}

#[derive(Clone, Copy, Debug, Default, PartialEq, Eq, Structural)]
pub struct RECT {
    pub left: i32,
    pub top: i32,
    pub right: i32,
    pub bottom: i32,
}

#[derive(Clone, Copy, Debug, PartialEq, Eq, Structural)]
pub struct BITMAPINFOHEADER {
    pub biSize: u32,
    pub biWidth: i32,
    pub biHeight: i32,
    pub biPlanes: u16,
    pub biBitCount: u16,
    pub biCompression: u32,
    pub biSizeImage: u32,
    pub biXPelsPerMeter: i32,
    pub biYPelsPerMeter: i32,
    pub biClrUsed: u32,
    pub biClrImportant: u32,
}

#[derive(Clone, Copy, Debug, PartialEq, Eq, Structural)]
pub struct RGBQUAD {
    pub rgbBlue: u8,
    pub rgbGreen: u8,
    pub rgbRed: u8,
    pub rgbReserved: u8,
}

#[derive(Clone, Copy, Debug)]
pub struct BITMAPINFO {
    pub bmiHeader: BITMAPINFOHEADER,
    pub bmiColors: [RGBQUAD; 1],
}

#[derive(Clone, Copy, Debug, PartialEq, Eq, Structural)]
pub struct GDIP_RECT {
    pub X: i32,
    pub Y: i32,
    pub Width: i32,
    pub Height: i32,
}

/// Mouse coordinates are signed 16-bit values packed into `LPARAM`; this is
/// the low one: the low 16 bits read as a two's-complement `i16`.
pub fn signed_low_word(value: isize) -> (word: i32)
    ensures
        word == (value as u16) as i16,
{
    (value as u16) as i16 as i32
}

/// The high word of the low 32 bits of `value`, read as a two's-complement
/// `i16`.
pub fn signed_high_word(value: usize) -> (word: i32)
    ensures
        word == ((value / 0x1_0000) as u16) as i16,
{
    let shifted = value >> 16usize;
    assert(shifted == value / 0x1_0000) by (bit_vector)
        requires shifted == value >> 16usize;
    (shifted as u16) as i16 as i32
}

/// The pointer id of a `WM_POINTER*` message: the low 16 bits of `wParam`.
pub fn pointer_id(wparam: usize) -> (id: u32)
    ensures
        id == wparam as int % 0x1_0000,
{
    let id = (wparam & 0xffff) as u32;
    assert(id == wparam as int % 0x1_0000) by (bit_vector)
        requires id == (wparam & 0xffff) as u32;
    id
}

/// A screen position relative to the client area's origin.
pub fn client_location(location: POINT, origin: POINT) -> (client: POINT)
    requires
        i32::MIN <= location.x - origin.x <= i32::MAX,
        i32::MIN <= location.y - origin.y <= i32::MAX,
    ensures
        client.x == location.x - origin.x,
        client.y == location.y - origin.y,
{
    POINT { x: location.x - origin.x, y: location.y - origin.y }
}

/// The button of a mouse message: left and right by their messages, any
/// other (the middle button's) as middle.
pub fn mouse_button(message: u32) -> (button: MouseButton)
    ensures
        button == if message == WM_LBUTTONDOWN || message == WM_LBUTTONUP {
            MouseButton::Left
        } else if message == WM_RBUTTONDOWN || message == WM_RBUTTONUP {
            MouseButton::Right
        } else {
            MouseButton::Middle
        },
{
    if message == WM_LBUTTONDOWN || message == WM_LBUTTONUP {
        MouseButton::Left
    } else if message == WM_RBUTTONDOWN || message == WM_RBUTTONUP {
        MouseButton::Right
    } else {
        MouseButton::Middle
    }
}

/// The key for a Win32 virtual-key code; for a letter, only its kind is
/// given here (the letter is the one whose code point is the code).
pub open spec fn virtual_key(key: u32) -> Key {
    if key == VK_BACK {
        Key::Backspace
    } else if key == VK_TAB {
        Key::Tab
    } else if key == VK_RETURN {
        Key::Enter
    } else if key == VK_SHIFT {
        Key::Shift
    } else if key == VK_CONTROL {
        Key::Control
    } else if key == VK_MENU {
        Key::Alt
    } else if key == VK_ESCAPE {
        Key::Escape
    } else if key == VK_SPACE {
        Key::Space
    } else if key == VK_PRIOR {
        Key::PageUp
    } else if key == VK_NEXT {
        Key::PageDown
    } else if key == VK_END {
        Key::End
    } else if key == VK_HOME {
        Key::Home
    } else if key == VK_LEFT {
        Key::Left
    } else if key == VK_UP {
        Key::Up
    } else if key == VK_RIGHT {
        Key::Right
    } else if key == VK_DOWN {
        Key::Down
    } else if key == VK_DELETE {
        Key::Delete
    } else if 0x30 <= key <= 0x39 {
        Key::Digit((key - 0x30) as u8)
    } else if 0x41 <= key <= 0x5a {
        Key::Letter('A')
    } else if 0x70 <= key <= 0x87 {
        Key::Function((key - 0x70 + 1) as u8)
    } else {
        Key::Unknown(key)
    }
}

/// Translates a virtual-key code: named keys, digits `0`-`9`, letters
/// `A`-`Z` (whose codes are their own code points), function keys F1-F24,
/// and anything else as unknown.
pub fn key_from_virtual(key: u32) -> (translated: Key)
    ensures
        0x41 <= key <= 0x5a ==> (translated matches Key::Letter(letter) && letter as u32 == key),
        !(0x41 <= key <= 0x5a) ==> translated == virtual_key(key),
{
    if key == VK_BACK {
        Key::Backspace
    } else if key == VK_TAB {
        Key::Tab
    } else if key == VK_RETURN {
        Key::Enter
    } else if key == VK_SHIFT {
        Key::Shift
    } else if key == VK_CONTROL {
        Key::Control
    } else if key == VK_MENU {
        Key::Alt
    } else if key == VK_ESCAPE {
        Key::Escape
    } else if key == VK_SPACE {
        Key::Space
    } else if key == VK_PRIOR {
        Key::PageUp
    } else if key == VK_NEXT {
        Key::PageDown
    } else if key == VK_END {
        Key::End
    } else if key == VK_HOME {
        Key::Home
    } else if key == VK_LEFT {
        Key::Left
    } else if key == VK_UP {
        Key::Up
    } else if key == VK_RIGHT {
        Key::Right
    } else if key == VK_DOWN {
        Key::Down
    } else if key == VK_DELETE {
        Key::Delete
    } else if 0x30 <= key && key <= 0x39 {
        Key::Digit((key - 0x30) as u8)
    } else if 0x41 <= key && key <= 0x5a {
        match char_from_u32(key) {
            Some(letter) => Key::Letter(letter),
            None => Key::Unknown(key),
        }
    } else if 0x70 <= key && key <= 0x87 {
        Key::Function((key - 0x70 + 1) as u8)
    } else {
        Key::Unknown(key)
    }
}

/// The UTF-16 code units of `text`.
pub open spec fn utf16_units(text: Seq<char>) -> Seq<u16>
    decreases text.len(),
{
    if text.len() == 0 {
        Seq::empty()
    } else {
        utf16_units(text.drop_last()) + utf16_of(text.last())
    }
}

/// The one or two UTF-16 code units of a character.
pub open spec fn utf16_of(character: char) -> Seq<u16> {
    let value = character as u32;
    if value < 0x1_0000 {
        seq![value as u16]
    } else {
        let offset = value - 0x1_0000;
        seq![(0xd800 + offset / 0x400) as u16, (0xdc00 + offset % 0x400) as u16]
    }
}

/// `value` as a null-terminated UTF-16 string, as Win32 takes text.
pub fn wide(value: &str) -> (units: Vec<u16>)
    ensures
        units@ == utf16_units(value@).push(0),
{
    let length = value.unicode_len();
    let mut units: Vec<u16> = Vec::new();
    let mut i: usize = 0;
    while i < length
        invariant
            length == value@.len(),
            i <= length,
            units@ == utf16_units(value@.subrange(0, i as int)),
        decreases length - i,
    {
        let character = value.get_char(i);
        let code = character as u32;
        proof {
            assert(value@.subrange(0, i + 1).drop_last() =~= value@.subrange(0, i as int));
            assert(value@.subrange(0, i + 1).last() == character);
        }
        if code < 0x1_0000 {
            units.push(code as u16);
        } else {
            let offset = code - 0x1_0000;
            units.push((0xd800 + offset / 0x400) as u16);
            units.push((0xdc00 + offset % 0x400) as u16);
        }
        proof {
            assert(units@ =~= utf16_units(value@.subrange(0, i + 1)));
        }
        i += 1;
    }
    assert(value@.subrange(0, length as int) =~= value@);
    units.push(0);
    units
}

/// The header that describes a top-down 32-bit framebuffer of the given
/// size to GDI; the negative height says that the first row is the top one.
pub fn framebuffer_bitmap_info(width: u32, height: u32) -> (info: BITMAPINFO)
    requires
        0 < width <= i32::MAX,
        0 < height <= i32::MAX,
    ensures
        info.bmiHeader.biSize == 40,
        info.bmiHeader.biWidth == width,
        info.bmiHeader.biHeight == -(height as int),
        info.bmiHeader.biPlanes == 1,
        info.bmiHeader.biBitCount == 32,
        info.bmiHeader.biCompression == BI_RGB,
        info.bmiHeader.biSizeImage == 0,
        info.bmiHeader.biXPelsPerMeter == 0,
        info.bmiHeader.biYPelsPerMeter == 0,
        info.bmiHeader.biClrUsed == 0,
        info.bmiHeader.biClrImportant == 0,
        info.bmiColors[0] == (RGBQUAD { rgbBlue: 0, rgbGreen: 0, rgbRed: 0, rgbReserved: 0 }),
{
    let width = width as i32;
    let height = height as i32;
    BITMAPINFO {
        bmiHeader: BITMAPINFOHEADER {
            biSize: 40,
            biWidth: width,
            biHeight: -height,
            biPlanes: 1,
            biBitCount: 32,
            biCompression: BI_RGB,
            biSizeImage: 0,
            biXPelsPerMeter: 0,
            biYPelsPerMeter: 0,
            biClrUsed: 0,
            biClrImportant: 0,
        },
        bmiColors: [RGBQUAD { rgbBlue: 0, rgbGreen: 0, rgbRed: 0, rgbReserved: 0 }],
    }
}

/// The rectangle of a whole decoded image, as GDI+ locks its pixels.
pub fn image_rect(width: u32, height: u32) -> (rect: GDIP_RECT)
    requires
        width <= i32::MAX,
        height <= i32::MAX,
    ensures
        rect == (GDIP_RECT { X: 0, Y: 0, Width: width as i32, Height: height as i32 }),
{
    GDIP_RECT { X: 0, Y: 0, Width: width as i32, Height: height as i32 }
}

/// The number of pixels of a decoded image, when its size is one a document
/// can hold: both sides positive and at most `MAX_PIXELS` pixels.
pub fn image_pixel_count(width: u32, height: u32) -> (count: Option<usize>)
    ensures
        match count {
            Some(n) => width > 0 && height > 0 && n == width as int * height as int && n <= MAX_PIXELS,
            None => width == 0 || height == 0 || width as int * height as int > MAX_PIXELS,
        },
{
    proof {
        lemma_u32_product(width, height);
    }
    let pixel_count = width as u64 * height as u64;
    if width == 0 || height == 0 || pixel_count > MAX_PIXELS {
        return None;
    }
    Some(pixel_count as usize)
}

/// A high surrogate, the first half of a supplementary character.
pub open spec fn is_high_surrogate(unit: u16) -> bool {
    0xd800 <= unit <= 0xdbff
}

pub open spec fn is_low_surrogate(unit: u16) -> bool {
    0xdc00 <= unit <= 0xdfff
}

/// The character of a surrogate pair.
pub open spec fn combined(high: u16, low: u16) -> u32 {
    (0x1_0000 + (high - 0xd800) * 0x400 + (low - 0xdc00)) as u32
}

/// The code points of the characters that one unit yields after `pending`,
/// as `char::decode_utf16` reads them; unpaired surrogates become U+FFFD.
pub open spec fn decoded_units(pending: Option<u16>, unit: u16) -> Seq<u32> {
    let single: u32 = if is_low_surrogate(unit) { 0xfffd } else { unit as u32 };
    match pending {
        None => seq![single],
        Some(high) => if is_low_surrogate(unit) {
            seq![combined(high, unit)]
        } else {
            seq![0xfffd, single]
        },
    }
}

pub open spec fn code_points(characters: Seq<char>) -> Seq<u32> {
    characters.map_values(|character: char| character as u32)
}

/// `WM_CHAR` delivers UTF-16 code units, so a supplementary character arrives
/// as two messages; this joins them.
pub struct TextDecoder {
    pub pending_high_surrogate: Option<u16>,
}

impl TextDecoder {
    pub fn new() -> (decoder: TextDecoder)
        ensures
            decoder.pending_high_surrogate is None,
    {
        TextDecoder { pending_high_surrogate: None }
    }

    /// Takes one code unit and returns the characters it completes. A high
    /// surrogate is held back (replacing one already held) and yields nothing.
    pub fn push_unit(&mut self, unit: u16) -> (characters: Vec<char>)
        requires
            old(self).pending_high_surrogate matches Some(high) ==> is_high_surrogate(high),
        ensures
            is_high_surrogate(unit) ==> characters@.len() == 0 && final(self).pending_high_surrogate
                == Some(unit),
            !is_high_surrogate(unit) ==> code_points(characters@) == decoded_units(
                old(self).pending_high_surrogate,
                unit,
            ) && final(self).pending_high_surrogate is None,
    {
        let mut characters: Vec<char> = Vec::new();
        if 0xd800 <= unit && unit <= 0xdbff {
            self.pending_high_surrogate = Some(unit);
            return characters;
        }
        let single = if 0xdc00 <= unit && unit <= 0xdfff {
            REPLACEMENT_CHARACTER
        } else {
            match char_from_u32(unit as u32) {
                Some(character) => character,
                None => REPLACEMENT_CHARACTER,
            }
        };
        match self.pending_high_surrogate {
            None => {
                characters.push(single);
            },
            Some(high) => {
                if 0xdc00 <= unit && unit <= 0xdfff {
                    let value = 0x1_0000 + (high as u32 - 0xd800) * 0x400 + (unit as u32 - 0xdc00);
                    match char_from_u32(value) {
                        Some(character) => characters.push(character),
                        None => characters.push(REPLACEMENT_CHARACTER),
                    }
                } else {
                    characters.push(REPLACEMENT_CHARACTER);
                    characters.push(single);
                }
            },
        }
        self.pending_high_surrogate = None;
        assert(code_points(characters@) =~= decoded_units(old(self).pending_high_surrogate, unit));
        characters
    }
}

/// What `wide` encodes, `TextDecoder` decodes back: a character's UTF-16
/// units, fed to a decoder with nothing pending, give back its code point.
pub proof fn lemma_utf16_round_trip(character: char)
    ensures
        utf16_of(character).len() == 1 ==> !is_high_surrogate(utf16_of(character)[0]) && decoded_units(
            None,
            utf16_of(character)[0],
        ) == seq![character as u32],
        utf16_of(character).len() == 2 ==> is_high_surrogate(utf16_of(character)[0]) && !is_high_surrogate(
            utf16_of(character)[1],
        ) && decoded_units(Some(utf16_of(character)[0]), utf16_of(character)[1]) == seq![character as u32],
        utf16_of(character).len() == 1 || utf16_of(character).len() == 2,
{
    let value = character as u32;
    if value >= 0x1_0000 {
        let offset = value - 0x1_0000;
        assert(offset / 0x400 < 0x400);
        let high = (0xd800 + offset / 0x400) as u16;
        let low = (0xdc00 + offset % 0x400) as u16;
        assert(combined(high, low) == value);
    }
}

} // verus!
