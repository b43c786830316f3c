//! Input types shared by every platform backend, and the pure parts of the
//! Win32 message translation.

use vstd::prelude::*;

pub mod pointer;
pub mod win32;

verus! {

#[derive(Clone, Copy, Debug, PartialEq, Eq, Structural)]
pub enum MouseButton {
    Left,
    Right,
    Middle,
}

#[derive(Clone, Copy, Debug, PartialEq, Eq, Structural)]
pub enum Key {
    Backspace,
    Tab,
    Enter,
    Shift,
    Control,
    Alt,
    Escape,
    Space,
    PageUp,
    PageDown,
    End,
    Home,
    Left,
    Up,
    Right,
    Down,
    Delete,
    Letter(char),
    Digit(u8),
    Function(u8),
    Unknown(u32),
}

/// Physical kind of a pointer device.
#[derive(Clone, Copy, Debug, PartialEq, Eq, Structural)]
pub enum PointerType {
    Mouse,
    Pen,
    Eraser,
    Touch,
}

/// Physical tool reported by the stylus hardware.
#[derive(Clone, Copy, Debug, PartialEq, Eq, Structural)]
pub enum PenTool {
    Pen,
    Eraser,
    Brush,
    Pencil,
    Airbrush,
    Unknown,
}

/// Data axes a tablet can actually report. A missing axis must be replaced
/// with a neutral value by the backend.
#[derive(Clone, Copy, Debug, Default, PartialEq, Eq, Structural)]
pub struct PenCapabilities {
    pub pressure: bool,
    pub tilt: bool,
    pub rotation: bool,
    pub distance: bool,
    pub eraser: bool,
    pub barrel_buttons: u8,
}

/// The answer to "save changes before closing?".
#[derive(Clone, Copy, Debug, PartialEq, Eq, Structural)]
pub enum SaveChanges {
    Save,
    Discard,
    Cancel,
}

/// An image decoded by the platform: `0xAARRGGBB` pixels, row by row.
pub struct DecodedImage {
    pub width: u32,
    pub height: u32,
    pub pixels: Vec<u32>,
}

} // verus!
