//! Editor decisions that do not depend on the window: commands for the host
//! program, keyboard shortcuts, document history and new-document settings.

use vstd::prelude::*;

use crate::document::DocumentError;
use crate::graphics::rect::Rect;
use crate::file::OdrawError;
use crate::platform::{Key, SaveChanges};

pub mod history;
pub mod input;
pub mod new_document;
pub mod session;
pub mod thumbnail;

verus! {

/// Work that the editor hands to the host program, which owns the dialogs
/// and the files.
#[derive(Clone, Copy, Debug, PartialEq, Eq, Structural)]
pub enum Command {
    New,
    Open,
    Save,
    Import,
    Export,
    Exit,
}

/// What a key press asks of the editor.
#[derive(Clone, Copy, Debug, PartialEq, Eq, Structural)]
pub enum Shortcut {
    Undo,
    Redo,
    Run(Command),
}

/// The shortcut of `key` while Control is held: Z undoes and Y redoes in the
/// editor, O opens anywhere, and S, E and I save, export and import in the
/// editor. Without Control no key is a shortcut.
pub open spec fn shortcut_for(key: Key, control_down: bool, in_editor: bool) -> Option<Shortcut> {
    if !control_down {
        None
    } else {
        match key {
            Key::Letter(letter) => if letter == 'Z' && in_editor {
                Some(Shortcut::Undo)
            } else if letter == 'Y' && in_editor {
                Some(Shortcut::Redo)
            } else if letter == 'O' {
                Some(Shortcut::Run(Command::Open))
            } else if letter == 'S' && in_editor {
                Some(Shortcut::Run(Command::Save))
            } else if letter == 'E' && in_editor {
                Some(Shortcut::Run(Command::Export))
            } else if letter == 'I' && in_editor {
                Some(Shortcut::Run(Command::Import))
            } else {
                None
            },
            _ => None,
        }
    }
}

pub fn shortcut(key: Key, control_down: bool, in_editor: bool) -> (action: Option<Shortcut>)
    ensures
        action == shortcut_for(key, control_down, in_editor),
{
    if !control_down {
        return None;
    }
    match key {
        Key::Letter(letter) => {
            if letter == 'Z' && in_editor {
                Some(Shortcut::Undo)
            } else if letter == 'Y' && in_editor {
                Some(Shortcut::Redo)
            } else if letter == 'O' {
                Some(Shortcut::Run(Command::Open))
            } else if letter == 'S' && in_editor {
                Some(Shortcut::Run(Command::Save))
            } else if letter == 'E' && in_editor {
                Some(Shortcut::Run(Command::Export))
            } else if letter == 'I' && in_editor {
                Some(Shortcut::Run(Command::Import))
            } else {
                None
            }
        },
        _ => None,
    }
}

/// Whether carrying out `command` would close the current document, so
/// that unsaved changes must be dealt with first.
pub fn closes_document(command: Command) -> (closes: bool)
    ensures
        closes == (command == Command::New || command == Command::Open || command == Command::Exit),
{
    match command {
        Command::New | Command::Open | Command::Exit => true,
        Command::Save | Command::Import | Command::Export => false,
    }
}

/// How to go on after asking whether to save unsaved changes.
#[derive(Clone, Copy, Debug, PartialEq, Eq, Structural)]
pub enum Proceed {
    /// Go on and lose the changes.
    Discard,
    /// Save first, and go on only if that worked.
    AfterSaving,
    /// Do not go on.
    Stop,
}

/// The decision for an answer to the save prompt.
pub fn after_save_prompt(answer: SaveChanges) -> (proceed: Proceed)
    ensures
        proceed == match answer {
            SaveChanges::Save => Proceed::AfterSaving,
            SaveChanges::Discard => Proceed::Discard,
            SaveChanges::Cancel => Proceed::Stop,
        },
{
    match answer {
        SaveChanges::Save => Proceed::AfterSaving,
        SaveChanges::Discard => Proceed::Discard,
        SaveChanges::Cancel => Proceed::Stop,
    }
}

/// Width of the tool panel on the left of the editor.
pub const EDITOR_LEFT_WIDTH: u32 = 120;
/// Width of the layer panel on the right of the editor.
pub const EDITOR_RIGHT_WIDTH: u32 = 220;
/// Height of one row of the layer list.
pub const LAYER_ROW_HEIGHT: u32 = 58;

pub open spec fn saturating_difference(value: int, taken: int) -> int {
    if value > taken { value - taken } else { 0 }
}

/// A window size as a signed coordinate.
pub open spec fn signed_extent(size: u32) -> int {
    if size > i32::MAX { i32::MAX as int } else { size as int }
}

/// The canvas area of a window of size `window`.
pub open spec fn viewport_for(window: (u32, u32)) -> Rect {
    Rect {
        x: EDITOR_LEFT_WIDTH as i32,
        y: 56,
        width: saturating_difference(window.0 as int, (EDITOR_LEFT_WIDTH + EDITOR_RIGHT_WIDTH) as int) as u32,
        height: saturating_difference(window.1 as int, 92) as u32,
    }
}

/// The part of the window that shows the canvas: between the side panels,
/// below the 56-pixel toolbar and above the 36-pixel status bar.
pub fn editor_viewport(window: (u32, u32)) -> (viewport: Rect)
    ensures
        viewport == viewport_for(window),
{
    Rect::new(
        EDITOR_LEFT_WIDTH as i32,
        56,
        window.0.saturating_sub(EDITOR_LEFT_WIDTH + EDITOR_RIGHT_WIDTH),
        window.1.saturating_sub(92),
    )
}

/// Where the controls under the layer list start: 174 pixels above the
/// bottom of the window, but not above 230.
pub open spec fn controls_top_for(window: (u32, u32)) -> int {
    if signed_extent(window.1) - 174 >= 230 { signed_extent(window.1) - 174 } else { 230 }
}

pub fn layer_controls_top(window: (u32, u32)) -> (top: i32)
    ensures
        top == controls_top_for(window),
{
    let height: i32 = if window.1 > i32::MAX as u32 { i32::MAX } else { window.1 as i32 };
    let top = height - 174;
    if top >= 230 { top } else { 230 }
}

/// The layer list: in the right panel, from 148 pixels down to the layer
/// controls.
pub open spec fn layer_list_for(window: (u32, u32)) -> Rect {
    Rect {
        x: (signed_extent(window.0) - EDITOR_RIGHT_WIDTH + 8) as i32,
        y: 148,
        width: (EDITOR_RIGHT_WIDTH - 16) as u32,
        height: (controls_top_for(window) - 148) as u32,
    }
}

pub fn layer_list_rect(window: (u32, u32)) -> (list: Rect)
    ensures
        list == layer_list_for(window),
{
    let width: i32 = if window.0 > i32::MAX as u32 { i32::MAX } else { window.0 as i32 };
    let panel_x = width - EDITOR_RIGHT_WIDTH as i32;
    let top: i32 = 148;
    let bottom = layer_controls_top(window);
    Rect::new(panel_x + 8, top, EDITOR_RIGHT_WIDTH - 16, (bottom - top) as u32)
}

/// The middle of the window.
pub fn window_center(window: (u32, u32)) -> (center: (i32, i32))
    ensures
        center.0 == signed_extent(window.0) / 2,
        center.1 == signed_extent(window.1) / 2,
{
    let width: i32 = if window.0 > i32::MAX as u32 { i32::MAX } else { window.0 as i32 };
    let height: i32 = if window.1 > i32::MAX as u32 { i32::MAX } else { window.1 as i32 };
    (width / 2, height / 2)
}

/// How many layer rows the list of a window of size `window` shows: at
/// least one.
pub open spec fn layer_capacity_for(window: (u32, u32)) -> usize {
    let rows = layer_list_for(window).height / LAYER_ROW_HEIGHT;
    if rows >= 1 { rows as usize } else { 1 }
}

/// How many rows the layer list shows, at least one.
pub fn layer_list_capacity(window: (u32, u32)) -> (capacity: usize)
    ensures
        capacity >= 1,
        capacity == layer_capacity_for(window),
{
    let rows = layer_list_rect(window).height / LAYER_ROW_HEIGHT;
    if rows >= 1 { rows as usize } else { 1 }
}

/// The notice shown after a file operation failed.
pub fn file_error_notice(error: &OdrawError) -> (notice: &'static str)
    ensures
        notice@ == match error {
            OdrawError::UnsupportedVersion(_) => "UNSUPPORTED ODRAW VERSION"@,
            OdrawError::UnexpectedEndOfFile => "INVALID ODRAW FILE"@,
            OdrawError::InvalidFile => "INVALID ODRAW FILE"@,
            OdrawError::InvalidDimensions => "INVALID DOCUMENT SIZE"@,
            OdrawError::AllocationFailed => "NOT ENOUGH MEMORY"@,
            OdrawError::Io(_) => "FILE ERROR"@,
        },
{
    match error {
        OdrawError::UnsupportedVersion(_) => "UNSUPPORTED ODRAW VERSION",
        OdrawError::UnexpectedEndOfFile => "INVALID ODRAW FILE",
        OdrawError::InvalidFile => "INVALID ODRAW FILE",
        OdrawError::InvalidDimensions => "INVALID DOCUMENT SIZE",
        OdrawError::AllocationFailed => "NOT ENOUGH MEMORY",
        OdrawError::Io(_) => "FILE ERROR",
    }
}

/// The notice shown after an image import.
pub fn import_notice(result: Result<(), DocumentError>) -> (notice: &'static str)
    ensures
        notice@ == match result {
            Ok(_) => "IMAGE IMPORTED"@,
            Err(DocumentError::AllocationFailed) => "NOT ENOUGH MEMORY"@,
            Err(DocumentError::TooLarge) => "IMAGE TOO LARGE"@,
            Err(DocumentError::InvalidDimensions) => "INVALID IMAGE"@,
        },
{
    match result {
        Ok(_) => "IMAGE IMPORTED",
        Err(DocumentError::AllocationFailed) => "NOT ENOUGH MEMORY",
        Err(DocumentError::TooLarge) => "IMAGE TOO LARGE",
        Err(DocumentError::InvalidDimensions) => "INVALID IMAGE",
    }
}

} // verus!
