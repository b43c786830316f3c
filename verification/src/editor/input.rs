//! What the editor does with each window event: shortcuts, the Control key,
//! panning state, the layer-list wheel and the new-document notice. Work on
//! the canvas view and the painting tools is handed back to the host.

use vstd::prelude::*;

use crate::platform::{Key, MouseButton};
use crate::ui::{is_control, is_control_char, UiContext, UiEvent};

use super::new_document::NewDocumentForm;
use super::session::{redo_outcome, scrolled_layers, undo_outcome, Session};
use super::{
    editor_viewport, layer_capacity_for, layer_list_capacity, layer_list_for, layer_list_rect, shortcut, shortcut_for,
    viewport_for, Command, Shortcut,
};

verus! {

/// Which way the mouse wheel turned: up (away from the user), down, or
/// not at all.
#[derive(Clone, Copy, Debug, PartialEq, Eq, Structural)]
pub enum WheelTurn {
    Up,
    Down,
    Still,
}

/// A window event as the editor sees it; the wheel is reduced to the way it
/// turned and pen samples to their arrival.
#[derive(Clone, Copy, Debug, PartialEq, Eq, Structural)]
pub enum EditorEvent {
    CloseRequested,
    FocusLost,
    Resized { width: u32, height: u32 },
    MouseMove { x: i32, y: i32 },
    MouseDown { button: MouseButton },
    MouseUp { button: MouseButton },
    MouseWheel { turn: WheelTurn },
    KeyDown { key: Key },
    KeyUp { key: Key },
    TextInput { character: char },
    Pen,
}

/// The window size, the pointer, whether Control is held and whether the
/// middle button is panning the canvas.
#[derive(Clone, Copy, Debug)]
pub struct InputState {
    pub window: (u32, u32),
    pub pointer: (i32, i32),
    pub control_down: bool,
    pub panning: bool,
}

/// Work that an event leaves to the host, which owns the canvas view and
/// the painting tools.
#[derive(Clone, Copy, Debug, PartialEq, Eq, Structural)]
pub enum EditorAction {
    Nothing,
    /// The pointer moved from `(from_x, from_y)` to `(x, y)`: the view pans
    /// by the difference when `panning`, and an active tool follows.
    PointerMoved { from_x: i32, from_y: i32, x: i32, y: i32, panning: bool },
    /// The left button went down in the editor at `(x, y)`.
    BeginTool { x: i32, y: i32 },
    /// The left button went up.
    EndTool,
    /// The wheel turned over the canvas: zoom around `(x, y)`.
    Zoom { x: i32, y: i32 },
    /// The layer list scrolled: draw again.
    Redraw,
    /// Undo or redo replaced the document: the tool's stroke ends, and the
    /// view fits the document again when its size changed.
    HistoryMoved { resized: bool },
}

impl InputState {
    /// A window of size `window` with the pointer at its corner, no key
    /// held and no panning.
    pub fn new(window: (u32, u32)) -> (state: InputState)
        ensures
            state == (InputState { window, pointer: (0, 0), control_down: false, panning: false }),
    {
        InputState { window, pointer: (0, 0), control_down: false, panning: false }
    }
}

/// The part of `event` that widgets react to.
pub open spec fn ui_event_for(event: EditorEvent) -> UiEvent {
    match event {
        EditorEvent::MouseMove { x, y } => UiEvent::MouseMove { x, y },
        EditorEvent::MouseDown { button } => UiEvent::MouseDown { button },
        EditorEvent::MouseUp { button } => UiEvent::MouseUp { button },
        EditorEvent::KeyDown { key } => UiEvent::KeyDown { key },
        EditorEvent::TextInput { character } => UiEvent::TextInput { character },
        _ => UiEvent::Other,
    }
}

pub fn ui_event(event: EditorEvent) -> (ui: UiEvent)
    ensures
        ui == ui_event_for(event),
{
    match event {
        EditorEvent::MouseMove { x, y } => UiEvent::MouseMove { x, y },
        EditorEvent::MouseDown { button } => UiEvent::MouseDown { button },
        EditorEvent::MouseUp { button } => UiEvent::MouseUp { button },
        EditorEvent::KeyDown { key } => UiEvent::KeyDown { key },
        EditorEvent::TextInput { character } => UiEvent::TextInput { character },
        _ => UiEvent::Other,
    }
}

/// The session once `command` is queued for the host; nothing else changes.
pub open spec fn requested(before: Session, after: Session, command: Command) -> bool {
    &&& after.pending_command == Some(command)
    &&& after.document == before.document
    &&& after.history == before.history
    &&& after.notice == before.notice
    &&& after.same_layer_state(&before)
}

/// Whether the current document of `after` differs in size from that of
/// `before`.
pub open spec fn resized(before: Session, after: Session) -> bool {
    before.current().width != after.current().width || before.current().height != after.current().height
}

/// What a key press does to the session through the shortcut table, and the
/// action it hands back.
pub open spec fn shortcut_outcome(
    before: Session,
    after: Session,
    shortcut: Option<Shortcut>,
    capacity: usize,
    action: EditorAction,
) -> bool {
    match shortcut {
        Some(Shortcut::Undo) => exists|undone: bool|
            undo_outcome(before, after, capacity, undone) && action == if undone {
                EditorAction::HistoryMoved { resized: resized(before, after) }
            } else {
                EditorAction::Nothing
            },
        Some(Shortcut::Redo) => exists|redone: bool|
            redo_outcome(before, after, capacity, redone) && action == if redone {
                EditorAction::HistoryMoved { resized: resized(before, after) }
            } else {
                EditorAction::Nothing
            },
        Some(Shortcut::Run(command)) => requested(before, after, command) && action == EditorAction::Nothing,
        None => after == before && action == EditorAction::Nothing,
    }
}

/// What the wheel does: over the layer list in the editor it scrolls the
/// list a row, over the canvas it zooms, and elsewhere nothing.
pub open spec fn wheel_outcome(
    before: Session,
    after: Session,
    state: InputState,
    turn: WheelTurn,
    in_editor: bool,
    action: EditorAction,
) -> bool {
    let (x, y) = state.pointer;
    if in_editor && layer_list_for(state.window).has_point(x as int, y as int) {
        &&& action == EditorAction::Redraw
        &&& match turn {
            WheelTurn::Down => scrolled_layers(before, after, true, layer_capacity_for(state.window)),
            WheelTurn::Up => scrolled_layers(before, after, false, layer_capacity_for(state.window)),
            WheelTurn::Still => after == before,
        }
    } else if in_editor && viewport_for(state.window).has_point(x as int, y as int) {
        after == before && action == (EditorAction::Zoom { x, y })
    } else {
        after == before && action == EditorAction::Nothing
    }
}

impl Session {
    /// Handles one window event: the widgets see it first; then Control is
    /// tracked, the shortcut table is followed (undo and redo here, other
    /// commands queued for the host), closing the window queues `Exit`, the
    /// wheel scrolls the layer list, the middle button starts and stops
    /// panning, and typing or Backspace hides the new-document notice.
    pub fn handle_input(
        &mut self,
        input: &mut InputState,
        form: &mut NewDocumentForm,
        ui: &mut UiContext,
        event: EditorEvent,
        in_editor: bool,
    ) -> (action: EditorAction)
        requires
            old(self).wf(),
            in_editor ==> old(self).document is Some,
        ensures
            final(self).wf(),
            final(ui)@ == old(ui)@.handled(ui_event_for(event)),
            final(form).validation_error == match event {
                EditorEvent::TextInput { character } => if is_control_char(character) {
                    old(form).validation_error
                } else {
                    None
                },
                EditorEvent::KeyDown { key: Key::Backspace } => None,
                _ => old(form).validation_error,
            },
            final(form).width_input == old(form).width_input,
            final(form).height_input == old(form).height_input,
            final(form).background == old(form).background,
            final(form).background_color == old(form).background_color,
            final(form).background_hue == old(form).background_hue,
            final(form).scroll == old(form).scroll,
            match event {
                EditorEvent::CloseRequested => {
                    &&& requested(*old(self), *final(self), Command::Exit)
                    &&& *final(input) == *old(input)
                    &&& action == EditorAction::Nothing
                },
                EditorEvent::Resized { width, height } => {
                    &&& *final(self) == *old(self)
                    &&& *final(input) == (InputState { window: (width, height), ..*old(input) })
                    &&& action == EditorAction::Nothing
                },
                EditorEvent::MouseMove { x, y } => {
                    &&& *final(self) == *old(self)
                    &&& *final(input) == (InputState { pointer: (x, y), ..*old(input) })
                    &&& action == (EditorAction::PointerMoved {
                        from_x: old(input).pointer.0,
                        from_y: old(input).pointer.1,
                        x,
                        y,
                        panning: old(input).panning,
                    })
                },
                EditorEvent::MouseDown { button } => {
                    &&& *final(self) == *old(self)
                    &&& *final(input) == (InputState {
                        panning: old(input).panning || (button == MouseButton::Middle && in_editor
                            && viewport_for(old(input).window).has_point(old(input).pointer.0 as int, old(input).pointer.1 as int)),
                        ..*old(input)
                    })
                    &&& action == if button == MouseButton::Left && in_editor {
                        EditorAction::BeginTool { x: old(input).pointer.0, y: old(input).pointer.1 }
                    } else {
                        EditorAction::Nothing
                    }
                },
                EditorEvent::MouseUp { button } => {
                    &&& *final(self) == *old(self)
                    &&& *final(input) == (InputState {
                        panning: old(input).panning && button != MouseButton::Middle,
                        ..*old(input)
                    })
                    &&& action == if button == MouseButton::Left {
                        EditorAction::EndTool
                    } else {
                        EditorAction::Nothing
                    }
                },
                EditorEvent::MouseWheel { turn } => {
                    &&& *final(input) == *old(input)
                    &&& wheel_outcome(*old(self), *final(self), *old(input), turn, in_editor, action)
                },
                EditorEvent::KeyDown { key } => {
                    &&& *final(input) == (InputState {
                        control_down: old(input).control_down || key == Key::Control,
                        ..*old(input)
                    })
                    &&& shortcut_outcome(
                        *old(self),
                        *final(self),
                        shortcut_for(key, old(input).control_down, in_editor),
                        layer_capacity_for(old(input).window),
                        action,
                    )
                },
                EditorEvent::KeyUp { key } => {
                    &&& *final(self) == *old(self)
                    &&& *final(input) == (InputState {
                        control_down: old(input).control_down && key != Key::Control,
                        ..*old(input)
                    })
                    &&& action == EditorAction::Nothing
                },
                _ => {
                    &&& *final(self) == *old(self)
                    &&& *final(input) == *old(input)
                    &&& action == EditorAction::Nothing
                },
            },
    {
        ui.handle_event(&ui_event(event));
        match event {
            EditorEvent::CloseRequested => {
                self.request(Command::Exit);
                EditorAction::Nothing
            },
            EditorEvent::Resized { width, height } => {
                input.window = (width, height);
                EditorAction::Nothing
            },
            EditorEvent::MouseMove { x, y } => {
                let from = input.pointer;
                input.pointer = (x, y);
                EditorAction::PointerMoved { from_x: from.0, from_y: from.1, x, y, panning: input.panning }
            },
            EditorEvent::MouseDown { button } => {
                let (x, y) = input.pointer;
                match button {
                    MouseButton::Middle => {
                        if in_editor && editor_viewport(input.window).contains(x, y) {
                            input.panning = true;
                        }
                        EditorAction::Nothing
                    },
                    MouseButton::Left => if in_editor {
                        EditorAction::BeginTool { x, y }
                    } else {
                        EditorAction::Nothing
                    },
                    MouseButton::Right => EditorAction::Nothing,
                }
            },
            EditorEvent::MouseUp { button } => match button {
                MouseButton::Middle => {
                    input.panning = false;
                    EditorAction::Nothing
                },
                MouseButton::Left => EditorAction::EndTool,
                MouseButton::Right => EditorAction::Nothing,
            },
            EditorEvent::MouseWheel { turn } => {
                let (x, y) = input.pointer;
                if in_editor && layer_list_rect(input.window).contains(x, y) {
                    let capacity = layer_list_capacity(input.window);
                    match turn {
                        WheelTurn::Down => self.scroll_layers(true, capacity),
                        WheelTurn::Up => self.scroll_layers(false, capacity),
                        WheelTurn::Still => {},
                    }
                    EditorAction::Redraw
                } else if in_editor && editor_viewport(input.window).contains(x, y) {
                    EditorAction::Zoom { x, y }
                } else {
                    EditorAction::Nothing
                }
            },
            EditorEvent::TextInput { character } => {
                if !is_control(character) {
                    form.validation_error = None;
                }
                EditorAction::Nothing
            },
            EditorEvent::KeyDown { key } => {
                if key == Key::Backspace {
                    form.validation_error = None;
                }
                let control_down = input.control_down;
                if key == Key::Control {
                    input.control_down = true;
                }
                match shortcut(key, control_down, in_editor) {
                    Some(Shortcut::Undo) => {
                        let capacity = layer_list_capacity(input.window);
                        let ghost before = *self;
                        let (width, height) = self.document_size();
                        let undone = self.undo(capacity);
                        let (new_width, new_height) = self.document_size();
                        proof {
                            assert(undo_outcome(before, *self, capacity, undone));
                        }
                        if undone {
                            EditorAction::HistoryMoved { resized: width != new_width || height != new_height }
                        } else {
                            EditorAction::Nothing
                        }
                    },
                    Some(Shortcut::Redo) => {
                        let capacity = layer_list_capacity(input.window);
                        let ghost before = *self;
                        let (width, height) = self.document_size();
                        let redone = self.redo(capacity);
                        let (new_width, new_height) = self.document_size();
                        proof {
                            assert(redo_outcome(before, *self, capacity, redone));
                        }
                        if redone {
                            EditorAction::HistoryMoved { resized: width != new_width || height != new_height }
                        } else {
                            EditorAction::Nothing
                        }
                    },
                    Some(Shortcut::Run(command)) => {
                        self.request(command);
                        EditorAction::Nothing
                    },
                    None => EditorAction::Nothing,
                }
            },
            EditorEvent::KeyUp { key } => {
                if key == Key::Control {
                    input.control_down = false;
                }
                EditorAction::Nothing
            },
            EditorEvent::FocusLost => EditorAction::Nothing,
            EditorEvent::Pen => EditorAction::Nothing,
        }
    }

    /// The width and height of the current document.
    fn document_size(&self) -> (size: (u32, u32))
        requires
            self.document is Some,
        ensures
            size == (self.current().width, self.current().height),
    {
        match &self.document {
            Some(document) => (document.width, document.height),
            None => (0, 0),
        }
    }
}

} // verus!
