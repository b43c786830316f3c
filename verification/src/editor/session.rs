//! The document being edited and everything the editor decides about it:
//! undoable layer edits, creating, opening, saving and importing, the
//! notices shown for them, and the scroll position of the layer list.
//! Drawing, tools and files are the host program's; it reports their
//! outcomes here.

use vstd::prelude::*;

use crate::document::fill::flood_result;
use crate::document::{
    added_layer, composite, add_layer_error, background_document, background_document_error, import_error, imported,
    lemma_added_layer_wf, lemma_imported_wf, lemma_layer_replaced_wf, lemma_removed_layer_wf,
    lemma_swapped_layers_wf, lemma_wf_covers, removed_active_layer, swapped_layers, Document, DocumentError,
    DocumentView, LayerView,
};
use crate::file::bmp::bmp_bytes;
use crate::file::format::ImageFormat;
use crate::file::png::png_bytes;
use crate::file::{decode_document, export, header_accepted, read_document, OdrawError};
use crate::graphics::color::Color;
use crate::graphics::framebuffer::pixel_index;
use crate::platform::DecodedImage;

use super::history::{History, HistoryView};
use super::new_document::{
    creation_error_message, creation_error_text, dimensions_result, validate_dimensions, DimensionError,
};
use super::{file_error_notice, import_notice, Command};

verus! {

pub struct Session {
    pub document: Option<Document>,
    pub history: History,
    /// Layers hidden above the top of the layer list.
    pub layer_scroll: usize,
    /// The layer whose rename is already one undo step.
    pub layer_name_edit_recorded: Option<usize>,
    /// The current opacity drag is already one undo step.
    pub layer_opacity_drag_recorded: bool,
    pub notice: Option<&'static str>,
    pub pending_command: Option<Command>,
}

/// Every snapshot in `snapshots` is a well-formed document.
pub open spec fn snapshots_wf(snapshots: Seq<(DocumentView, u64)>) -> bool {
    forall|i: int| 0 <= i < snapshots.len() ==> (#[trigger] snapshots[i]).0.wf()
}

impl Session {
    /// The document, when there is one, and every document that undo or redo
    /// can bring back are well formed, and revisions are in order.
    pub open spec fn wf(&self) -> bool {
        &&& self.document matches Some(document) ==> document@.wf()
        &&& self.history@.wf()
        &&& snapshots_wf(self.history@.undo)
        &&& snapshots_wf(self.history@.redo)
    }

    /// The current document as plain values.
    pub open spec fn current(&self) -> DocumentView {
        self.document.unwrap()@
    }

    /// The layer-list scroll and the rename and opacity-drag records are
    /// those of `other`.
    pub open spec fn same_layer_state(&self, other: &Session) -> bool {
        &&& self.layer_scroll == other.layer_scroll
        &&& self.layer_name_edit_recorded == other.layer_name_edit_recorded
        &&& self.layer_opacity_drag_recorded == other.layer_opacity_drag_recorded
    }

    /// No document, a fresh history, nothing pending.
    pub fn new() -> (session: Session)
        ensures
            session.wf(),
            session.document is None,
            session.history@ == History::new_view(),
            session.layer_scroll == 0,
            session.layer_name_edit_recorded is None,
            !session.layer_opacity_drag_recorded,
            session.notice is None,
            session.pending_command is None,
    {
        Session {
            document: None,
            history: History::new(),
            layer_scroll: 0,
            layer_name_edit_recorded: None,
            layer_opacity_drag_recorded: false,
            notice: None,
            pending_command: None,
        }
    }

    /// Whether closing now would lose changes.
    pub fn has_unsaved_changes(&self) -> (unsaved: bool)
        ensures
            unsaved == (self.document is Some && self.history@.is_modified()),
    {
        self.history.has_unsaved_changes(self.document.is_some())
    }

    /// Hands the pending command to the host program, once.
    pub fn take_command(&mut self) -> (command: Option<Command>)
        ensures
            command == old(self).pending_command,
            final(self).pending_command is None,
            final(self).document == old(self).document,
            final(self).history == old(self).history,
            final(self).notice == old(self).notice,
            final(self).same_layer_state(old(self)),
    {
        self.pending_command.take()
    }

    /// Asks the host program to carry out `command`.
    pub fn request(&mut self, command: Command)
        ensures
            final(self).pending_command == Some(command),
            final(self).document == old(self).document,
            final(self).history == old(self).history,
            final(self).notice == old(self).notice,
            final(self).same_layer_state(old(self)),
    {
        self.pending_command = Some(command);
    }

    /// Closes the document and forgets its history.
    pub fn start_new_document(&mut self)
        requires
            old(self).wf(),
        ensures
            final(self).wf(),
            final(self).document is None,
            final(self).history@ == (HistoryView {
                undo: Seq::empty(),
                redo: Seq::empty(),
                current: 0,
                saved: None,
                ..old(self).history@
            }),
            final(self).layer_scroll == 0,
            final(self).layer_name_edit_recorded is None,
            !final(self).layer_opacity_drag_recorded,
            final(self).notice is None,
            final(self).pending_command == old(self).pending_command,
    {
        self.document = None;
        self.history.reset();
        self.layer_scroll = 0;
        self.layer_name_edit_recorded = None;
        self.layer_opacity_drag_recorded = false;
        self.notice = None;
    }

    /// Creates the document typed on the new-document screen over a
    /// `background`-filled bottom layer. On failure nothing changes and the
    /// notice to show under the fields is returned.
    pub fn create_document(&mut self, width_input: &str, height_input: &str, background: Color) -> (result: Result<(), &'static str>)
        requires
            old(self).wf(),
            old(self).history.next_revision < u64::MAX,
        ensures
            final(self).wf(),
            match dimensions_result(width_input@, height_input@) {
                Err(error) => result matches Err(message) && message@ == error.message_text() && *final(self) == *old(self),
                Ok((width, height)) => match background_document_error(width, height) {
                    Some(error) => result matches Err(message) && message@ == creation_error_text(error)
                        && *final(self) == *old(self),
                    None => match result {
                        Ok(_) => {
                            &&& final(self).document matches Some(document) && document@ == background_document(width, height, background)
                            &&& final(self).history@ == (HistoryView {
                                undo: Seq::empty(),
                                redo: Seq::empty(),
                                current: old(self).history.next_revision,
                                saved: None,
                                next: (old(self).history.next_revision + 1) as u64,
                            })
                            &&& final(self).layer_scroll == 0
                            &&& final(self).layer_name_edit_recorded is None
                            &&& final(self).layer_opacity_drag_recorded == old(self).layer_opacity_drag_recorded
                            &&& final(self).notice is None
                            &&& final(self).pending_command == old(self).pending_command
                        },
                        Err(message) => message@ == "NOT ENOUGH MEMORY"@ && *final(self) == *old(self),
                    },
                },
            },
    {
        let (width, height) = match validate_dimensions(width_input, height_input) {
            Ok(dimensions) => dimensions,
            Err(error) => return Err(error.message()),
        };
        let document = match Document::with_background(width, height, background) {
            Ok(document) => document,
            Err(error) => return Err(creation_error_message(error)),
        };
        self.document = Some(document);
        self.history.start_document();
        self.layer_scroll = 0;
        self.layer_name_edit_recorded = None;
        self.notice = None;
        Ok(())
    }

    /// Records how saving the document went: on success its revision is the
    /// saved one. Either way a notice says so and the next rename or opacity
    /// drag starts a new undo step.
    pub fn finish_save(&mut self, outcome: Result<(), OdrawError>) -> (result: Result<(), OdrawError>)
        requires
            old(self).wf(),
        ensures
            final(self).wf(),
            result == outcome,
            final(self).document == old(self).document,
            final(self).history@ == match outcome {
                Ok(_) => HistoryView { saved: Some(old(self).history.current_revision), ..old(self).history@ },
                Err(_) => old(self).history@,
            },
            final(self).notice matches Some(notice) && notice@ == match outcome {
                Ok(_) => "DOCUMENT SAVED"@,
                Err(error) => error.notice_text(),
            },
            final(self).layer_scroll == old(self).layer_scroll,
            final(self).layer_name_edit_recorded is None,
            !final(self).layer_opacity_drag_recorded,
            final(self).pending_command == old(self).pending_command,
    {
        self.layer_name_edit_recorded = None;
        self.layer_opacity_drag_recorded = false;
        match &outcome {
            Ok(_) => {
                self.notice = Some("DOCUMENT SAVED");
                self.history.mark_saved();
            },
            Err(error) => {
                self.notice = Some(file_error_notice(error));
            },
        }
        outcome
    }

    /// Opens the document in `contents`, the bytes of a file or the error
    /// reading it. A file that does not decode leaves the current document
    /// as it was; a notice says what happened either way.
    pub fn open_document(&mut self, contents: Result<Vec<u8>, OdrawError>) -> (result: Result<(), OdrawError>)
        requires
            old(self).wf(),
            old(self).history.next_revision < u64::MAX,
        ensures
            final(self).wf(),
            final(self).pending_command == old(self).pending_command,
            match result {
                Ok(_) => {
                    &&& contents matches Ok(bytes) && final(self).document matches Some(document)
                        && decode_document(bytes@) == Ok::<DocumentView, OdrawError>(document@)
                    &&& final(self).history@ == (HistoryView {
                        undo: Seq::empty(),
                        redo: Seq::empty(),
                        current: old(self).history.next_revision,
                        saved: Some(old(self).history.next_revision),
                        next: (old(self).history.next_revision + 1) as u64,
                    })
                    &&& final(self).layer_scroll == 0
                    &&& final(self).layer_name_edit_recorded is None
                    &&& !final(self).layer_opacity_drag_recorded
                    &&& final(self).notice matches Some(notice) && notice@ == "DOCUMENT OPENED"@
                },
                Err(error) => {
                    &&& match contents {
                        Err(read_error) => error == read_error,
                        Ok(bytes) => if error == OdrawError::AllocationFailed {
                            header_accepted(bytes@)
                        } else {
                            decode_document(bytes@) == Err::<DocumentView, OdrawError>(error)
                        },
                    }
                    &&& final(self).document == old(self).document
                    &&& final(self).history == old(self).history
                    &&& final(self).same_layer_state(old(self))
                    &&& final(self).notice matches Some(notice) && notice@ == error.notice_text()
                },
            },
    {
        let bytes = match contents {
            Ok(bytes) => bytes,
            Err(error) => {
                self.notice = Some(file_error_notice(&error));
                return Err(error);
            },
        };
        let document = match read_document(&bytes) {
            Ok(document) => document,
            Err(error) => {
                self.notice = Some(file_error_notice(&error));
                return Err(error);
            },
        };
        self.document = Some(document);
        self.history.open_document();
        self.layer_scroll = 0;
        self.layer_name_edit_recorded = None;
        self.layer_opacity_drag_recorded = false;
        self.notice = Some("DOCUMENT OPENED");
        Ok(())
    }

    /// Records how exporting went.
    pub fn finish_export(&mut self, succeeded: bool)
        ensures
            final(self).notice matches Some(notice) && notice@ == if succeeded {
                "IMAGE EXPORTED"@
            } else {
                "EXPORT FAILED"@
            },
            final(self).document == old(self).document,
            final(self).history == old(self).history,
            final(self).same_layer_state(old(self)),
            final(self).pending_command == old(self).pending_command,
    {
        self.notice = Some(if succeeded { "IMAGE EXPORTED" } else { "EXPORT FAILED" });
    }

    /// The image to import could not be read.
    pub fn report_image_import_error(&mut self)
        ensures
            final(self).notice matches Some(notice) && notice@ == "IMPORT FAILED"@,
            final(self).document == old(self).document,
            final(self).history == old(self).history,
            final(self).same_layer_state(old(self)),
            final(self).pending_command == old(self).pending_command,
    {
        self.notice = Some("IMPORT FAILED");
    }

    /// A file dialog failed.
    pub fn report_file_dialog_error(&mut self)
        ensures
            final(self).notice matches Some(notice) && notice@ == "FILE DIALOG FAILED"@,
            final(self).document == old(self).document,
            final(self).history == old(self).history,
            final(self).same_layer_state(old(self)),
            final(self).pending_command == old(self).pending_command,
    {
        self.notice = Some("FILE DIALOG FAILED");
    }
}

impl History {
    /// The view of `History::new()`.
    pub open spec fn new_view() -> HistoryView {
        HistoryView { undo: Seq::empty(), redo: Seq::empty(), current: 0, saved: None, next: 1 }
    }
}

impl DimensionError {
    pub open spec fn message_text(self) -> Seq<char> {
        match self {
            DimensionError::WidthNotNumeric => "ENTER NUMERIC WIDTH"@,
            DimensionError::HeightNotNumeric => "ENTER NUMERIC HEIGHT"@,
            DimensionError::Zero => "SIZE MUST BE ABOVE 0"@,
            DimensionError::TooLarge => "MAX SIZE IS 16384"@,
        }
    }
}

impl OdrawError {
    pub open spec fn notice_text(self) -> Seq<char> {
        match self {
            OdrawError::UnsupportedVersion(_) => "UNSUPPORTED ODRAW VERSION"@,
            OdrawError::UnexpectedEndOfFile => "INVALID ODRAW FILE"@,
            OdrawError::InvalidFile => "INVALID ODRAW FILE"@,
            OdrawError::InvalidDimensions => "INVALID DOCUMENT SIZE"@,
            OdrawError::AllocationFailed => "NOT ENOUGH MEMORY"@,
            OdrawError::Io(_) => "FILE ERROR"@,
        }
    }
}

} // verus!

verus! {

/// The layer-list scroll that shows the active layer: the list runs from
/// the top layer down, `capacity` rows at a time, and never scrolls past
/// its last full page.
pub open spec fn revealed_scroll(scroll: int, count: int, active: int, capacity: int) -> int {
    let from_top = count - 1 - active;
    let scrolled = if from_top < scroll {
        from_top
    } else if from_top >= scroll + capacity {
        from_top - capacity + 1
    } else {
        scroll
    };
    let maximum = if count > capacity { count - capacity } else { 0 };
    if scrolled < maximum { scrolled } else { maximum }
}

/// `document` with layer `index` replaced by `layer`.
pub open spec fn with_layer(document: DocumentView, index: int, layer: LayerView) -> DocumentView {
    DocumentView { layers: document.layers.update(index, layer), ..document }
}

/// What one report of the active layer's name field does to the document,
/// the history and the layer that the current rename has recorded: `event`
/// is the text now in the field and whether the field keeps focus. The first
/// change of a rename records the document before it; losing focus ends the
/// rename.
pub open spec fn rename_change(
    document: DocumentView,
    history: HistoryView,
    recorded: Option<usize>,
    event: (Seq<char>, bool),
) -> (DocumentView, HistoryView, Option<usize>) {
    let (name, focused) = event;
    let active = document.active_layer as int;
    let changed = name != document.layers[active].name;
    let starts_step = changed && recorded != Some(document.active_layer);
    (
        if changed {
            with_layer(document, active, LayerView { name, ..document.layers[active] })
        } else {
            document
        },
        if starts_step {
            history.recorded(document)
        } else {
            history
        },
        if !focused {
            None
        } else if changed {
            Some(document.active_layer)
        } else {
            recorded
        },
    )
}

/// The reports of the name field in order, from `document`, `history` and
/// `recorded`.
pub open spec fn rename_changes(
    document: DocumentView,
    history: HistoryView,
    recorded: Option<usize>,
    events: Seq<(Seq<char>, bool)>,
) -> (DocumentView, HistoryView, Option<usize>)
    decreases events.len(),
{
    if events.len() == 0 {
        (document, history, recorded)
    } else {
        let (d, h, r) = rename_changes(document, history, recorded, events.drop_last());
        rename_change(d, h, r, events.last())
    }
}

/// What one report of the active layer's opacity slider does to the
/// document, the history and whether the current drag is recorded: `event`
/// is the opacity, whether a drag started, whether the value changed, and
/// whether the drag goes on. The first change of a drag records the document
/// before it; a change outside a drag is recorded by itself.
pub open spec fn opacity_change(
    document: DocumentView,
    history: HistoryView,
    recorded: bool,
    event: (u8, bool, bool, bool),
) -> (DocumentView, HistoryView, bool) {
    let (opacity, started, changed, dragging) = event;
    let active = document.active_layer as int;
    let recorded = if started { false } else { recorded };
    let starts_step = changed && !recorded;
    (
        if changed {
            with_layer(document, active, LayerView { opacity, ..document.layers[active] })
        } else {
            document
        },
        if starts_step {
            history.recorded(document)
        } else {
            history
        },
        dragging && (if starts_step { dragging } else { recorded }),
    )
}

/// The reports of the opacity slider in order, from `document`, `history`
/// and `recorded`.
pub open spec fn opacity_changes(
    document: DocumentView,
    history: HistoryView,
    recorded: bool,
    events: Seq<(u8, bool, bool, bool)>,
) -> (DocumentView, HistoryView, bool)
    decreases events.len(),
{
    if events.len() == 0 {
        (document, history, recorded)
    } else {
        let (d, h, r) = opacity_changes(document, history, recorded, events.drop_last());
        opacity_change(d, h, r, events.last())
    }
}

/// A rename, from the moment the name field takes focus to the report on
/// which it loses it, is at most one undo step: either nothing changed, or
/// the history has the document before the rename recorded once, and one
/// undo brings that document back. The active layer stays the same.
pub proof fn lemma_rename_is_one_step(
    document: DocumentView,
    history: HistoryView,
    recorded: Option<usize>,
    events: Seq<(Seq<char>, bool)>,
)
    requires
        recorded != Some(document.active_layer),
        forall|i: int| 0 <= i < events.len() - 1 ==> (#[trigger] events[i]).1,
    ensures
        ({
            let (d, h, _) = rename_changes(document, history, recorded, events);
            &&& d.active_layer == document.active_layer
            &&& (h == history && d == document) || (h == history.recorded(document) && h.undone(d) == Some(
                (h.undone(d).unwrap().0, document),
            ))
        }),
{
    lemma_rename_steps(document, history, recorded, events);
    let (d, h, _) = rename_changes(document, history, recorded, events);
    super::history::lemma_undo_restores_recorded(history, document, d);
}

/// The state after the reports of a rename: untouched, with no record of
/// the active layer, or recorded once, with the record held while the field
/// keeps focus.
proof fn lemma_rename_steps(
    document: DocumentView,
    history: HistoryView,
    recorded: Option<usize>,
    events: Seq<(Seq<char>, bool)>,
)
    requires
        recorded != Some(document.active_layer),
        forall|i: int| 0 <= i < events.len() - 1 ==> (#[trigger] events[i]).1,
    ensures
        ({
            let (d, h, r) = rename_changes(document, history, recorded, events);
            &&& d.active_layer == document.active_layer
            &&& (h == history && d == document && r != Some(document.active_layer)) || (h
                == history.recorded(document) && (events.len() > 0 && events.last().1 ==> r == Some(
                document.active_layer,
            )))
        }),
    decreases events.len(),
{
    if events.len() > 0 {
        let rest = events.drop_last();
        assert forall|i: int| 0 <= i < rest.len() - 1 implies (#[trigger] rest[i]).1 by {
            assert(rest[i] == events[i]);
        }
        lemma_rename_steps(document, history, recorded, rest);
        if rest.len() > 0 {
            assert(rest.last() == events[events.len() - 2]);
        }
    }
}

/// An opacity drag, from the report that starts it through the reports
/// that keep dragging to the last one, is at most one undo step: when some
/// report changed the opacity, the history has the document before the drag
/// recorded once and one undo brings that document back; otherwise nothing
/// changed.
pub proof fn lemma_opacity_drag_is_one_step(
    document: DocumentView,
    history: HistoryView,
    recorded: bool,
    events: Seq<(u8, bool, bool, bool)>,
)
    requires
        events.len() > 0,
        events[0].1,
        forall|i: int| 0 < i < events.len() ==> !(#[trigger] events[i]).1,
        forall|i: int| 0 <= i < events.len() - 1 ==> (#[trigger] events[i]).3,
    ensures
        ({
            let (d, h, _) = opacity_changes(document, history, recorded, events);
            if exists|i: int| 0 <= i < events.len() && (#[trigger] events[i]).2 {
                &&& h == history.recorded(document)
                &&& h.undone(d) matches Some((_, restored)) && restored == document
            } else {
                h == history && d == document
            }
        }),
{
    lemma_opacity_steps(document, history, recorded, events);
    let (d, h, _) = opacity_changes(document, history, recorded, events);
    super::history::lemma_undo_restores_recorded(history, document, d);
}

/// The state after the reports of a drag: untouched and unrecorded, or
/// recorded once, with the record held while the drag goes on.
proof fn lemma_opacity_steps(
    document: DocumentView,
    history: HistoryView,
    recorded: bool,
    events: Seq<(u8, bool, bool, bool)>,
)
    requires
        events.len() > 0,
        events[0].1,
        forall|i: int| 0 < i < events.len() ==> !(#[trigger] events[i]).1,
        forall|i: int| 0 <= i < events.len() - 1 ==> (#[trigger] events[i]).3,
    ensures
        ({
            let (d, h, r) = opacity_changes(document, history, recorded, events);
            if exists|i: int| 0 <= i < events.len() && (#[trigger] events[i]).2 {
                h == history.recorded(document) && r == events.last().3
            } else {
                h == history && d == document && !r
            }
        }),
    decreases events.len(),
{
    let rest = events.drop_last();
    if events.len() == 1 {
        assert(rest.len() == 0);
        assert(events.last() == events[0]);
        if events[0].2 {
            assert(exists|i: int| 0 <= i < events.len() && (#[trigger] events[i]).2);
        }
    } else {
        assert forall|i: int| 0 < i < rest.len() implies !(#[trigger] rest[i]).1 by {
            assert(rest[i] == events[i]);
        }
        assert forall|i: int| 0 <= i < rest.len() - 1 implies (#[trigger] rest[i]).3 by {
            assert(rest[i] == events[i]);
        }
        assert(rest[0] == events[0]);
        lemma_opacity_steps(document, history, recorded, rest);
        assert(rest.last() == events[events.len() - 2]);
        assert(events.last() == events[events.len() - 1]);
        assert(!events.last().1);
        if exists|i: int| 0 <= i < rest.len() && (#[trigger] rest[i]).2 {
            let i = choose|i: int| 0 <= i < rest.len() && (#[trigger] rest[i]).2;
            assert(events[i] == rest[i]);
            assert(exists|i: int| 0 <= i < events.len() && (#[trigger] events[i]).2);
        } else if events.last().2 {
            assert(exists|i: int| 0 <= i < events.len() && (#[trigger] events[i]).2);
        } else {
            assert forall|i: int| 0 <= i < events.len() implies !(#[trigger] events[i]).2 by {
                if i < rest.len() {
                    assert(rest[i] == events[i]);
                }
            }
        }
    }
}

/// What the wheel over the layer list does: the list moves one row down or
/// up, within the last full page, and nothing else changes.
pub open spec fn scrolled_layers(before: Session, after: Session, down: bool, capacity: usize) -> bool {
    let count = before.current().layers.len() as int;
    let maximum = if count > capacity { count - capacity } else { 0 };
    let scroll = before.layer_scroll as int;
    &&& after.layer_scroll == if down {
        if scroll + 1 < maximum { scroll + 1 } else { maximum }
    } else {
        if scroll > 0 { scroll - 1 } else { 0 }
    }
    &&& after.document == before.document
    &&& after.history == before.history
    &&& after.notice == before.notice
    &&& after.layer_name_edit_recorded == before.layer_name_edit_recorded
    &&& after.layer_opacity_drag_recorded == before.layer_opacity_drag_recorded
    &&& after.pending_command == before.pending_command
}

/// What undo does to the session, with `undone` its result: the history
/// brings back the document before the last edit, or nothing changes when
/// there is none.
pub open spec fn undo_outcome(before: Session, after: Session, capacity: usize, undone: bool) -> bool {
    match before.history@.undone(before.current()) {
        None => {
            &&& !undone
            &&& after.document matches Some(document) && document@ == before.current()
            &&& after.history@ == before.history@
            &&& after.layer_name_edit_recorded == before.layer_name_edit_recorded
            &&& after.notice == before.notice
            &&& after.layer_scroll == before.layer_scroll
            &&& after.layer_opacity_drag_recorded == before.layer_opacity_drag_recorded
            &&& after.pending_command == before.pending_command
        },
        Some((history, restored)) => {
            &&& undone
            &&& after.document matches Some(document) && document@ == restored
            &&& after.history@ == history
            &&& after.layer_name_edit_recorded is None
            &&& after.notice is None
            &&& after.layer_scroll == revealed_scroll(
                before.layer_scroll as int,
                restored.layers.len() as int,
                restored.active_layer as int,
                capacity as int,
            )
            &&& after.layer_opacity_drag_recorded == before.layer_opacity_drag_recorded
            &&& after.pending_command == before.pending_command
        },
    }
}

/// What redo does to the session, with `redone` its result: the history
/// brings back the document that the last undo replaced, or nothing changes
/// when there is none.
pub open spec fn redo_outcome(before: Session, after: Session, capacity: usize, redone: bool) -> bool {
    match before.history@.redone(before.current()) {
        None => {
            &&& !redone
            &&& after.document matches Some(document) && document@ == before.current()
            &&& after.history@ == before.history@
            &&& after.layer_name_edit_recorded == before.layer_name_edit_recorded
            &&& after.notice == before.notice
            &&& after.layer_scroll == before.layer_scroll
            &&& after.layer_opacity_drag_recorded == before.layer_opacity_drag_recorded
            &&& after.pending_command == before.pending_command
        },
        Some((history, restored)) => {
            &&& redone
            &&& after.document matches Some(document) && document@ == restored
            &&& after.history@ == history
            &&& after.layer_name_edit_recorded is None
            &&& after.notice is None
            &&& after.layer_scroll == revealed_scroll(
                before.layer_scroll as int,
                restored.layers.len() as int,
                restored.active_layer as int,
                capacity as int,
            )
            &&& after.layer_opacity_drag_recorded == before.layer_opacity_drag_recorded
            &&& after.pending_command == before.pending_command
        },
    }
}

/// Recording a well-formed document keeps every snapshot well formed.
pub proof fn lemma_recorded_snapshots_wf(history: HistoryView, document: DocumentView)
    requires
        snapshots_wf(history.undo),
        document.wf(),
    ensures
        snapshots_wf(history.recorded(document).undo),
        snapshots_wf(history.recorded(document).redo),
{
    let kept = super::history::trimmed(history.undo, crate::document::pixel_memory(document.layers));
    super::history::lemma_trimmed_is_suffix(history.undo, crate::document::pixel_memory(document.layers));
    let recorded = history.recorded(document);
    assert forall|i: int| 0 <= i < recorded.undo.len() implies (#[trigger] recorded.undo[i]).0.wf() by {
        if i < kept.len() {
            assert(kept[i] == history.undo[i + history.undo.len() - kept.len()]);
        }
    }
}

/// Undo and redo of a well-formed document keep every document they touch
/// well formed.
pub proof fn lemma_undo_redo_snapshots_wf(history: HistoryView, document: DocumentView)
    requires
        snapshots_wf(history.undo),
        snapshots_wf(history.redo),
        document.wf(),
    ensures
        history.undone(document) matches Some((undone, restored)) ==> snapshots_wf(undone.undo)
            && snapshots_wf(undone.redo) && restored.wf(),
        history.redone(document) matches Some((redone, restored)) ==> snapshots_wf(redone.undo)
            && snapshots_wf(redone.redo) && restored.wf(),
{
    if history.undo.len() > 0 {
        let (undone, restored) = history.undone(document).unwrap();
        assert(history.undo[history.undo.len() - 1].0.wf());
        assert forall|i: int| 0 <= i < undone.undo.len() implies (#[trigger] undone.undo[i]).0.wf() by {
            assert(undone.undo[i] == history.undo[i]);
        }
        assert forall|i: int| 0 <= i < undone.redo.len() implies (#[trigger] undone.redo[i]).0.wf() by {
            if i < history.redo.len() {
                assert(undone.redo[i] == history.redo[i]);
            }
        }
    }
    if history.redo.len() > 0 {
        let (redone, restored) = history.redone(document).unwrap();
        assert(history.redo[history.redo.len() - 1].0.wf());
        assert forall|i: int| 0 <= i < redone.redo.len() implies (#[trigger] redone.redo[i]).0.wf() by {
            assert(redone.redo[i] == history.redo[i]);
        }
        assert forall|i: int| 0 <= i < redone.undo.len() implies (#[trigger] redone.undo[i]).0.wf() by {
            if i < history.undo.len() {
                assert(redone.undo[i] == history.undo[i]);
            }
        }
    }
}

impl Session {
    /// Scrolls the layer list so that the active layer shows.
    pub fn reveal_active_layer(&mut self, capacity: usize)
        requires
            old(self).document matches Some(document) && document@.wf(),
            capacity >= 1,
        ensures
            final(self).layer_scroll == revealed_scroll(
                old(self).layer_scroll as int,
                old(self).current().layers.len() as int,
                old(self).current().active_layer as int,
                capacity as int,
            ),
            final(self).document == old(self).document,
            final(self).history == old(self).history,
            final(self).notice == old(self).notice,
            final(self).layer_name_edit_recorded == old(self).layer_name_edit_recorded,
            final(self).layer_opacity_drag_recorded == old(self).layer_opacity_drag_recorded,
            final(self).pending_command == old(self).pending_command,
    {
        let (count, active) = match &self.document {
            Some(document) => (document.layers.len(), document.active_layer),
            None => (1, 0),
        };
        let from_top = count - 1 - active;
        let mut scroll = self.layer_scroll;
        if from_top < scroll {
            scroll = from_top;
        } else if from_top - scroll >= capacity {
            scroll = from_top - capacity + 1;
        }
        let maximum = if count > capacity { count - capacity } else { 0 };
        self.layer_scroll = if scroll < maximum { scroll } else { maximum };
    }

    /// Keeps the layer-list scroll within the last full page.
    pub fn clamp_layer_scroll(&mut self, capacity: usize)
        requires
            old(self).document is Some,
        ensures
            final(self).layer_scroll == ({
                let count = old(self).current().layers.len() as int;
                let maximum = if count > capacity { count - capacity } else { 0 };
                if old(self).layer_scroll < maximum { old(self).layer_scroll as int } else { maximum }
            }),
            final(self).document == old(self).document,
            final(self).history == old(self).history,
            final(self).notice == old(self).notice,
            final(self).layer_name_edit_recorded == old(self).layer_name_edit_recorded,
            final(self).layer_opacity_drag_recorded == old(self).layer_opacity_drag_recorded,
            final(self).pending_command == old(self).pending_command,
    {
        let count = match &self.document {
            Some(document) => document.layers.len(),
            None => 0,
        };
        let maximum = if count > capacity { count - capacity } else { 0 };
        if self.layer_scroll > maximum {
            self.layer_scroll = maximum;
        }
    }

    /// The mouse wheel over the layer list: one row down or up, within the
    /// last full page.
    pub fn scroll_layers(&mut self, down: bool, capacity: usize)
        requires
            old(self).document is Some,
        ensures
            scrolled_layers(*old(self), *final(self), down, capacity),
    {
        let count = match &self.document {
            Some(document) => document.layers.len(),
            None => 0,
        };
        let maximum = if count > capacity { count - capacity } else { 0 };
        if down {
            let next = if self.layer_scroll < usize::MAX { self.layer_scroll + 1 } else { usize::MAX };
            self.layer_scroll = if next < maximum { next } else { maximum };
        } else if self.layer_scroll > 0 {
            self.layer_scroll = self.layer_scroll - 1;
        }
    }

    /// Makes layer `index` the active one.
    pub fn select_layer(&mut self, index: usize)
        requires
            old(self).wf(),
            old(self).document matches Some(document) && index < document.layers@.len(),
        ensures
            final(self).wf(),
            final(self).document matches Some(document) && document@ == (DocumentView {
                active_layer: index,
                ..old(self).current()
            }),
            old(self).current().active_layer != index ==> final(self).layer_name_edit_recorded is None
                && final(self).notice is None,
            old(self).current().active_layer == index ==> final(self).layer_name_edit_recorded
                == old(self).layer_name_edit_recorded && final(self).notice == old(self).notice,
            final(self).history == old(self).history,
            final(self).layer_scroll == old(self).layer_scroll,
            final(self).layer_opacity_drag_recorded == old(self).layer_opacity_drag_recorded,
            final(self).pending_command == old(self).pending_command,
    {
        let mut document = self.document.take().unwrap();
        if document.active_layer != index {
            let ghost before = document@;
            document.active_layer = index;
            proof {
                lemma_layer_replaced_wf(before, index as int, before.layers[index as int], index);
                assert(before.layers.update(index as int, before.layers[index as int]) =~= before.layers);
            }
            self.layer_name_edit_recorded = None;
            self.notice = None;
        }
        self.document = Some(document);
    }

    /// Shows or hides layer `index`, as one undo step.
    pub fn toggle_layer_visibility(&mut self, index: usize)
        requires
            old(self).wf(),
            old(self).history.next_revision < u64::MAX,
            old(self).document matches Some(document) && index < document.layers@.len(),
        ensures
            final(self).wf(),
            final(self).document matches Some(document) && document@ == with_layer(
                old(self).current(),
                index as int,
                LayerView {
                    visible: !old(self).current().layers[index as int].visible,
                    ..old(self).current().layers[index as int]
                },
            ),
            final(self).history@ == old(self).history@.recorded(old(self).current()),
            final(self).layer_name_edit_recorded is None,
            final(self).notice is None,
            final(self).layer_scroll == old(self).layer_scroll,
            final(self).layer_opacity_drag_recorded == old(self).layer_opacity_drag_recorded,
            final(self).pending_command == old(self).pending_command,
    {
        let mut document = self.document.take().unwrap();
        let ghost before = document@;
        proof {
            lemma_recorded_snapshots_wf(self.history@, before);
            super::history::lemma_operations_keep_revisions_ordered(self.history@, before);
        }
        self.history.checkpoint(&document);
        let layer = document.layer_mut(index);
        layer.visible = !layer.visible;
        proof {
            assert(crate::document::layer_fits(before.layers[index as int], before.width, before.height));
            assert(document@.layers[index as int] == (LayerView {
                visible: !before.layers[index as int].visible,
                ..before.layers[index as int]
            }));
            lemma_layer_replaced_wf(before, index as int, document@.layers[index as int], before.active_layer);
            assert(document@.layers =~= before.layers.update(index as int, document@.layers[index as int]));
        }
        self.document = Some(document);
        self.layer_name_edit_recorded = None;
        self.notice = None;
    }
}

impl Session {
    /// The name field of the active layer now holds `name`. The first change
    /// while the field keeps focus is one undo step; losing focus ends it.
    pub fn rename_active_layer(&mut self, name: String, focused: bool)
        requires
            old(self).wf(),
            old(self).history.next_revision < u64::MAX,
            old(self).document is Some,
        ensures
            final(self).wf(),
            final(self).document matches Some(document) && (
                document@,
                final(self).history@,
                final(self).layer_name_edit_recorded,
            ) == rename_change(
                old(self).current(),
                old(self).history@,
                old(self).layer_name_edit_recorded,
                (name@, focused),
            ),
            final(self).notice == if name@ != old(self).current().layers[old(self).current().active_layer as int].name {
                None
            } else {
                old(self).notice
            },
            final(self).layer_scroll == old(self).layer_scroll,
            final(self).layer_opacity_drag_recorded == old(self).layer_opacity_drag_recorded,
            final(self).pending_command == old(self).pending_command,
    {
        let mut document = self.document.take().unwrap();
        let ghost before = document@;
        let active = document.active_layer;
        proof {
            assert(crate::document::layer_fits(before.layers[active as int], before.width, before.height));
        }
        if document.active_layer().name != name {
            if !matches!(self.layer_name_edit_recorded, Some(recorded) if recorded == active) {
                proof {
                    lemma_recorded_snapshots_wf(self.history@, before);
                    super::history::lemma_operations_keep_revisions_ordered(self.history@, before);
                }
                self.history.checkpoint(&document);
                self.layer_name_edit_recorded = Some(active);
            }
            let layer = document.active_layer_mut();
            layer.name = name;
            proof {
                assert(document@.layers[active as int] == (LayerView { name: name@, ..before.layers[active as int] }));
                lemma_layer_replaced_wf(before, active as int, document@.layers[active as int], before.active_layer);
                assert(document@.layers =~= before.layers.update(active as int, document@.layers[active as int]));
            }
            self.notice = None;
        }
        self.document = Some(document);
        if !focused {
            self.layer_name_edit_recorded = None;
        }
    }

    /// The opacity slider of the active layer reported `opacity`. The first
    /// change of a drag is one undo step for the whole drag; a change without
    /// a drag is one step by itself.
    pub fn change_active_opacity(&mut self, opacity: u8, started: bool, changed: bool, dragging: bool)
        requires
            old(self).wf(),
            old(self).history.next_revision < u64::MAX,
            old(self).document is Some,
        ensures
            final(self).wf(),
            final(self).document matches Some(document) && (
                document@,
                final(self).history@,
                final(self).layer_opacity_drag_recorded,
            ) == opacity_change(
                old(self).current(),
                old(self).history@,
                old(self).layer_opacity_drag_recorded,
                (opacity, started, changed, dragging),
            ),
            final(self).layer_name_edit_recorded == if changed { None } else { old(self).layer_name_edit_recorded },
            final(self).notice == if changed { None } else { old(self).notice },
            final(self).layer_scroll == old(self).layer_scroll,
            final(self).pending_command == old(self).pending_command,
    {
        let mut document = self.document.take().unwrap();
        let ghost before = document@;
        let active = document.active_layer;
        if started {
            self.layer_opacity_drag_recorded = false;
        }
        if changed && !self.layer_opacity_drag_recorded {
            proof {
                lemma_recorded_snapshots_wf(self.history@, before);
                super::history::lemma_operations_keep_revisions_ordered(self.history@, before);
            }
            self.history.checkpoint(&document);
            self.layer_opacity_drag_recorded = dragging;
        }
        if changed {
            proof {
                assert(crate::document::layer_fits(before.layers[active as int], before.width, before.height));
            }
            let layer = document.active_layer_mut();
            layer.opacity = opacity;
            proof {
                assert(document@.layers[active as int] == (LayerView { opacity, ..before.layers[active as int] }));
                lemma_layer_replaced_wf(before, active as int, document@.layers[active as int], before.active_layer);
                assert(document@.layers =~= before.layers.update(active as int, document@.layers[active as int]));
            }
            self.layer_name_edit_recorded = None;
            self.notice = None;
        }
        self.document = Some(document);
        if !dragging {
            self.layer_opacity_drag_recorded = false;
        }
    }

    /// Moves the active layer one step up, as one undo step, when it is not
    /// the top one.
    pub fn move_active_layer_up(&mut self, capacity: usize)
        requires
            old(self).wf(),
            old(self).history.next_revision < u64::MAX,
            old(self).document is Some,
            capacity >= 1,
        ensures
            final(self).wf(),
            ({
                let before = old(self).current();
                let active = before.active_layer as int;
                if active + 1 < before.layers.len() {
                    let moved = swapped_layers(before, active);
                    &&& final(self).document matches Some(document) && document@ == moved
                    &&& final(self).history@ == old(self).history@.recorded(before)
                    &&& final(self).layer_name_edit_recorded is None
                    &&& final(self).notice is None
                    &&& final(self).layer_scroll == revealed_scroll(
                        old(self).layer_scroll as int,
                        moved.layers.len() as int,
                        moved.active_layer as int,
                        capacity as int,
                    )
                } else {
                    &&& final(self).document == old(self).document
                    &&& final(self).history == old(self).history
                    &&& final(self).layer_name_edit_recorded == old(self).layer_name_edit_recorded
                    &&& final(self).notice == old(self).notice
                    &&& final(self).layer_scroll == old(self).layer_scroll
                }
            }),
            final(self).layer_opacity_drag_recorded == old(self).layer_opacity_drag_recorded,
            final(self).pending_command == old(self).pending_command,
    {
        let mut document = self.document.take().unwrap();
        let ghost before = document@;
        if document.active_layer + 1 < document.layers.len() {
            proof {
                lemma_recorded_snapshots_wf(self.history@, before);
                super::history::lemma_operations_keep_revisions_ordered(self.history@, before);
                lemma_swapped_layers_wf(before, before.active_layer as int);
            }
            self.history.checkpoint(&document);
            document.move_active_up();
            self.document = Some(document);
            self.layer_name_edit_recorded = None;
            self.notice = None;
            self.reveal_active_layer(capacity);
        } else {
            self.document = Some(document);
        }
    }

    /// Moves the active layer one step down, as one undo step, when it is
    /// not the bottom one.
    pub fn move_active_layer_down(&mut self, capacity: usize)
        requires
            old(self).wf(),
            old(self).history.next_revision < u64::MAX,
            old(self).document is Some,
            capacity >= 1,
        ensures
            final(self).wf(),
            ({
                let before = old(self).current();
                let active = before.active_layer as int;
                if active > 0 {
                    let moved = swapped_layers(before, active - 1);
                    &&& final(self).document matches Some(document) && document@ == moved
                    &&& final(self).history@ == old(self).history@.recorded(before)
                    &&& final(self).layer_name_edit_recorded is None
                    &&& final(self).notice is None
                    &&& final(self).layer_scroll == revealed_scroll(
                        old(self).layer_scroll as int,
                        moved.layers.len() as int,
                        moved.active_layer as int,
                        capacity as int,
                    )
                } else {
                    &&& final(self).document == old(self).document
                    &&& final(self).history == old(self).history
                    &&& final(self).layer_name_edit_recorded == old(self).layer_name_edit_recorded
                    &&& final(self).notice == old(self).notice
                    &&& final(self).layer_scroll == old(self).layer_scroll
                }
            }),
            final(self).layer_opacity_drag_recorded == old(self).layer_opacity_drag_recorded,
            final(self).pending_command == old(self).pending_command,
    {
        let mut document = self.document.take().unwrap();
        let ghost before = document@;
        if document.active_layer > 0 {
            proof {
                lemma_recorded_snapshots_wf(self.history@, before);
                super::history::lemma_operations_keep_revisions_ordered(self.history@, before);
                lemma_swapped_layers_wf(before, before.active_layer as int - 1);
            }
            self.history.checkpoint(&document);
            document.move_active_down();
            self.document = Some(document);
            self.layer_name_edit_recorded = None;
            self.notice = None;
            self.reveal_active_layer(capacity);
        } else {
            self.document = Some(document);
        }
    }

    /// Adds an empty layer on top, as one undo step, or says why not.
    pub fn add_layer(&mut self) -> (result: Result<(), DocumentError>)
        requires
            old(self).wf(),
            old(self).history.next_revision < u64::MAX,
            old(self).document matches Some(document) && (add_layer_error(document@) is None
                ==> document.next_layer_number < u32::MAX),
        ensures
            final(self).wf(),
            ({
                let before = old(self).current();
                match add_layer_error(before) {
                    Some(error) => {
                        &&& result == Err::<(), DocumentError>(error)
                        &&& final(self).document matches Some(document) && document@ == before
                        &&& final(self).history@ == old(self).history@
                        &&& final(self).layer_scroll == old(self).layer_scroll
                        &&& final(self).notice matches Some(notice) && notice@ == "LAYER LIMIT REACHED"@
                    },
                    None => match result {
                        Ok(_) => {
                            &&& final(self).document matches Some(document) && document@ == added_layer(before)
                            &&& final(self).history@ == old(self).history@.recorded(before)
                            &&& final(self).layer_scroll == 0
                            &&& final(self).notice is None
                        },
                        Err(error) => {
                            &&& error == DocumentError::AllocationFailed
                            &&& final(self).document matches Some(document) && document@ == before
                            &&& final(self).history@ == old(self).history@
                            &&& final(self).layer_scroll == old(self).layer_scroll
                            &&& final(self).notice matches Some(notice) && notice@ == "NOT ENOUGH MEMORY"@
                        },
                    },
                }
            }),
            final(self).layer_name_edit_recorded == old(self).layer_name_edit_recorded,
            final(self).layer_opacity_drag_recorded == old(self).layer_opacity_drag_recorded,
            final(self).pending_command == old(self).pending_command,
    {
        let mut document = self.document.take().unwrap();
        let ghost before = document@;
        let snapshot = document.duplicate();
        proof {
            assert(before.width as int * before.height as int * (before.layers.len() + 1) <= u64::MAX) by (nonlinear_arith)
                requires
                    before.width as int * before.height as int * before.layers.len() <= crate::document::MAX_PIXELS,
                    before.layers.len() >= 1,
                    before.width as int * before.height as int >= 0;
        }
        let result = document.add_layer();
        match result {
            Ok(()) => {
                proof {
                    lemma_recorded_snapshots_wf(self.history@, before);
                    super::history::lemma_operations_keep_revisions_ordered(self.history@, before);
                    lemma_added_layer_wf(before);
                }
                self.history.remember(snapshot);
                self.layer_scroll = 0;
                self.notice = None;
            },
            Err(DocumentError::AllocationFailed) => {
                self.notice = Some("NOT ENOUGH MEMORY");
            },
            Err(_) => {
                self.notice = Some("LAYER LIMIT REACHED");
            },
        }
        self.document = Some(document);
        result
    }

    /// Deletes the active layer, as one undo step, unless it is the only one.
    pub fn delete_active_layer(&mut self, capacity: usize)
        requires
            old(self).wf(),
            old(self).history.next_revision < u64::MAX,
            old(self).document is Some,
            capacity >= 1,
        ensures
            final(self).wf(),
            ({
                let before = old(self).current();
                if before.layers.len() > 1 {
                    let removed = removed_active_layer(before);
                    &&& final(self).document matches Some(document) && document@ == removed
                    &&& final(self).history@ == old(self).history@.recorded(before)
                    &&& final(self).notice is None
                    &&& final(self).layer_scroll == revealed_scroll(
                        old(self).layer_scroll as int,
                        removed.layers.len() as int,
                        removed.active_layer as int,
                        capacity as int,
                    )
                } else {
                    &&& final(self).document == old(self).document
                    &&& final(self).history == old(self).history
                    &&& final(self).notice matches Some(notice) && notice@ == "KEEP ONE LAYER"@
                    &&& final(self).layer_scroll == old(self).layer_scroll
                }
            }),
            final(self).layer_name_edit_recorded == old(self).layer_name_edit_recorded,
            final(self).layer_opacity_drag_recorded == old(self).layer_opacity_drag_recorded,
            final(self).pending_command == old(self).pending_command,
    {
        let mut document = self.document.take().unwrap();
        let ghost before = document@;
        if document.layers.len() > 1 {
            proof {
                lemma_recorded_snapshots_wf(self.history@, before);
                super::history::lemma_operations_keep_revisions_ordered(self.history@, before);
                lemma_removed_layer_wf(before);
            }
            self.history.checkpoint(&document);
            document.remove_active_layer();
            self.document = Some(document);
            self.reveal_active_layer(capacity);
            self.notice = None;
        } else {
            self.document = Some(document);
            self.notice = Some("KEEP ONE LAYER");
        }
    }

    /// Brings back the document before the last edit. Returns whether there
    /// was one.
    pub fn undo(&mut self, capacity: usize) -> (undone: bool)
        requires
            old(self).wf(),
            old(self).document is Some,
            capacity >= 1,
        ensures
            final(self).wf(),
            undo_outcome(*old(self), *final(self), capacity, undone),
    {
        let mut document = self.document.take().unwrap();
        proof {
            lemma_undo_redo_snapshots_wf(self.history@, document@);
            super::history::lemma_operations_keep_revisions_ordered_without_record(self.history@, document@);
        }
        let undone = self.history.undo(&mut document);
        self.document = Some(document);
        if undone {
            self.layer_name_edit_recorded = None;
            self.reveal_active_layer(capacity);
            self.notice = None;
        }
        undone
    }

    /// Brings back the document that the last undo replaced. Returns whether
    /// there was one.
    pub fn redo(&mut self, capacity: usize) -> (redone: bool)
        requires
            old(self).wf(),
            old(self).document is Some,
            capacity >= 1,
        ensures
            final(self).wf(),
            redo_outcome(*old(self), *final(self), capacity, redone),
    {
        let mut document = self.document.take().unwrap();
        proof {
            lemma_undo_redo_snapshots_wf(self.history@, document@);
            super::history::lemma_operations_keep_revisions_ordered_without_record(self.history@, document@);
        }
        let redone = self.history.redo(&mut document);
        self.document = Some(document);
        if redone {
            self.layer_name_edit_recorded = None;
            self.reveal_active_layer(capacity);
            self.notice = None;
        }
        redone
    }

    /// Adds a decoded image as a new top layer named `name`, as one undo
    /// step, and says how that went.
    pub fn import_image(&mut self, name: String, image: DecodedImage, capacity: usize) -> (result: Result<(), DocumentError>)
        requires
            old(self).wf(),
            old(self).history.next_revision < u64::MAX,
            old(self).document is Some,
            capacity >= 1,
        ensures
            final(self).wf(),
            ({
                let before = old(self).current();
                match import_error(before, image.width, image.height, image.pixels@.len() as int) {
                    Some(error) => {
                        &&& result == Err::<(), DocumentError>(error)
                        &&& final(self).document matches Some(document) && document@ == before
                        &&& final(self).history@ == old(self).history@
                        &&& final(self).layer_scroll == old(self).layer_scroll
                    },
                    None => match result {
                        Ok(_) => {
                            let after = imported(before, name@, image.width, image.height, image.pixels@);
                            &&& final(self).document matches Some(document) && document@ == after
                            &&& final(self).history@ == old(self).history@.recorded(before)
                            &&& final(self).layer_scroll == revealed_scroll(
                                old(self).layer_scroll as int,
                                after.layers.len() as int,
                                after.active_layer as int,
                                capacity as int,
                            )
                        },
                        Err(error) => {
                            &&& error == DocumentError::AllocationFailed
                            &&& final(self).document matches Some(document) && document@ == before
                            &&& final(self).history@ == old(self).history@
                            &&& final(self).layer_scroll == old(self).layer_scroll
                        },
                    },
                }
            }),
            final(self).notice matches Some(notice) && notice@ == match result {
                Ok(_) => "IMAGE IMPORTED"@,
                Err(DocumentError::AllocationFailed) => "NOT ENOUGH MEMORY"@,
                Err(DocumentError::TooLarge) => "IMAGE TOO LARGE"@,
                Err(DocumentError::InvalidDimensions) => "INVALID IMAGE"@,
            },
            final(self).layer_name_edit_recorded == old(self).layer_name_edit_recorded,
            final(self).layer_opacity_drag_recorded == old(self).layer_opacity_drag_recorded,
            final(self).pending_command == old(self).pending_command,
    {
        let mut document = self.document.take().unwrap();
        let ghost before = document@;
        proof {
            lemma_wf_covers(&document);
            assert forall|i: int| 0 <= i < document.layers@.len() implies {
                &&& (#[trigger] document.layers@[i]).pixels.wf()
                &&& document.layers@[i].pixels.width <= document.width || document.layers@[i].pixels.width <= image.width
                &&& document.layers@[i].pixels.height <= document.height || document.layers@[i].pixels.height <= image.height
            } by {
                assert(crate::document::layer_fits(before.layers[i], before.width, before.height));
                assert(before.layers[i] == document.layers@[i]@);
            }
        }
        let snapshot = document.duplicate();
        let DecodedImage { width, height, pixels } = image;
        let result = document.import_layer(name, width, height, pixels);
        self.notice = Some(import_notice(result));
        if result.is_ok() {
            proof {
                lemma_recorded_snapshots_wf(self.history@, before);
                super::history::lemma_operations_keep_revisions_ordered(self.history@, before);
                lemma_imported_wf(before, name@, width, height, image.pixels@);
            }
            self.history.remember(snapshot);
            self.document = Some(document);
            self.reveal_active_layer(capacity);
        } else {
            self.document = Some(document);
        }
        result
    }
}

impl Session {
    /// Records the current document as one undo step before the host program
    /// edits it, as a tool does when a stroke begins.
    pub fn checkpoint(&mut self)
        requires
            old(self).wf(),
            old(self).history.next_revision < u64::MAX,
            old(self).document is Some,
        ensures
            final(self).wf(),
            final(self).document == old(self).document,
            final(self).history@ == old(self).history@.recorded(old(self).current()),
            final(self).notice == old(self).notice,
            final(self).same_layer_state(old(self)),
            final(self).pending_command == old(self).pending_command,
    {
        match &self.document {
            Some(document) => {
                proof {
                    lemma_recorded_snapshots_wf(self.history@, document@);
                    super::history::lemma_operations_keep_revisions_ordered(self.history@, document@);
                }
                self.history.checkpoint(document);
            },
            None => {},
        }
    }
}

impl Session {
    /// The current document encoded as an image file in `format`.
    pub fn export_document(&self, format: ImageFormat) -> (bytes: Vec<u8>)
        requires
            self.document matches Some(document) && document@.wf(),
        ensures
            bytes@ == match format {
                ImageFormat::Bmp => bmp_bytes(self.current()),
                ImageFormat::Png => png_bytes(self.current()),
            },
    {
        let document = self.document.as_ref().unwrap();
        proof {
            lemma_wf_covers(document);
            let w = document.width as int;
            let h = document.height as int;
            assert(w * h <= crate::document::MAX_PIXELS) by (nonlinear_arith)
                requires
                    w * h * document@.layers.len() <= crate::document::MAX_PIXELS,
                    document@.layers.len() >= 1,
                    w * h >= 0;
            assert(w <= w * h && h <= w * h) by (nonlinear_arith)
                requires w >= 1, h >= 1;
            assert((w * 3 + 3) / 4 * 4 <= w * 3 + 3);
            assert((w * 3 + 3) / 4 * 4 * h <= (w * 3 + 3) * h) by (nonlinear_arith)
                requires (w * 3 + 3) / 4 * 4 <= w * 3 + 3, h >= 0;
            assert((w * 3 + 3) * h == 3 * (w * h) + 3 * h) by (nonlinear_arith);
            assert(h * (1 + 4 * w) == h + 4 * (w * h)) by (nonlinear_arith);
        }
        export(document, format)
    }
}

impl Session {
    /// The eyedropper: the visible composition at `(x, y)`, as an opaque
    /// color and its alpha; `None` outside the document.
    pub fn pick_color(&self, x: u32, y: u32) -> (picked: Option<(Color, u8)>)
        requires
            self.wf(),
            self.document is Some,
        ensures
            picked == if x < self.current().width && y < self.current().height {
                let color = composite(self.current().layers, x as int, y as int, Color(0));
                Some((Color::from_channels(color.red_s(), color.green_s(), color.blue_s(), 255), color.alpha_s()))
            } else {
                None::<(Color, u8)>
            },
    {
        let document = self.document.as_ref().unwrap();
        proof {
            lemma_wf_covers(document);
        }
        match document.composite_pixel(x, y, Color::rgba(0, 0, 0, 0)) {
            Some(color) => Some((Color::rgb(color.red(), color.green(), color.blue()), color.alpha())),
            None => None,
        }
    }

    /// The bucket: fills the region of the active layer around `(x, y)` with
    /// `color`, as one undo step, unless the layer is hidden or the pixel
    /// already holds `color`. Returns whether it filled.
    pub fn bucket_fill(&mut self, x: u32, y: u32, color: Color) -> (filled: bool)
        requires
            old(self).wf(),
            old(self).history.next_revision < u64::MAX,
            old(self).document is Some,
        ensures
            final(self).wf(),
            ({
                let before = old(self).current();
                let layer = before.layers[before.active_layer as int];
                let unchanged = x < before.width && y < before.height
                    && layer.pixels[pixel_index(layer.width, x as int, y as int)] == color.0;
                if !layer.visible || unchanged {
                    &&& !filled
                    &&& final(self).document == old(self).document
                    &&& final(self).history == old(self).history
                } else {
                    &&& filled
                    &&& final(self).document matches Some(document) && document@ == with_layer(
                        before,
                        before.active_layer as int,
                        LayerView {
                            pixels: flood_result(layer.pixels, layer.width, layer.height, x as int, y as int, color.0),
                            ..layer
                        },
                    )
                    &&& final(self).history@ == old(self).history@.recorded(before)
                }
            }),
            final(self).notice == old(self).notice,
            final(self).same_layer_state(old(self)),
            final(self).pending_command == old(self).pending_command,
    {
        let mut document = self.document.take().unwrap();
        let ghost before = document@;
        let active = document.active_layer;
        proof {
            lemma_wf_covers(&document);
            assert(crate::document::layer_fits(before.layers[active as int], before.width, before.height));
        }
        let layer = document.active_layer();
        let unchanged = match layer.pixels.get_pixel(x, y) {
            Some(current) => current.as_u32() == color.as_u32(),
            None => false,
        };
        if !layer.visible || unchanged {
            self.document = Some(document);
            return false;
        }
        proof {
            lemma_recorded_snapshots_wf(self.history@, before);
            super::history::lemma_operations_keep_revisions_ordered(self.history@, before);
        }
        self.history.checkpoint(&document);
        let layer = document.active_layer_mut();
        layer.pixels.flood_fill(x, y, color);
        proof {
            let filled_layer = document@.layers[active as int];
            assert(crate::document::layer_fits(filled_layer, before.width, before.height));
            lemma_layer_replaced_wf(before, active as int, filled_layer, before.active_layer);
            assert(document@.layers =~= before.layers.update(active as int, filled_layer));
        }
        self.document = Some(document);
        true
    }
}

} // verus!
