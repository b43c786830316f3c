use opendraw::document::{Document, DocumentError};
use opendraw::editor::new_document::{Background, NewDocumentForm};
use opendraw::editor::input::{EditorAction, EditorEvent, InputState};
use opendraw::editor::session::Session;
use opendraw::ui::UiContext;
use opendraw::editor::{shortcut, Command, Shortcut};
use opendraw::file::format::ImageFormat;
use opendraw::file::{read_document, save, OdrawError};
use opendraw::graphics::Color;
use opendraw::platform::{DecodedImage, Key};

/// Rows of the layer list in a 1000 x 700 window.
const CAPACITY: usize = 6;

fn editing(document: Document) -> Session {
    let mut session = Session::new();
    session.document = Some(document);
    session
}

#[test]
fn validates_dimensions_before_entering_the_editor() {
    let mut session = Session::new();
    assert_eq!(
        session.create_document("0", "1080", Color::rgb(255, 255, 255)),
        Err("SIZE MUST BE ABOVE 0")
    );
    assert!(session.document.is_none());

    assert_eq!(
        session.create_document("640", "480", Color::rgb(255, 255, 255)),
        Ok(())
    );
    assert!(session.has_unsaved_changes());
    let document = session.document.as_ref().unwrap();
    assert_eq!((document.width, document.height), (640, 480));
    assert_eq!(
        document.layers[0].pixels.get_pixel(0, 0),
        Some(Color::rgb(255, 255, 255))
    );
    assert_eq!(document.active_layer, 1);
}

#[test]
fn oversized_documents_are_refused_with_a_notice() {
    let mut session = Session::new();
    assert_eq!(
        session.create_document("16384", "16384", Color::rgb(0, 0, 0)),
        Err("MAX 64 MILLION PIXELS")
    );
    assert_eq!(
        session.create_document("12", "x", Color::rgb(0, 0, 0)),
        Err("ENTER NUMERIC HEIGHT")
    );
    assert!(session.document.is_none());
}

#[test]
fn layer_opacity_drag_is_one_undoable_change() {
    let mut session = editing(Document::new(4, 4, Color::rgb(255, 255, 255)).unwrap());
    session.change_active_opacity(200, true, true, true);
    session.change_active_opacity(120, false, true, true);
    session.change_active_opacity(60, false, true, false);

    assert_eq!(session.history.undo_history.len(), 1);
    assert!(session.document.as_ref().unwrap().active_layer().opacity < 255);
    assert!(session.undo(CAPACITY));
    assert_eq!(session.document.as_ref().unwrap().active_layer().opacity, 255);
}

#[test]
fn separate_opacity_clicks_are_separate_undo_steps() {
    let mut session = editing(Document::new(2, 2, Color::rgb(255, 255, 255)).unwrap());
    session.change_active_opacity(100, true, true, false);
    session.change_active_opacity(50, true, true, false);
    assert_eq!(session.history.undo_history.len(), 2);
    assert!(session.undo(CAPACITY));
    assert_eq!(session.document.as_ref().unwrap().active_layer().opacity, 100);
}

#[test]
fn layer_rename_is_one_undoable_edit() {
    let mut session = editing(Document::new(4, 4, Color::rgb(255, 255, 255)).unwrap());
    let mut name = String::from("LAYER 1");
    for _ in 0..7 {
        name.pop();
        session.rename_active_layer(name.clone(), true);
    }
    for character in "INK".chars() {
        name.push(character);
        session.rename_active_layer(name.clone(), true);
    }

    assert_eq!(session.document.as_ref().unwrap().active_layer().name, "INK");
    assert_eq!(session.history.undo_history.len(), 1);
    assert!(session.undo(CAPACITY));
    assert_eq!(
        session.document.as_ref().unwrap().active_layer().name,
        "LAYER 1"
    );
}

#[test]
fn visual_layer_list_selects_hides_and_scrolls_layers() {
    let mut document = Document::new(4, 4, Color::rgb(255, 255, 255)).unwrap();
    for _ in 0..6 {
        document.add_layer().unwrap();
    }
    let mut session = editing(document);

    session.select_layer(5);
    assert_eq!(session.document.as_ref().unwrap().active_layer, 5);

    session.toggle_layer_visibility(5);
    assert!(!session.document.as_ref().unwrap().layers[5].visible);
    assert_eq!(session.history.undo_history.len(), 1);

    session.scroll_layers(true, CAPACITY);
    assert_eq!(session.layer_scroll, 1);
    session.scroll_layers(true, CAPACITY);
    assert_eq!(session.layer_scroll, 1);
    session.scroll_layers(false, CAPACITY);
    assert_eq!(session.layer_scroll, 0);
}

#[test]
fn moving_and_deleting_layers_reveals_the_active_one() {
    let mut document = Document::new(2, 2, Color::rgb(255, 255, 255)).unwrap();
    for _ in 0..7 {
        document.add_layer().unwrap();
    }
    let mut session = editing(document);
    session.select_layer(0);
    session.reveal_active_layer(CAPACITY);
    assert_eq!(session.layer_scroll, 2);

    session.move_active_layer_up(CAPACITY);
    assert_eq!(session.document.as_ref().unwrap().active_layer, 1);
    assert_eq!(session.document.as_ref().unwrap().layers[1].name, "LAYER 1");
    session.move_active_layer_down(CAPACITY);
    session.move_active_layer_down(CAPACITY);
    assert_eq!(session.document.as_ref().unwrap().active_layer, 0);
    assert_eq!(session.history.undo_history.len(), 2);

    session.delete_active_layer(CAPACITY);
    assert_eq!(session.document.as_ref().unwrap().layers.len(), 7);
    assert_eq!(session.layer_scroll, 1);
    assert!(session.undo(CAPACITY));
    assert_eq!(session.document.as_ref().unwrap().layers.len(), 8);
}

#[test]
fn the_last_layer_cannot_be_deleted() {
    let mut session = editing(Document::new(2, 2, Color::rgb(255, 255, 255)).unwrap());
    session.delete_active_layer(CAPACITY);
    assert_eq!(session.notice, Some("KEEP ONE LAYER"));
    assert_eq!(session.document.as_ref().unwrap().layers.len(), 1);
    assert!(session.history.undo_history.is_empty());

    assert_eq!(session.add_layer(), Ok(()));
    assert_eq!(session.notice, None);
    assert_eq!(session.document.as_ref().unwrap().layers.len(), 2);
    assert_eq!(session.history.undo_history.len(), 1);
}

#[test]
fn close_request_waits_for_the_unsaved_changes_decision() {
    let mut session = editing(Document::new(2, 2, Color::rgb(255, 255, 255)).unwrap());
    let mut input = InputState::new((1000, 700));
    let mut form = NewDocumentForm::new();
    let mut ui = UiContext::default();

    // Closing the window only asks; the editor keeps running.
    assert_eq!(
        session.handle_input(&mut input, &mut form, &mut ui, EditorEvent::CloseRequested, true),
        EditorAction::Nothing
    );

    assert!(session.has_unsaved_changes());
    assert_eq!(session.take_command(), Some(Command::Exit));
    assert_eq!(session.take_command(), None);
    assert!(session.document.is_some());

    session.start_new_document();
    assert!(!session.has_unsaved_changes());
    assert!(session.document.is_none());
}

#[test]
fn saves_opens_and_preserves_the_current_document_on_invalid_files() {
    let mut document = Document::new(3, 2, Color::rgb(255, 255, 255)).unwrap();
    document.active_layer_mut().name = String::from("SAVED");
    document.add_layer().unwrap();
    document.active_layer_mut().opacity = 91;
    let mut session = editing(document);

    assert_eq!(
        shortcut(Key::Letter('S'), true, true),
        Some(Shortcut::Run(Command::Save))
    );
    let bytes = save(session.document.as_ref().unwrap()).unwrap();
    session.finish_save(Ok(())).unwrap();
    assert_eq!(session.notice, Some("DOCUMENT SAVED"));
    assert!(!session.has_unsaved_changes());
    session.rename_active_layer(String::from("CHANGED"), false);
    assert!(session.has_unsaved_changes());
    assert!(session.undo(CAPACITY));
    assert!(!session.has_unsaved_changes());
    assert!(session.redo(CAPACITY));
    assert!(session.has_unsaved_changes());
    session.open_document(Ok(bytes)).unwrap();
    assert_eq!(session.document.as_ref().unwrap().layers[0].name, "SAVED");
    assert_eq!(session.document.as_ref().unwrap().layers[1].opacity, 91);
    assert!(session.history.undo_history.is_empty());
    assert!(!session.has_unsaved_changes());
    assert_eq!(session.notice, Some("DOCUMENT OPENED"));

    session.select_layer(0);
    session.rename_active_layer(String::from("CURRENT"), false);
    assert!(session.open_document(Ok(b"invalid".to_vec())).is_err());
    assert_eq!(session.notice, Some("INVALID ODRAW FILE"));
    assert_eq!(session.document.as_ref().unwrap().layers[0].name, "CURRENT");
    assert!(session.has_unsaved_changes());
}

#[test]
fn failed_saves_and_reads_leave_the_revisions() {
    let mut session = editing(Document::new(2, 2, Color::rgb(255, 255, 255)).unwrap());
    session.history.start_document();
    assert!(session
        .finish_save(Err(OdrawError::Io(std::io::Error::other("disk full"))))
        .is_err());
    assert_eq!(session.notice, Some("FILE ERROR"));
    assert!(session.has_unsaved_changes());
    assert!(session
        .open_document(Err(OdrawError::Io(std::io::Error::other("missing"))))
        .is_err());
    assert!(session.document.is_some());
}

#[test]
fn imports_png_as_an_undoable_layer() {
    let mut session = editing(Document::new(2, 4, Color::rgb(255, 255, 255)).unwrap());
    assert_eq!(
        shortcut(Key::Letter('I'), true, true),
        Some(Shortcut::Run(Command::Import))
    );
    session
        .import_image(
            String::from("logo"),
            DecodedImage {
                width: 4,
                height: 2,
                pixels: vec![Color::rgb(20, 40, 60).as_u32(); 8],
            },
            CAPACITY,
        )
        .unwrap();
    assert_eq!(session.notice, Some("IMAGE IMPORTED"));
    let document = session.document.as_ref().unwrap();
    assert_eq!((document.width, document.height), (4, 4));
    assert_eq!(document.active_layer().name, "logo");

    assert!(session.undo(CAPACITY));
    let document = session.document.as_ref().unwrap();
    assert_eq!((document.width, document.height), (2, 4));
    assert!(session.redo(CAPACITY));
    assert_eq!(session.document.as_ref().unwrap().layers.len(), 2);
}

#[test]
fn invalid_images_are_refused_with_a_notice() {
    let mut session = editing(Document::new(2, 2, Color::rgb(255, 255, 255)).unwrap());
    let result = session.import_image(
        String::from("broken"),
        DecodedImage {
            width: 3,
            height: 3,
            pixels: vec![0; 8],
        },
        CAPACITY,
    );
    assert_eq!(result, Err(DocumentError::InvalidDimensions));
    assert_eq!(session.notice, Some("INVALID IMAGE"));
    assert_eq!(session.document.as_ref().unwrap().layers.len(), 1);
    assert!(session.history.undo_history.is_empty());
}

#[test]
fn eyedropper_samples_the_visible_composition_into_the_brush_color() {
    let mut document = Document::new(4, 4, Color::rgba(0, 0, 255, 128)).unwrap();
    document.add_layer().unwrap();
    document.active_layer_mut().opacity = 128;
    document
        .active_layer_mut()
        .pixels
        .blend_pixel(1, 1, Color::rgb(255, 0, 0));
    let expected = document
        .composite_pixel(1, 1, Color::rgba(0, 0, 0, 0))
        .unwrap();
    let session = editing(document);

    let (color, opacity) = session.pick_color(1, 1).unwrap();
    assert_eq!(
        color,
        Color::rgb(expected.red(), expected.green(), expected.blue())
    );
    assert_eq!(opacity, expected.alpha());
    assert_eq!(session.pick_color(4, 0), None);
}

#[test]
fn the_bucket_fills_one_undoable_region() {
    let white = Color::rgb(255, 255, 255);
    let red = Color::rgb(255, 0, 0);
    let mut session = editing(Document::new(3, 3, white).unwrap());
    assert!(session.bucket_fill(1, 1, red));
    assert_eq!(
        session.document.as_ref().unwrap().active_layer().pixels.pixels,
        vec![red.as_u32(); 9]
    );
    assert!(!session.bucket_fill(0, 0, red));
    assert_eq!(session.history.undo_history.len(), 1);
    session.document.as_mut().unwrap().active_layer_mut().visible = false;
    assert!(!session.bucket_fill(0, 0, white));
    assert!(session.undo(CAPACITY));
    assert_eq!(
        session.document.as_ref().unwrap().active_layer().pixels.get_pixel(2, 2),
        Some(white)
    );
}

#[test]
fn exports_png_and_bmp_from_the_keyboard_command() {
    let mut session = editing(Document::new(2, 2, Color::rgba(0, 0, 0, 0)).unwrap());
    assert_eq!(
        shortcut(Key::Letter('E'), true, true),
        Some(Shortcut::Run(Command::Export))
    );
    session.request(Command::Export);
    assert_eq!(session.take_command(), Some(Command::Export));
    let png = session.export_document(ImageFormat::Png);
    let bmp = session.export_document(ImageFormat::Bmp);
    session.finish_export(true);
    assert_eq!(&png[..8], b"\x89PNG\r\n\x1a\n");
    assert_eq!(&bmp[..2], b"BM");
    assert_eq!(session.notice, Some("IMAGE EXPORTED"));
}

#[test]
fn erasing_the_drawing_layer_preserves_the_background_and_layered_save() {
    let background = Color::rgb(55, 95, 170);
    let ink = Color::rgb(24, 24, 24);
    let mut session = Session::new();
    session.create_document("32", "24", background).unwrap();
    // A brush dab of radius 2.5 centered on pixel (10, 10) covers it fully.
    session.checkpoint();
    session
        .document
        .as_mut()
        .unwrap()
        .active_layer_mut()
        .pixels
        .blend_pixel(10, 10, ink);
    assert_eq!(
        session.document.as_ref().unwrap().active_layer().pixels.get_pixel(10, 10),
        Some(ink)
    );
    // An opaque eraser dab of radius 4.5 leaves none of the pixel's alpha.
    session.checkpoint();
    session
        .document
        .as_mut()
        .unwrap()
        .active_layer_mut()
        .pixels
        .erase_pixel(10, 10, 0);
    let document = session.document.as_ref().unwrap();
    assert_eq!(document.layers.len(), 2);
    assert_eq!(
        document.active_layer().pixels.get_pixel(10, 10).unwrap().alpha(),
        0
    );
    assert_eq!(
        document.composite_pixel(10, 10, Color::rgba(0, 0, 0, 0)),
        Some(background)
    );
    assert!(document.layers[0]
        .pixels
        .pixels
        .iter()
        .all(|&p| p == background.as_u32()));
    assert!(session.undo(CAPACITY));
    assert_eq!(
        session.document.as_ref().unwrap().active_layer().pixels.get_pixel(10, 10),
        Some(ink)
    );
    assert!(session.redo(CAPACITY));
    let bytes = save(session.document.as_ref().unwrap()).unwrap();
    let loaded = read_document(&bytes).unwrap();
    assert_eq!(loaded.layers.len(), 2);
    assert_eq!(loaded.layers[0].name, "BACKGROUND");
    assert_eq!(loaded.active_layer, 1);
    assert_eq!(
        loaded.composite_pixel(10, 10, Color::rgba(0, 0, 0, 0)),
        Some(background)
    );
}

#[test]
fn transparent_background_and_white_reset_work_with_pen_input() {
    let mut form = NewDocumentForm::new();
    // The pen taps the TRANSPARENT radio button.
    form.background = Background::Transparent;
    form.width_input = String::from("8");
    form.height_input = String::from("6");
    let mut session = Session::new();
    session
        .create_document(&form.width_input, &form.height_input, form.background_fill())
        .unwrap();
    let document = session.document.as_ref().unwrap();
    assert_eq!(document.layers.len(), 2);
    assert_eq!(document.active_layer, 1);
    assert!(document
        .layers
        .iter()
        .all(|layer| layer.pixels.pixels.iter().all(|&p| p == 0)));
    session.start_new_document();
    form.background_color = Color::rgb(70, 100, 180);
    form.background = Background::Transparent;
    // The pen taps the WHITE button.
    form.reset_white();
    assert_eq!(form.background, Background::Color);
    assert_eq!(form.background_color, Color::rgb(255, 255, 255));
}
