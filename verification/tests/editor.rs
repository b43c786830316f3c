use opendraw::document::Document;
use opendraw::editor::input::{EditorAction, EditorEvent, InputState, WheelTurn};
use opendraw::editor::session::Session;
use opendraw::ui::UiContext;
use opendraw::platform::MouseButton;
use opendraw::editor::history::{document_bytes, History, HISTORY_BYTE_LIMIT};
use opendraw::editor::new_document::{
    millimeters_to_pixels, preset, selected_preset, validate_dimensions, Background,
    DimensionError, Layout, NewDocumentForm, CANCEL_BUTTON, COLOR_PICKER_BASE, CREATE_BUTTON,
    HEIGHT_INPUT, OPEN_DOCUMENT_BUTTON, PRESET_BASE, PRESET_COUNT, RESET_WHITE_BUTTON,
    WIDTH_INPUT,
};
use opendraw::editor::{
    after_save_prompt, closes_document, editor_viewport, file_error_notice, import_notice, layer_controls_top, layer_list_capacity,
    layer_list_rect, shortcut, Command, Proceed, Shortcut,
};
use opendraw::file::OdrawError;
use opendraw::graphics::{Color, Rect};
use opendraw::platform::{Key, SaveChanges};

#[test]
fn undo_and_redo_restore_snapshots_and_new_edits_clear_redo() {
    let white = Color::rgb(255, 255, 255);
    let black = Color::rgb(0, 0, 0);
    let red = Color::rgb(255, 0, 0);
    let mut session = Session::new();
    session.document = Some(Document::new(3, 3, white).unwrap());
    let mut input = InputState::new((1000, 700));
    let mut form = NewDocumentForm::new();
    let mut ui = UiContext::default();
    session.checkpoint();
    session
        .document
        .as_mut()
        .unwrap()
        .active_layer_mut()
        .pixels
        .blend_pixel(1, 1, black);
    let pixel = |session: &Session| {
        session
            .document
            .as_ref()
            .unwrap()
            .active_layer()
            .pixels
            .get_pixel(1, 1)
    };

    let mut press = |session: &mut Session, key: Key| {
        session.handle_input(&mut input, &mut form, &mut ui, EditorEvent::KeyDown { key }, true)
    };
    press(&mut session, Key::Control);
    assert_eq!(
        press(&mut session, Key::Letter('Z')),
        EditorAction::HistoryMoved { resized: false }
    );
    assert_eq!(pixel(&session), Some(white));
    press(&mut session, Key::Letter('Y'));
    assert_eq!(pixel(&session), Some(black));

    press(&mut session, Key::Letter('Z'));
    session.checkpoint();
    session
        .document
        .as_mut()
        .unwrap()
        .active_layer_mut()
        .pixels
        .blend_pixel(1, 1, red);
    assert_eq!(press(&mut session, Key::Letter('Y')), EditorAction::Nothing);
    assert_eq!(pixel(&session), Some(red));
}

#[test]
fn saved_revisions_track_unsaved_changes() {
    let mut history = History::new();
    assert!(!history.has_unsaved_changes(false));
    let mut document = Document::new(2, 2, Color::rgb(255, 255, 255)).unwrap();
    history.start_document();
    assert!(history.has_unsaved_changes(true));
    history.mark_saved();
    assert!(!history.has_unsaved_changes(true));
    history.checkpoint(&document);
    document.active_layer_mut().opacity = 10;
    assert!(history.has_unsaved_changes(true));
    assert!(history.undo(&mut document));
    assert!(!history.has_unsaved_changes(true));
    assert!(history.redo(&mut document));
    assert!(history.has_unsaved_changes(true));
    history.reset();
    assert!(!history.has_unsaved_changes(false));
    history.open_document();
    assert!(!history.has_unsaved_changes(true));
}

#[test]
fn undo_with_empty_history_changes_nothing() {
    let mut history = History::new();
    let mut document = Document::new(1, 1, Color::rgb(1, 2, 3)).unwrap();
    assert!(!history.undo(&mut document));
    assert!(!history.redo(&mut document));
    assert_eq!(document.active_layer().pixels.get_pixel(0, 0), Some(Color::rgb(1, 2, 3)));
}

#[test]
fn history_drops_the_oldest_snapshots_beyond_its_byte_limit() {
    // Each snapshot of a 2048 x 2048 document holds 16 MiB of pixels.
    let document = Document::new(2048, 2048, Color::rgb(0, 0, 0)).unwrap();
    assert_eq!(document_bytes(&document), 16 * 1024 * 1024);
    let mut history = History::new();
    for _ in 0..10 {
        history.checkpoint(&document);
    }
    assert_eq!(history.undo_history.len(), 8);
    assert_eq!(8 * 16 * 1024 * 1024, HISTORY_BYTE_LIMIT);
    assert!(history.redo_history.is_empty());
}

#[test]
fn shortcuts_need_control_and_the_editor() {
    assert_eq!(shortcut(Key::Letter('Z'), false, true), None);
    assert_eq!(shortcut(Key::Letter('Z'), true, false), None);
    assert_eq!(
        shortcut(Key::Letter('O'), true, false),
        Some(Shortcut::Run(Command::Open))
    );
    assert_eq!(
        shortcut(Key::Letter('S'), true, true),
        Some(Shortcut::Run(Command::Save))
    );
    assert_eq!(
        shortcut(Key::Letter('E'), true, true),
        Some(Shortcut::Run(Command::Export))
    );
    assert_eq!(shortcut(Key::Letter('E'), true, false), None);
    assert_eq!(shortcut(Key::Enter, true, true), None);
}

#[test]
fn all_requested_presets_update_editable_dimensions() {
    let expected = [
        (1000, 1000),
        (800, 600),
        (1024, 768),
        (1440, 900),
        (1280, 1024),
        (1680, 1050),
        (1600, 1200),
        (1920, 1080),
        (1920, 1200),
        (3840, 2160),
        (1181, 1748),
        (370, 320),
    ];
    assert_eq!(selected_preset("1920", "1080"), Some(7));
    let layout = Layout::new((944, 601), 0);
    for (index, (width, height)) in expected.into_iter().enumerate() {
        let chosen = preset(index);
        assert_eq!((chosen.width, chosen.height), (width, height));
        let rect = layout.preset(index);
        assert_eq!(layout.control(PRESET_BASE + index as u32), Some(rect));
        assert_eq!(
            selected_preset(&width.to_string(), &height.to_string()),
            Some(index)
        );
    }
    assert_eq!(PRESET_COUNT, expected.len());
    assert_eq!(selected_preset("371", "320"), None);
    assert_eq!(selected_preset("", "320"), None);
    assert_eq!(millimeters_to_pixels(100), 1181);
    assert_eq!(millimeters_to_pixels(148), 1748);
}

#[test]
fn layout_centers_the_panel_and_scrolls_in_small_windows() {
    let wide = Layout::new((1000, 700), 0);
    assert_eq!(wide.panel.width, 820);
    assert_eq!(wide.panel.height, 560);
    assert_eq!(wide.panel.x, 90);
    assert_eq!(wide.panel.y, 70);
    assert_eq!(wide.maximum_scroll, 0);

    let small = Layout::new((640, 480), 0);
    assert_eq!(small.panel.width, 608);
    assert_eq!(small.panel.height, 984);
    assert!(small.maximum_scroll > 0);
    assert_eq!(small.maximum_scroll, 984 + 32 - 480);
    let scrolled = Layout::new((640, 480), 10_000);
    assert_eq!(scrolled.panel.y, 16 - small.maximum_scroll);
    assert!(scrolled.create.y >= 0 && scrolled.create.y + 32 <= 480);
}

#[test]
fn dimension_checks_come_in_order() {
    assert_eq!(validate_dimensions("0", "1080"), Err(DimensionError::Zero));
    assert_eq!(
        validate_dimensions("abc", "1080"),
        Err(DimensionError::WidthNotNumeric)
    );
    assert_eq!(
        validate_dimensions("640", ""),
        Err(DimensionError::HeightNotNumeric)
    );
    assert_eq!(
        validate_dimensions("16385", "10"),
        Err(DimensionError::TooLarge)
    );
    assert_eq!(validate_dimensions("640", "480"), Ok((640, 480)));
    assert_eq!(validate_dimensions("+16384", "1"), Ok((16384, 1)));
    assert_eq!(DimensionError::TooLarge.message(), "MAX SIZE IS 16384");
}

#[test]
fn file_errors_have_notices() {
    assert_eq!(
        file_error_notice(&OdrawError::UnsupportedVersion(2)),
        "UNSUPPORTED ODRAW VERSION"
    );
    assert_eq!(file_error_notice(&OdrawError::InvalidFile), "INVALID ODRAW FILE");
    assert_eq!(
        file_error_notice(&OdrawError::Io(std::io::Error::other("x"))),
        "FILE ERROR"
    );
}

#[test]
fn the_new_document_form_starts_at_full_hd_on_white() {
    let mut form = NewDocumentForm::new();
    assert_eq!(form.selected_preset(), Some(7));
    assert_eq!(form.background_fill(), Color::rgb(255, 255, 255));
    form.validation_error = Some("ENTER NUMERIC WIDTH");
    form.select_preset(10);
    assert_eq!((form.width_input.as_str(), form.height_input.as_str()), ("1181", "1748"));
    assert_eq!(form.validation_error, None);
    form.background = Background::Transparent;
    assert_eq!(form.background_fill(), Color::rgba(0, 0, 0, 0));
    form.reset_white();
    assert_eq!(form.background, Background::Color);

    form.validation_error = Some("SIZE MUST BE ABOVE 0");
    form.edited(Some('\u{8}'), false);
    assert_eq!(form.validation_error, Some("SIZE MUST BE ABOVE 0"));
    form.edited(Some('1'), false);
    assert_eq!(form.validation_error, None);
}

#[test]
fn small_windows_scroll_and_tab_reveal_every_control() {
    let window = (640, 480);
    let mut form = NewDocumentForm::new();
    assert!(Layout::new(window, 0).maximum_scroll > 0);
    let mut ids: Vec<u32> = (0..PRESET_COUNT as u32).map(|index| PRESET_BASE + index).collect();
    ids.extend([WIDTH_INPUT, HEIGHT_INPUT, RESET_WHITE_BUTTON]);
    ids.extend(COLOR_PICKER_BASE..COLOR_PICKER_BASE + 5);
    ids.extend([OPEN_DOCUMENT_BUTTON, CANCEL_BUTTON, CREATE_BUTTON]);
    for id in ids {
        form.reveal_focus(id, window);
        let layout = Layout::new(window, form.scroll);
        let rect = layout.control(id).unwrap();
        assert!(
            rect.y >= 16 && rect.y + rect.height as i32 <= 464,
            "id={id}, rect={rect:?}"
        );
    }
    form.scroll_by(4800, window);
    let layout = Layout::new(window, form.scroll);
    assert!(layout.create.y >= 0 && layout.create.y + 32 <= 480);
    form.scroll_by(-100_000, (1000, 700));
    assert_eq!(form.scroll, 0);
}

#[test]
fn the_editor_layout_follows_the_window() {
    assert_eq!(
        editor_viewport((1000, 700)),
        Rect::new(120, 56, 660, 608)
    );
    assert_eq!(layer_controls_top((1000, 700)), 526);
    assert_eq!(
        layer_list_rect((1000, 700)),
        Rect::new(788, 148, 204, 378)
    );
    assert_eq!(layer_list_capacity((1000, 700)), 6);
    assert_eq!(layer_controls_top((300, 200)), 230);
    assert_eq!(layer_list_capacity((300, 200)), 1);
}

#[test]
fn closing_commands_ask_about_unsaved_changes() {
    assert!(closes_document(Command::New));
    assert!(closes_document(Command::Open));
    assert!(closes_document(Command::Exit));
    assert!(!closes_document(Command::Save));
    assert!(!closes_document(Command::Export));
    assert_eq!(after_save_prompt(SaveChanges::Save), Proceed::AfterSaving);
    assert_eq!(after_save_prompt(SaveChanges::Discard), Proceed::Discard);
    assert_eq!(after_save_prompt(SaveChanges::Cancel), Proceed::Stop);
}

#[test]
fn the_window_center_is_halfway() {
    assert_eq!(opendraw::editor::window_center((1001, 700)), (500, 350));
}

#[test]
fn presets_carry_their_names() {
    let names = [
        "SQUARE", "SVGA", "XGA", "WXGA+", "SXGA", "WSXGA+", "UXGA", "FHD", "WUXGA", "4K", "POSTAL",
        "STICKER",
    ];
    for (index, name) in names.into_iter().enumerate() {
        assert_eq!(preset(index).name, name);
    }
}

#[test]
fn undo_then_redo_brings_the_edit_back() {
    let mut history = History::new();
    let mut document = Document::new(2, 2, Color::rgb(255, 255, 255)).unwrap();
    history.checkpoint(&document);
    document.layers[0].visible = false;
    assert!(history.undo(&mut document));
    assert!(document.layers[0].visible);
    assert!(history.redo(&mut document));
    assert!(!document.layers[0].visible);
    assert!(history.undo(&mut document));
    history.checkpoint(&document);
    document.layers[0].opacity = 9;
    assert!(!history.redo(&mut document));
    assert_eq!(document.layers[0].opacity, 9);
}

#[test]
fn keys_and_the_wheel_reach_the_editor() {
    let mut document = Document::new(4, 4, Color::rgb(255, 255, 255)).unwrap();
    for _ in 0..7 {
        document.add_layer().unwrap();
    }
    let mut session = Session::new();
    session.document = Some(document);
    let mut input = InputState::new((1000, 700));
    let mut form = NewDocumentForm::new();
    form.validation_error = Some("ENTER NUMERIC WIDTH");
    let mut ui = UiContext::default();

    // Without Control, letters are no shortcuts.
    session.handle_input(&mut input, &mut form, &mut ui, EditorEvent::KeyDown { key: Key::Letter('S') }, true);
    assert_eq!(session.pending_command, None);
    session.handle_input(&mut input, &mut form, &mut ui, EditorEvent::KeyDown { key: Key::Control }, true);
    assert!(input.control_down);
    session.handle_input(&mut input, &mut form, &mut ui, EditorEvent::KeyDown { key: Key::Letter('S') }, true);
    assert_eq!(session.take_command(), Some(Command::Save));
    session.handle_input(&mut input, &mut form, &mut ui, EditorEvent::KeyUp { key: Key::Control }, true);
    assert!(!input.control_down);

    // The wheel over the layer list scrolls it; over the canvas it zooms.
    let list = layer_list_rect((1000, 700));
    session.handle_input(&mut input, &mut form, &mut ui, EditorEvent::MouseMove { x: list.x + 5, y: list.y + 5 }, true);
    let action = session.handle_input(
        &mut input,
        &mut form,
        &mut ui,
        EditorEvent::MouseWheel { turn: WheelTurn::Down },
        true,
    );
    assert_eq!(action, EditorAction::Redraw);
    assert_eq!(session.layer_scroll, 1);
    session.handle_input(&mut input, &mut form, &mut ui, EditorEvent::MouseWheel { turn: WheelTurn::Up }, true);
    assert_eq!(session.layer_scroll, 0);
    session.handle_input(&mut input, &mut form, &mut ui, EditorEvent::MouseMove { x: 500, y: 300 }, true);
    assert_eq!(
        session.handle_input(&mut input, &mut form, &mut ui, EditorEvent::MouseWheel { turn: WheelTurn::Up }, true),
        EditorAction::Zoom { x: 500, y: 300 }
    );

    // The middle button pans over the canvas until it is released.
    session.handle_input(&mut input, &mut form, &mut ui, EditorEvent::MouseDown { button: MouseButton::Middle }, true);
    assert!(input.panning);
    assert_eq!(
        session.handle_input(&mut input, &mut form, &mut ui, EditorEvent::MouseMove { x: 510, y: 290 }, true),
        EditorAction::PointerMoved { from_x: 500, from_y: 300, x: 510, y: 290, panning: true }
    );
    session.handle_input(&mut input, &mut form, &mut ui, EditorEvent::MouseUp { button: MouseButton::Middle }, true);
    assert!(!input.panning);
    assert_eq!(
        session.handle_input(&mut input, &mut form, &mut ui, EditorEvent::MouseDown { button: MouseButton::Left }, true),
        EditorAction::BeginTool { x: 510, y: 290 }
    );

    // Typing hides the new-document notice; a control character does not.
    session.handle_input(&mut input, &mut form, &mut ui, EditorEvent::TextInput { character: '\u{7}' }, false);
    assert!(form.validation_error.is_some());
    session.handle_input(&mut input, &mut form, &mut ui, EditorEvent::TextInput { character: '7' }, false);
    assert_eq!(form.validation_error, None);

    session.handle_input(&mut input, &mut form, &mut ui, EditorEvent::Resized { width: 800, height: 600 }, true);
    assert_eq!(input.window, (800, 600));
}
