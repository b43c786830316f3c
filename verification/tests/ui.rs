use opendraw::graphics::{Color, FrameBuffer, Rect};
use opendraw::platform::{Key, MouseButton};
use opendraw::ui::{UiContext, UiEvent};

#[test]
fn text_input_accepts_focus_text_and_backspace() {
    let mut ui = UiContext::default();
    let mut framebuffer = FrameBuffer::default();
    let mut value = String::new();
    let rect = Rect::new(10, 10, 160, 32);
    framebuffer.resize(200, 60);

    ui.handle_event(&UiEvent::MouseMove { x: 20, y: 20 });
    ui.handle_event(&UiEvent::MouseDown {
        button: MouseButton::Left,
    });
    ui.text_input(&mut framebuffer, 1, rect, &mut value);
    ui.end_frame();
    ui.handle_event(&UiEvent::TextInput { character: 'A' });
    ui.text_input(&mut framebuffer, 1, rect, &mut value);
    ui.end_frame();
    assert_eq!(value, "A");

    ui.handle_event(&UiEvent::KeyDown {
        key: Key::Backspace,
    });
    ui.text_input(&mut framebuffer, 1, rect, &mut value);
    assert!(value.is_empty());
}

#[test]
fn text_input_stops_at_its_capacity_and_ignores_control_characters() {
    let mut ui = UiContext::default();
    let mut framebuffer = FrameBuffer::default();
    framebuffer.resize(100, 40);
    // 40 pixels wide: (40 - 16) / 12 = 2 characters.
    let rect = Rect::new(0, 0, 40, 20);
    let mut value = String::new();
    ui.handle_event(&UiEvent::MouseMove { x: 5, y: 5 });
    ui.handle_event(&UiEvent::MouseDown {
        button: MouseButton::Left,
    });
    for character in ['1', '\u{8}', '2', '3'] {
        ui.handle_event(&UiEvent::TextInput { character });
    }
    ui.text_input(&mut framebuffer, 7, rect, &mut value);
    assert_eq!(value, "12");
    assert_eq!(ui.focused, Some(7));
}

#[test]
fn tab_cycles_focus_in_drawing_order_and_enter_activates() {
    let mut ui = UiContext::default();
    let mut framebuffer = FrameBuffer::default();
    framebuffer.resize(100, 100);
    let first = Rect::new(0, 0, 10, 10);
    let second = Rect::new(20, 0, 10, 10);
    ui.begin_frame();
    assert!(!ui.button(&mut framebuffer, 5, first, "FIRST"));
    assert!(!ui.button(&mut framebuffer, 9, second, "SECOND"));
    ui.end_frame();
    assert_eq!(ui.focus_order, vec![5, 9]);

    ui.handle_event(&UiEvent::KeyDown { key: Key::Tab });
    assert_eq!(ui.focused, Some(5));
    ui.handle_event(&UiEvent::KeyDown { key: Key::Tab });
    assert_eq!(ui.focused, Some(9));
    ui.handle_event(&UiEvent::KeyDown { key: Key::Tab });
    assert_eq!(ui.focused, Some(5));

    ui.handle_event(&UiEvent::KeyDown { key: Key::Enter });
    ui.begin_frame();
    assert!(ui.button(&mut framebuffer, 5, first, "FIRST"));
    assert!(!ui.button(&mut framebuffer, 9, second, "SECOND"));
    ui.end_frame();
}

#[test]
fn clicking_a_button_activates_and_focuses_it() {
    let mut ui = UiContext::default();
    let mut framebuffer = FrameBuffer::default();
    framebuffer.resize(30, 30);
    let rect = Rect::new(2, 2, 10, 10);
    ui.handle_event(&UiEvent::MouseMove { x: 5, y: 5 });
    ui.handle_event(&UiEvent::MouseDown {
        button: MouseButton::Left,
    });
    assert!(ui.button(&mut framebuffer, 3, rect, "OK"));
    assert_eq!(ui.focused, Some(3));
    // The pressed, hovered button is drawn in its pressed color with an outline.
    let inside = framebuffer.pixels[5 * 30 + 5];
    assert_eq!(inside, Color::rgb(65, 105, 160).as_bgrx());
    let corner = framebuffer.pixels[2 * 30 + 2];
    assert_eq!(corner, Color::rgb(150, 170, 195).as_bgrx());
    assert_eq!(framebuffer.pixels[0], 0);
    ui.end_frame();
    ui.handle_event(&UiEvent::MouseUp {
        button: MouseButton::Left,
    });
    assert!(!ui.button(&mut framebuffer, 3, rect, "OK"));
}
