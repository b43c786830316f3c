use opendraw::graphics::rasterize_line;
use opendraw::platform::win32::{
    client_location, framebuffer_bitmap_info, image_pixel_count, key_from_virtual, mouse_button, pointer_id,
    signed_high_word, signed_low_word, wide, TextDecoder, POINT, WM_RBUTTONUP,
};
use opendraw::platform::pointer::{
    coalesced_moves, HistoryEntry, HistoryEvent, PointerMessage, PointerRoute, PointerRouter,
};
use opendraw::platform::{Key, MouseButton};

#[test]
fn translates_native_input_without_leaking_win32_types() {
    let coordinates = (((-20_i16 as u16 as u32) << 16) | -10_i16 as u16 as u32) as isize;
    assert_eq!(signed_low_word(coordinates), -10);
    assert_eq!(signed_high_word(coordinates as usize), -20);
    assert_eq!(signed_high_word((120_u32 << 16) as usize) as f32 / 120.0, 1.0);
    assert_eq!(key_from_virtual(0x41), Key::Letter('A'));
    assert_eq!(pointer_id(0x1234_0007), 7);

    let mut decoder = TextDecoder::new();
    assert!(decoder.push_unit(0xd83d).is_empty());
    assert_eq!(decoder.push_unit(0xde00), vec!['😀']);
}

#[test]
fn unpaired_surrogates_become_replacement_characters() {
    let mut decoder = TextDecoder::new();
    assert_eq!(decoder.push_unit(0xde00), vec!['\u{fffd}']);
    assert!(decoder.push_unit(0xd800).is_empty());
    assert_eq!(decoder.push_unit(u16::from(b'x')), vec!['\u{fffd}', 'x']);
    assert_eq!(decoder.push_unit(u16::from(b'y')), vec!['y']);
}

#[test]
fn virtual_keys_and_buttons_translate() {
    assert_eq!(key_from_virtual(0x08), Key::Backspace);
    assert_eq!(key_from_virtual(0x35), Key::Digit(5));
    assert_eq!(key_from_virtual(0x5a), Key::Letter('Z'));
    assert_eq!(key_from_virtual(0x70), Key::Function(1));
    assert_eq!(key_from_virtual(0x87), Key::Function(24));
    assert_eq!(key_from_virtual(0xff), Key::Unknown(0xff));
    assert_eq!(mouse_button(WM_RBUTTONUP), MouseButton::Right);
    assert_eq!(mouse_button(0x0207), MouseButton::Middle);
    assert_eq!(
        client_location(POINT { x: 100, y: 50 }, POINT { x: 30, y: 70 }),
        POINT { x: 70, y: -20 }
    );
}

#[test]
fn wide_strings_are_utf16_and_null_terminated() {
    assert_eq!(wide("Ab"), vec![0x41, 0x62, 0]);
    assert_eq!(wide("😀"), vec![0xd83d, 0xde00, 0]);
    assert_eq!(wide(""), vec![0]);
}

#[test]
fn framebuffer_headers_describe_top_down_rows() {
    let info = framebuffer_bitmap_info(640, 480);
    assert_eq!(info.bmiHeader.biSize, 40);
    assert_eq!(info.bmiHeader.biWidth, 640);
    assert_eq!(info.bmiHeader.biHeight, -480);
    assert_eq!(info.bmiHeader.biBitCount, 32);
}

#[test]
fn lines_cover_one_pixel_per_step_of_the_longer_axis() {
    assert_eq!(
        rasterize_line(0, 0, 4, 2),
        vec![(0, 0), (1, 1), (2, 1), (3, 2), (4, 2)]
    );
    assert_eq!(rasterize_line(3, 3, 3, 3), vec![(3, 3)]);
    assert_eq!(
        rasterize_line(2, 0, 0, -3),
        vec![(2, 0), (1, -1), (1, -2), (0, -3)]
    );
    let points = rasterize_line(-5, 7, 12, -9);
    assert_eq!(points.len(), 18);
    assert_eq!(points[0], (-5, 7));
    assert_eq!(points[17], (12, -9));
    for pair in points.windows(2) {
        assert!((pair[1].0 - pair[0].0).abs() <= 1);
        assert!((pair[1].1 - pair[0].1).abs() <= 1);
        assert_ne!(pair[0], pair[1]);
    }
}

#[test]
fn capture_loss_of_a_known_pen_is_consumed_without_a_successful_native_query() {
    let mut router = PointerRouter::new();
    router.pen_pointers.push(7);
    // Capture loss cancels a known contact without asking the system again
    // and is not promoted to a mouse sequence.
    assert_eq!(
        router.route(7, PointerMessage::CaptureChanged, false),
        PointerRoute::Cancelled
    );
    assert!(router.pen_pointers.is_empty());
    assert_eq!(
        router.route(0, PointerMessage::Update, false),
        PointerRoute::AskType
    );
    assert_eq!(
        router.classified(0, PointerMessage::Update, false, false),
        PointerRoute::Default
    );
    // A failed initial classification stays on the legacy route through
    // release, so the emulated press cannot lose its release.
    assert_eq!(router.legacy_pointers, [0]);
    assert_eq!(router.route(0, PointerMessage::Up, false), PointerRoute::Default);
    assert_eq!(router.route(0, PointerMessage::Leave, false), PointerRoute::Default);
    assert!(router.legacy_pointers.is_empty());
}

#[test]
fn pens_are_classified_once_per_sequence() {
    let mut router = PointerRouter::new();
    assert_eq!(router.route(3, PointerMessage::Enter, false), PointerRoute::AskType);
    assert_eq!(
        router.classified(3, PointerMessage::Enter, false, true),
        PointerRoute::Samples
    );
    assert_eq!(router.route(3, PointerMessage::Down, false), PointerRoute::Samples);
    assert_eq!(router.route(3, PointerMessage::Update, true), PointerRoute::Cancelled);
    assert_eq!(router.route(3, PointerMessage::Enter, false), PointerRoute::AskType);
    assert_eq!(
        router.classified(3, PointerMessage::Enter, false, true),
        PointerRoute::Samples
    );
    assert_eq!(router.route(3, PointerMessage::Leave, false), PointerRoute::ProximityOut);
    assert!(router.pen_pointers.is_empty());
}

#[test]
fn decoded_images_must_fit_a_document() {
    assert_eq!(image_pixel_count(4, 2), Some(8));
    assert_eq!(image_pixel_count(0, 2), None);
    assert_eq!(image_pixel_count(8193, 8192), None);
    assert_eq!(image_pixel_count(8192, 8192), Some(8192 * 8192));
}

#[test]
fn cancellation_in_coalesced_history_stops_the_remaining_samples() {
    let sample = HistoryEntry {
        canceled: false,
        location: Some(POINT { x: 0, y: 0 }),
    };
    let canceled = HistoryEntry {
        canceled: true,
        location: Some(POINT { x: 0, y: 0 }),
    };
    assert_eq!(
        coalesced_moves(&vec![sample, canceled]),
        vec![HistoryEvent::Cancelled]
    );
}

#[test]
fn every_history_sample_uses_the_coordinate_transform_and_failure_cancels() {
    let physical = POINT { x: 480, y: 360 };
    // A 200% scale and a logical client origin of (100, 50).
    let location = client_location(
        POINT {
            x: physical.x / 2,
            y: physical.y / 2,
        },
        POINT { x: 100, y: 50 },
    );
    let events = coalesced_moves(&vec![HistoryEntry {
        canceled: false,
        location: Some(location),
    }]);
    assert_eq!(
        events,
        vec![HistoryEvent::Move {
            entry: 0,
            location: POINT { x: 140, y: 130 },
        }]
    );
    let events = coalesced_moves(&vec![HistoryEntry {
        canceled: false,
        location: None,
    }]);
    assert_eq!(events, vec![HistoryEvent::Cancelled]);
}

#[test]
fn coalesced_pen_history_arrives_in_chronological_order() {
    let entry = |screen_x: i32| HistoryEntry {
        canceled: false,
        location: Some(client_location(
            POINT { x: screen_x, y: 450 },
            POINT { x: 100, y: 50 },
        )),
    };
    // The system returns the newest sample first.
    let newest_first = vec![entry(300), entry(200), entry(100)];
    let coordinates: Vec<(usize, i32, i32)> = coalesced_moves(&newest_first)
        .into_iter()
        .map(|event| match event {
            HistoryEvent::Move { entry, location } => (entry, location.x, location.y),
            HistoryEvent::Cancelled => panic!("expected only moves"),
        })
        .collect();
    assert_eq!(coordinates, [(2, 0, 400), (1, 100, 400), (0, 200, 400)]);
}
