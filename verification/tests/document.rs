use opendraw::document::pixels::checked_pixel_count;
use opendraw::document::{Document, DocumentError};
use opendraw::graphics::Color;

#[test]
fn new_background_documents_have_an_empty_active_layer_and_safe_combined_limits() {
    for background in [
        Color::rgb(255, 255, 255),
        Color::rgb(30, 90, 170),
        Color::rgba(0, 0, 0, 0),
    ] {
        let mut document = Document::with_background(7, 5, background).unwrap();
        assert_eq!(document.layers.len(), 2);
        assert_eq!(document.layers[0].name, "BACKGROUND");
        assert_eq!(
            document.layers[0].pixels.pixels,
            vec![background.as_u32(); 35]
        );
        assert_eq!(document.active_layer, 1);
        assert_eq!(document.active_layer().name, "LAYER 2");
        assert!(
            document
                .active_layer()
                .pixels
                .pixels
                .iter()
                .all(|&p| p == 0)
        );
        document.add_layer().unwrap();
        assert_eq!(document.active_layer().name, "LAYER 3");
    }
    assert_eq!(
        Document::with_background(0, 5, Color::rgb(0, 0, 0)).err(),
        Some(DocumentError::InvalidDimensions)
    );
    assert_eq!(
        Document::with_background(8192, 8192, Color::rgb(0, 0, 0)).err(),
        Some(DocumentError::TooLarge)
    );
    assert_eq!(
        Document::with_background(u32::MAX, u32::MAX, Color::rgb(0, 0, 0)).err(),
        Some(DocumentError::TooLarge)
    );
}

#[test]
fn creates_one_initialized_layer_with_safe_limits() {
    let white = Color::rgb(255, 255, 255);
    let mut document = Document::new(4, 3, white).unwrap();
    assert_eq!(document.layers.len(), 1);
    assert_eq!(document.active_layer().pixels.get_pixel(3, 2), Some(white));
    assert_eq!(
        Document::new(0, 3, white).err(),
        Some(DocumentError::InvalidDimensions)
    );
    assert_eq!(
        Document::new(16_384, 16_384, white).err(),
        Some(DocumentError::TooLarge)
    );

    let black = Color::rgb(0, 0, 0);
    document.add_layer().unwrap();
    assert_eq!(document.active_layer().name, "LAYER 2");
    // A dab of radius 0.5 centered on pixel (3, 0) covers exactly that pixel.
    document.active_layer_mut().pixels.blend_pixel(3, 0, black);
    assert_eq!(
        document.composite_pixel(3, 0, Color::rgba(0, 0, 0, 0)),
        Some(black)
    );
    document.active_layer_mut().opacity = 128;
    assert_eq!(
        document.composite_pixel(3, 0, Color::rgba(0, 0, 0, 0)),
        Some(Color::rgb(127, 127, 127))
    );
    document.active_layer_mut().visible = false;
    assert_eq!(
        document.composite_pixel(3, 0, Color::rgba(0, 0, 0, 0)),
        Some(white)
    );
    document.active_layer_mut().visible = true;
    document.move_active_down();
    assert_eq!(
        document.composite_pixel(3, 0, Color::rgba(0, 0, 0, 0)),
        Some(white)
    );
    document.move_active_up();
    assert!(document.remove_active_layer());
    assert!(!document.remove_active_layer());
}

#[test]
fn flood_fill_replaces_only_the_bounded_matching_region() {
    let white = Color::rgb(255, 255, 255);
    let black = Color::rgb(0, 0, 0);
    let red = Color::rgba(220, 40, 30, 128);
    let mut document = Document::new(7, 5, white).unwrap();
    let pixels = &mut document.active_layer_mut().pixels;
    for y in 0..pixels.height {
        // A dab of radius 0.5 centered on (3.5, y + 0.5) covers pixel (3, y).
        pixels.blend_pixel(3, y, black);
    }

    pixels.flood_fill(1, 2, red);

    assert_eq!(pixels.get_pixel(0, 0), Some(red));
    assert_eq!(pixels.get_pixel(2, 4), Some(red));
    assert_eq!(pixels.get_pixel(3, 2), Some(black));
    assert_eq!(pixels.get_pixel(4, 2), Some(white));
    pixels.flood_fill(99, 99, black);
    assert_eq!(pixels.get_pixel(4, 2), Some(white));
}

#[test]
fn imported_layers_expand_and_center_the_canvas_without_cropping() {
    let white = Color::rgb(255, 255, 255);
    let red = Color::rgba(230, 40, 80, 128);
    let mut document = Document::new(2, 4, white).unwrap();

    document
        .import_layer(String::from("LOGO"), 4, 2, vec![red.as_u32(); 8])
        .unwrap();

    assert_eq!((document.width, document.height), (4, 4));
    assert_eq!(document.active_layer, 1);
    assert_eq!(document.active_layer().name, "LOGO");
    assert_eq!(document.layers[0].pixels.get_pixel(1, 0), Some(white));
    assert_eq!(
        document.layers[0].pixels.get_pixel(0, 0),
        Some(Color::rgba(0, 0, 0, 0))
    );
    assert_eq!(document.active_layer().pixels.get_pixel(0, 1), Some(red));
    assert_eq!(
        document.active_layer().pixels.get_pixel(0, 0),
        Some(Color::rgba(0, 0, 0, 0))
    );
}

#[test]
fn well_formedness_can_be_checked() {
    let mut document = Document::new(3, 2, Color::rgb(1, 2, 3)).unwrap();
    assert!(document.is_well_formed());
    document.active_layer = 1;
    assert!(!document.is_well_formed());
    document.active_layer = 0;
    document.layers[0].pixels.pixels.pop();
    assert!(!document.is_well_formed());
}

#[test]
fn pixel_counts_come_from_the_dimensions() {
    assert_eq!(checked_pixel_count(3, 5), Ok(15));
    assert_eq!(checked_pixel_count(0, 5), Err(DocumentError::InvalidDimensions));
    assert_eq!(checked_pixel_count(8193, 8192), Err(DocumentError::TooLarge));
    assert_eq!(checked_pixel_count(8192, 8192), Ok(64 * 1024 * 1024));
}
