use opendraw::document::{Layer, PixelBuffer};
use opendraw::editor::thumbnail::draw_layer_thumbnail;
use opendraw::graphics::{Color, FrameBuffer, Rect};

#[test]
fn checkerboard_alternates_cells() {
    let light = Color::rgb(255, 255, 255);
    let dark = Color::rgb(0, 0, 0);
    let mut framebuffer = FrameBuffer::default();
    framebuffer.resize(4, 4);
    framebuffer.checkerboard(2, light, dark);

    assert_eq!(
        framebuffer.pixels,
        [
            light, light, dark, dark, light, light, dark, dark, dark, dark, light, light, dark,
            dark, light, light,
        ]
        .map(Color::as_bgrx)
    );
}

#[test]
fn channels_round_trip_through_packing() {
    let color = Color::rgba(12, 34, 56, 78);
    assert_eq!(color.as_u32(), 0x4E0C_2238);
    assert_eq!(
        (color.red(), color.green(), color.blue(), color.alpha()),
        (12, 34, 56, 78)
    );
    assert_eq!(Color::rgb(1, 2, 3).as_bgrx(), 0xFF01_0203);
}

#[test]
fn transparent_sources_keep_and_opaque_sources_replace_the_background() {
    let background = Color::rgba(10, 20, 30, 200);
    assert_eq!(Color::rgba(200, 100, 50, 0).blend_over(background), background);
    let opaque = Color::rgb(200, 100, 50);
    assert_eq!(opaque.blend_over(background), opaque);
    assert_eq!(
        Color::rgba(255, 0, 0, 128).blend_over(Color::rgb(255, 255, 255)),
        Color::rgb(255, 127, 127)
    );
}

#[test]
fn rect_contains_its_top_left_corner_but_not_its_far_edges() {
    let rect = Rect::new(-2, 3, 4, 5);
    assert!(rect.contains(-2, 3));
    assert!(rect.contains(1, 7));
    assert!(!rect.contains(2, 7));
    assert!(!rect.contains(1, 8));
    assert!(!Rect::new(0, 0, 0, 3).contains(0, 0));
}

#[test]
fn fill_rect_clips_to_the_framebuffer() {
    let mut framebuffer = FrameBuffer::default();
    framebuffer.resize(3, 2);
    framebuffer.fill_rect(Rect::new(-1, 1, 3, 5), Color::rgb(1, 2, 3));
    let filled = Color::rgb(1, 2, 3).as_bgrx();
    assert_eq!(framebuffer.pixels, vec![0, 0, 0, filled, filled, 0]);
}

#[test]
fn checkerboard_leaves_pixels_past_the_area_alone() {
    let light = Color::rgb(255, 255, 255);
    let dark = Color::rgb(0, 0, 0);
    let mut framebuffer = FrameBuffer::default();
    framebuffer.resize(2, 1);
    framebuffer.pixels.push(7);
    framebuffer.checkerboard(1, light, dark);
    assert_eq!(framebuffer.pixels, vec![light.as_bgrx(), dark.as_bgrx(), 7]);
}

#[test]
fn layer_thumbnails_sample_the_nearest_pixel_inside_an_outline() {
    let red = Color::rgb(255, 0, 0);
    let clear = Color::rgba(0, 0, 0, 0);
    let white = Color::rgb(255, 255, 255);
    let mut pixels = PixelBuffer::new(2, 2, white).unwrap();
    pixels.pixels[0] = red.as_u32();
    pixels.pixels[1] = clear.as_u32();
    let mut layer = Layer {
        name: String::from("LAYER 1"),
        visible: true,
        opacity: 255,
        pixels,
    };
    let mut framebuffer = FrameBuffer::default();
    framebuffer.resize(8, 8);
    let rect = Rect::new(1, 1, 4, 4);
    draw_layer_thumbnail(&mut framebuffer, &layer, rect);

    let at = |framebuffer: &FrameBuffer, x: usize, y: usize| framebuffer.pixels[y * 8 + x];
    assert_eq!(at(&framebuffer, 0, 0), 0);
    assert_eq!(at(&framebuffer, 1, 1), Color::rgb(150, 160, 175).as_bgrx());
    assert_eq!(at(&framebuffer, 4, 4), Color::rgb(150, 160, 175).as_bgrx());
    assert_eq!(at(&framebuffer, 5, 5), 0);
    // Offset (1, 1) samples layer pixel (0, 0); offset (2, 2) samples (1, 1).
    assert_eq!(at(&framebuffer, 2, 2), red.as_bgrx());
    assert_eq!(at(&framebuffer, 3, 3), white.as_bgrx());
    // Offset (2, 1) samples the transparent pixel (1, 0): the light checker shows.
    assert_eq!(at(&framebuffer, 3, 2), Color::rgb(210, 210, 210).as_bgrx());

    layer.visible = false;
    layer.opacity = 0;
    draw_layer_thumbnail(&mut framebuffer, &layer, rect);
    let dim = Color::rgba(27, 30, 35, 120);
    assert_eq!(
        at(&framebuffer, 2, 2),
        dim.blend_over(Color::rgb(210, 210, 210)).as_bgrx()
    );
    assert_ne!(at(&framebuffer, 2, 2), Color::rgb(210, 210, 210).as_bgrx());
}
