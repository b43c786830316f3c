use opendraw::document::Document;
use opendraw::file::checksum::{crc32, crc_table, Adler32};
use opendraw::file::format::{export_format, imported_layer_name, ImageFormat};
use opendraw::file::{bmp, png, read_document, save, write_document, OdrawError};
use opendraw::graphics::Color;

#[test]
fn writes_padded_bottom_up_bgr_pixels() {
    let mut document = Document::new(1, 1, Color::rgba(0, 0, 0, 0)).unwrap();
    // A dab of radius 0.5 centered on (0.5, 0.5) covers the only pixel fully.
    document
        .active_layer_mut()
        .pixels
        .blend_pixel(0, 0, Color::rgba(255, 0, 0, 128));
    let bmp = bmp::write(&document);

    assert_eq!(&bmp[..2], b"BM");
    assert_eq!(u32::from_le_bytes(bmp[2..6].try_into().unwrap()), 58);
    assert_eq!(&bmp[54..58], &[127, 127, 255, 0]);
}

#[test]
fn round_trips_documents_and_rejects_corrupt_headers() {
    let mut document = Document::new(3, 2, Color::rgb(250, 250, 250)).unwrap();
    document.active_layer_mut().name = String::from("FONDO");
    document.add_layer().unwrap();
    document.active_layer_mut().name = String::from("TINTA");
    document.active_layer_mut().opacity = 137;
    document.active_layer_mut().visible = false;
    document
        .active_layer_mut()
        .pixels
        .blend_pixel(1, 1, Color::rgba(10, 20, 30, 40));

    let bytes = write_document(&document).unwrap();
    let loaded = read_document(&bytes).unwrap();
    assert_eq!((loaded.width, loaded.height), (3, 2));
    assert_eq!(loaded.active_layer, 1);
    assert_eq!(loaded.layers[0].name, "FONDO");
    assert_eq!(loaded.layers[1].name, "TINTA");
    assert!(!loaded.layers[1].visible);
    assert_eq!(loaded.layers[1].opacity, 137);
    assert_eq!(
        loaded.layers[1].pixels.get_pixel(1, 1),
        Some(Color::rgba(10, 20, 30, 40))
    );

    let mut bad_magic = bytes.clone();
    bad_magic[0] = b'X';
    assert!(matches!(
        read_document(&bad_magic),
        Err(OdrawError::InvalidFile)
    ));
    let mut future = bytes.clone();
    future[4..8].copy_from_slice(&2_u32.to_le_bytes());
    assert!(matches!(
        read_document(&future),
        Err(OdrawError::UnsupportedVersion(2))
    ));
    assert!(matches!(
        read_document(&bytes[..10]),
        Err(OdrawError::UnexpectedEndOfFile)
    ));
}

#[test]
fn writes_valid_rgba_png_with_stored_deflate_blocks() {
    let mut document = Document::new(2, 1, Color::rgba(0, 0, 0, 0)).unwrap();
    document
        .active_layer_mut()
        .pixels
        .blend_pixel(0, 0, Color::rgba(10, 20, 30, 40));
    let png = png::write(&document);
    assert_eq!(&png[..8], b"\x89PNG\r\n\x1a\n");

    let table = crc_table();
    let mut position = 8;
    let mut idat = Vec::new();
    while position < png.len() {
        let length =
            u32::from_be_bytes(png[position..position + 4].try_into().unwrap()) as usize;
        let kind: &[u8; 4] = png[position + 4..position + 8].try_into().unwrap();
        let data = &png[position + 8..position + 8 + length];
        let stored_crc = u32::from_be_bytes(
            png[position + 8 + length..position + 12 + length]
                .try_into()
                .unwrap(),
        );
        assert_eq!(
            stored_crc,
            crc32(crc32(!0, kind, &table), data, &table) ^ !0
        );
        if kind == b"IDAT" {
            idat.extend_from_slice(data);
        }
        position += 12 + length;
    }

    assert_eq!(&idat[..2], &[0x78, 0x01]);
    assert_eq!(idat[2], 1);
    let length = u16::from_le_bytes(idat[3..5].try_into().unwrap()) as usize;
    assert_eq!(length, 9);
    assert_eq!(&idat[7..7 + length], &[0, 10, 20, 30, 40, 0, 0, 0, 0]);
    let expected_adler = {
        let mut adler = Adler32::new();
        adler.update(&idat[7..7 + length]);
        adler.value()
    };
    assert_eq!(
        u32::from_be_bytes(idat[7 + length..11 + length].try_into().unwrap()),
        expected_adler
    );
}

#[test]
fn export_format_uses_the_extension_or_selected_filter() {
    let mut named_bmp = String::from("drawing.BMP");
    assert_eq!(export_format(&mut named_bmp, 1), ImageFormat::Bmp);

    let mut unnamed = String::from("drawing");
    assert_eq!(export_format(&mut unnamed, 2), ImageFormat::Bmp);
    assert_eq!(std::path::Path::new(&unnamed).extension().unwrap(), "bmp");
}

#[test]
fn export_format_keeps_known_extensions_and_defaults_to_png() {
    let mut named_png = String::from("art/drawing.png");
    assert_eq!(export_format(&mut named_png, 2), ImageFormat::Png);
    assert_eq!(named_png, "art/drawing.png");

    let mut other = String::from("drawing.jpg");
    assert_eq!(export_format(&mut other, 1), ImageFormat::Png);
    assert_eq!(other, "drawing.png");

    let mut hidden = String::from("dir.v2/.bmp");
    assert_eq!(export_format(&mut hidden, 1), ImageFormat::Png);
    assert_eq!(hidden, "dir.v2/.bmp.png");
}

#[test]
fn save_round_trips_through_read_document() {
    let mut document = Document::with_background(2, 2, Color::rgb(1, 2, 3)).unwrap();
    document.active_layer_mut().pixels.blend_pixel(1, 0, Color::rgb(9, 8, 7));
    let bytes = save(&document).unwrap();
    assert_eq!(&bytes[..4], b"ODRW");
    let loaded = read_document(&bytes).unwrap();
    assert_eq!(loaded.layers.len(), 2);
    assert_eq!(loaded.layers[0].name, "BACKGROUND");
    assert_eq!(loaded.layers[1].name, "LAYER 2");
    assert_eq!(loaded.layers[1].pixels.get_pixel(1, 0), Some(Color::rgb(9, 8, 7)));
    assert_eq!(loaded.layers[0].pixels.pixels, document.layers[0].pixels.pixels);
    assert_eq!(loaded.next_layer_number, 3);
}

#[test]
fn truncated_pixel_data_is_an_unexpected_end() {
    let document = Document::new(2, 2, Color::rgb(1, 2, 3)).unwrap();
    let bytes = write_document(&document).unwrap();
    assert!(matches!(
        read_document(&bytes[..bytes.len() - 1]),
        Err(OdrawError::UnexpectedEndOfFile)
    ));
}

#[test]
fn crc32_of_check_string_matches_the_standard_value() {
    let table = crc_table();
    assert_eq!(crc32(!0, b"123456789", &table) ^ !0, 0xCBF4_3926);
}

#[test]
fn adler32_of_wikipedia_matches_the_standard_value() {
    let mut adler = Adler32::new();
    adler.update(b"Wikipedia");
    assert_eq!(adler.value(), 0x11E6_0398);
}

#[test]
fn errors_describe_themselves() {
    assert_eq!(
        OdrawError::UnsupportedVersion(7).message(),
        "unsupported OpenDraw version 7"
    );
    assert_eq!(OdrawError::InvalidFile.message(), "invalid OpenDraw file");
    assert!(OdrawError::Io(std::io::Error::other("disk full"))
        .message()
        .starts_with("file error: "));
    assert_eq!(
        opendraw::document::DocumentError::TooLarge.message(),
        "document exceeds the pixel limit"
    );
}

#[test]
fn crc32_in_pieces_equals_crc32_whole() {
    let table = crc_table();
    let whole = crc32(!0, b"IHDRpixels", &table);
    let pieces = crc32(crc32(!0, b"IHDR", &table), b"pixels", &table);
    assert_eq!(whole, pieces);
}

#[test]
fn adler32_in_pieces_equals_adler32_whole() {
    let mut whole = Adler32::new();
    whole.update(b"Wikipedia");
    let mut pieces = Adler32::new();
    pieces.update(b"Wiki");
    pieces.update(b"pedia");
    assert_eq!(pieces.value(), whole.value());
}

#[test]
fn export_format_reads_the_file_name_as_paths_do() {
    let cases = [
        ("drawing.bmp/", 1, ImageFormat::Bmp, "drawing.bmp/"),
        ("drawing.xyz//", 1, ImageFormat::Png, "drawing.png"),
        ("art/drawing/.", 2, ImageFormat::Bmp, "art/drawing.bmp"),
        ("art/..", 2, ImageFormat::Bmp, "art/.."),
        (".hidden", 1, ImageFormat::Png, ".hidden.png"),
        ("a.b/c", 1, ImageFormat::Png, "a.b/c.png"),
        ("C:", 1, ImageFormat::Png, "C:"),
        ("C:.", 2, ImageFormat::Bmp, "C:."),
        ("C:\\pics\\drawing.PNG", 2, ImageFormat::Png, "C:\\pics\\drawing.PNG"),
        ("pics\\drawing", 2, ImageFormat::Bmp, "pics\\drawing.bmp"),
        ("", 1, ImageFormat::Png, ""),
    ];
    for (path, filter, format, renamed) in cases {
        let mut path = String::from(path);
        assert_eq!(export_format(&mut path, filter), format);
        assert_eq!(path, renamed);
    }
}

#[test]
fn export_format_agrees_with_std_paths_on_forward_slashes() {
    for path in ["drawing.bmp/", "drawing.xyz//", "art/drawing/.", "art/..", ".hidden", "a.b/c", "x/y.png/./"] {
        let mut ours = String::from(path);
        let format = export_format(&mut ours, 1);
        let mut expected = std::path::PathBuf::from(path);
        let extension = expected
            .extension()
            .and_then(|extension| extension.to_str())
            .map(str::to_ascii_lowercase);
        let expected_format = match extension.as_deref() {
            Some("bmp") => ImageFormat::Bmp,
            _ => ImageFormat::Png,
        };
        if !matches!(extension.as_deref(), Some("bmp" | "png")) {
            expected.set_extension(expected_format.extension());
        }
        assert_eq!(format, expected_format);
        assert_eq!(ours, expected.to_str().unwrap());
    }
}

#[test]
fn imported_layers_are_named_after_the_file_stem() {
    assert_eq!(imported_layer_name("C:\\art\\sky.png"), "sky");
    assert_eq!(imported_layer_name("art/archive.tar.png"), "archive.tar");
    assert_eq!(imported_layer_name("art/.hidden"), ".hidden");
    assert_eq!(imported_layer_name("art/sky.png/"), "sky");
    assert_eq!(imported_layer_name("art/.."), "IMPORTED PNG");
    assert_eq!(imported_layer_name(""), "IMPORTED PNG");
    for path in ["art/sky.png", "a/b.c.d", "x/.y", "plain", "dir/name/."] {
        let expected = std::path::Path::new(path).file_stem().unwrap().to_str().unwrap();
        assert_eq!(imported_layer_name(path), expected);
    }
}
