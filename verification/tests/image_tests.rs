use petir::image::{decode_kitty, decode_sixel, kitty_transmission_fits, ImageError};

#[test]
fn sixel_single_column_of_six_pixels() {
    let img = decode_sixel(b"#1;2;100;0;0~", 3, 4).unwrap();
    assert_eq!((img.width, img.height), (1, 6));
    assert_eq!((img.cell_col, img.cell_row), (3, 4));
    assert_eq!(img.rgba.len(), 24);
    for px in 0..6 {
        assert_eq!(&img.rgba[px * 4..px * 4 + 4], &[255, 0, 0, 255]);
    }
}

#[test]
fn sixel_repeat_and_rows() {
    let img = decode_sixel(b"!3@-@", 0, 0).unwrap();
    // '@' paints only the top pixel of its sixel column.
    assert_eq!((img.width, img.height), (3, 7));
    assert_eq!(&img.rgba[0..4], &[0, 0, 0, 255]);
    assert_eq!(&img.rgba[8..12], &[0, 0, 0, 255]);
    // second sixel row starts six pixels down, back at column 0
    let row6 = 6 * 3 * 4;
    assert_eq!(&img.rgba[row6..row6 + 4], &[0, 0, 0, 255]);
    assert_eq!(&img.rgba[row6 + 4..row6 + 8], &[0, 0, 0, 0]);
}

#[test]
fn sixel_carriage_return_overdraws() {
    let img = decode_sixel(b"#2;2;0;100;0@$#3;2;0;0;100@", 0, 0).unwrap();
    assert_eq!((img.width, img.height), (1, 1));
    assert_eq!(img.rgba, vec![0, 0, 255, 255]);
}

#[test]
fn sixel_undefined_high_register_paints_white() {
    let img = decode_sixel(b"#300@", 0, 0).unwrap();
    assert_eq!(img.rgba, vec![255, 255, 255, 255]);
}

#[test]
fn sixel_without_pixels_is_an_error() {
    assert_eq!(decode_sixel(b"", 0, 0).err(), Some(ImageError::EmptySixel));
    assert_eq!(decode_sixel(b"#1;2;50;50;50???", 0, 0).err(), Some(ImageError::EmptySixel));
}

#[test]
fn sixel_percent_scaling_matches_float_formula() {
    for v in 0..=120i64 {
        let data = format!("#1;2;{};0;0@", v);
        let img = decode_sixel(data.as_bytes(), 0, 0).unwrap();
        let expected = ((v.clamp(0, 100) as f32) * 255.0 / 100.0) as u8;
        assert_eq!(img.rgba[0], expected, "v = {}", v);
    }
}

#[test]
fn kitty_rgb_payload_gets_opaque_alpha() {
    let img = decode_kitty("f=24,s=2,v=1", "AQIDBAUG", 5, 6).unwrap();
    assert_eq!((img.width, img.height), (2, 1));
    assert_eq!(img.rgba, vec![1, 2, 3, 255, 4, 5, 6, 255]);
    assert_eq!((img.cell_col, img.cell_row), (5, 6));
}

#[test]
fn kitty_rgba_payload_is_copied() {
    let img = decode_kitty("a=T,f=32,s=1,v=1", "AQIDBA==", 0, 0).unwrap();
    assert_eq!(img.rgba, vec![1, 2, 3, 4]);
    // the default format is RGBA
    let img = decode_kitty("s=1,v=1", "AQIDBAUG", 0, 0).unwrap();
    assert_eq!(img.rgba, vec![1, 2, 3, 4]);
}

#[test]
fn kitty_base64_skips_line_breaks() {
    let img = decode_kitty("f=24,s=1,v=1", "AQ\r\nID", 0, 0).unwrap();
    assert_eq!(img.rgba, vec![1, 2, 3, 255]);
}

#[test]
fn kitty_errors() {
    assert_eq!(decode_kitty("f=100,s=1,v=1", "AAAA", 0, 0).err(), Some(ImageError::KittyPng));
    assert_eq!(decode_kitty("f=24,s=1", "AQID", 0, 0).err(), Some(ImageError::KittyMissingSize));
    assert_eq!(decode_kitty("f=24,s=x,v=1", "AQID", 0, 0).err(), Some(ImageError::KittyMissingSize));
    assert_eq!(decode_kitty("f=24,s=2,v=1", "AQID", 0, 0).err(), Some(ImageError::KittyShortPayload));
}

#[test]
fn kitty_number_parsing() {
    // an optional plus sign is accepted, a bad format falls back to RGBA
    let img = decode_kitty("f=+24,s=1,v=1", "AQID", 0, 0).unwrap();
    assert_eq!(img.rgba, vec![1, 2, 3, 255]);
    let img = decode_kitty("f=zz,s=1,v=1", "AQIDBA", 0, 0).unwrap();
    assert_eq!(img.rgba, vec![1, 2, 3, 4]);
    // a value past u32::MAX is not a number
    assert_eq!(decode_kitty("s=4294967296,v=1", "AQID", 0, 0).err(), Some(ImageError::KittyMissingSize));
}

#[test]
fn kitty_fits_check() {
    assert!(kitty_transmission_fits("f=24,s=1,v=1", "AQID"));
    // a huge image with no payload to fill it fits (it fails as short)
    assert!(kitty_transmission_fits("s=32768,v=32768", "AQID"));
}
