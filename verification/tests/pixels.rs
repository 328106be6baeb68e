use gibmon::image_extensions::convert_to_rgb565;

#[test]
fn white_pixel_encodes_to_all_ones() {
    let out = convert_to_rgb565(&vec![255, 255, 255], 1, 1);
    assert_eq!(out, vec![0xFF, 0xFF]);
}

#[test]
fn black_pixel_encodes_to_zero() {
    let out = convert_to_rgb565(&vec![0, 0, 0], 1, 1);
    assert_eq!(out, vec![0x00, 0x00]);
}

#[test]
fn channels_truncate_to_565_bits_little_endian() {
    // (16, 32, 48): red 16 >> 3 = 2, green 32 >> 2 = 8, blue 48 >> 3 = 6;
    // value = (2 << 11) | (8 << 5) | 6 = 0x1106, low byte first.
    let out = convert_to_rgb565(&vec![16, 32, 48], 1, 1);
    assert_eq!(out, vec![0x06, 0x11]);
}

#[test]
fn low_bits_are_truncated_not_rounded() {
    // (7, 3, 7) all truncate to zero.
    let out = convert_to_rgb565(&vec![7, 3, 7], 1, 1);
    assert_eq!(out, vec![0x00, 0x00]);
}

#[test]
fn multiple_pixels_convert_in_order() {
    let rgb = vec![
        255, 0, 0, // red -> 0xF800
        0, 255, 0, // green -> 0x07E0
        0, 0, 255, // blue -> 0x001F
        255, 255, 255, // white -> 0xFFFF
    ];
    let out = convert_to_rgb565(&rgb, 2, 2);
    assert_eq!(out, vec![0x00, 0xF8, 0xE0, 0x07, 0x1F, 0x00, 0xFF, 0xFF]);
}
