use gibmon::device::Orientation;
use gibmon::packets::{
    create_display_image_packet, create_hello_packet, create_orientation_packet,
    create_screen_black_packet, create_screen_brightness_packet, create_screen_off_packet,
    create_screen_on_packet, create_screen_white_packet,
};

#[test]
fn simple_packets_have_zero_bodies_and_command_ids() {
    assert_eq!(create_hello_packet(), [0, 0, 0, 0, 0, 0xFF]);
    assert_eq!(create_screen_white_packet(), [0, 0, 0, 0, 0, 0x66]);
    assert_eq!(create_screen_black_packet(), [0, 0, 0, 0, 0, 0x67]);
    assert_eq!(create_screen_on_packet(), [0, 0, 0, 0, 0, 0x6D]);
    assert_eq!(create_screen_off_packet(), [0, 0, 0, 0, 0, 0x6C]);
}

#[test]
fn brightness_matches_inverted_rounded_intensity_for_all_levels() {
    for level in 1u8..=100 {
        let packet = create_screen_brightness_packet(level).unwrap();
        let inverted = 255 - ((level as f32 / 100.0) * 255.0).round() as u8;
        assert_eq!(packet[0], inverted >> 2, "level {}", level);
        assert_eq!(packet[1], (inverted & 0x03) << 6, "level {}", level);
        assert_eq!(packet[2], 0);
        assert_eq!(packet[3], 0);
        assert_eq!(packet[4], 0);
        assert_eq!(packet[5], 0x6E);
    }
}

#[test]
fn brightness_zero_is_rejected() {
    assert!(create_screen_brightness_packet(0).is_err());
}

#[test]
fn brightness_above_hundred_is_rejected() {
    assert!(create_screen_brightness_packet(101).is_err());
    assert!(create_screen_brightness_packet(255).is_err());
}

#[test]
fn brightness_extremes() {
    // Level 100 (brightest) maps to intensity 0 on the wire.
    let brightest = create_screen_brightness_packet(100).unwrap();
    assert_eq!(brightest, [0, 0, 0, 0, 0, 0x6E]);
    // Level 1 maps to 255 - 3 = 252.
    let dimmest = create_screen_brightness_packet(1).unwrap();
    assert_eq!(dimmest, [252 >> 2, (252 & 0x03) << 6, 0, 0, 0, 0x6E]);
}

#[test]
fn orientation_packet_layout() {
    let packet = create_orientation_packet(Orientation::Landscape, 480, 320);
    assert_eq!(packet.len(), 16);
    assert_eq!(&packet[0..5], &[0, 0, 0, 0, 0]);
    assert_eq!(packet[5], 0x79);
    assert_eq!(packet[6], 2 + 100);
    assert_eq!(packet[7], (480u16 >> 8) as u8);
    assert_eq!(packet[8], (480u16 & 255) as u8);
    assert_eq!(packet[9], (320u16 >> 8) as u8);
    assert_eq!(packet[10], (320u16 & 255) as u8);
    assert_eq!(&packet[11..16], &[0, 0, 0, 0, 0]);
}

#[test]
fn orientation_ids_offset_by_protocol_constant() {
    assert_eq!(create_orientation_packet(Orientation::Portrait, 320, 480)[6], 100);
    assert_eq!(create_orientation_packet(Orientation::ReversePortrait, 320, 480)[6], 101);
    assert_eq!(create_orientation_packet(Orientation::Landscape, 480, 320)[6], 102);
    assert_eq!(create_orientation_packet(Orientation::ReverseLandscape, 480, 320)[6], 103);
}

fn decode_coords(b: &[u8]) -> (u16, u16, u16, u16) {
    let x = ((b[0] as u16) << 2) | ((b[1] as u16) >> 6);
    let y = (((b[1] as u16) & 0x3F) << 4) | ((b[2] as u16) >> 4);
    let ex = (((b[2] as u16) & 0x0F) << 6) | ((b[3] as u16) >> 2);
    let ey = (((b[3] as u16) & 0x03) << 8) | (b[4] as u16);
    (x, y, ex, ey)
}

#[test]
fn display_image_header_round_trips_coordinates() {
    let packet = create_display_image_packet(10, 20, 100, 50);
    assert_eq!(packet[5], 0xC5);
    let (x, y, ex, ey) = decode_coords(&packet[0..5]);
    assert_eq!((x, y, ex, ey), (10, 20, 109, 69));
}

#[test]
fn display_image_header_full_panel() {
    let packet = create_display_image_packet(0, 0, 320, 480);
    assert_eq!(packet[5], 0xC5);
    let (x, y, ex, ey) = decode_coords(&packet[0..5]);
    assert_eq!((x, y, ex, ey), (0, 0, 319, 479));
}

#[test]
fn coordinate_packing_round_trips_many_values() {
    for &(x, y, w, h) in &[
        (0u16, 0u16, 1u16, 1u16),
        (1, 2, 3, 4),
        (100, 200, 300, 400),
        (511, 511, 512, 512),
        (1023, 1023, 1, 1),
    ] {
        let packet = create_display_image_packet(x, y, w, h);
        let (dx, dy, dex, dey) = decode_coords(&packet[0..5]);
        assert_eq!((dx, dy, dex, dey), (x, y, x + w - 1, y + h - 1));
    }
}
