use gibmon::display::{rects_intersect, Display};
use gibmon::image::Image;
use gibmon::layer::Layer;

fn solid_layer(x: u32, y: u32, w: u32, h: u32, rgba: [u8; 4]) -> Image {
    let mut data = Vec::new();
    for _ in 0..(w * h) {
        data.extend_from_slice(&rgba);
    }
    Image::new(x, y, w, h, data)
}

fn pixel_of(frame: &[u8], width: u32, x: u32, y: u32) -> (u8, u8) {
    let idx = ((y * width + x) * 2) as usize;
    (frame[idx], frame[idx + 1])
}

#[test]
fn empty_compositor_produces_black_frame() {
    let mut display = Display::<Image>::new(4, 3);
    let frame = display.compose();
    assert_eq!(frame.len(), 4 * 3 * 2);
    assert!(frame.iter().all(|&b| b == 0));
}

#[test]
fn empty_compositor_full_panel_size() {
    let mut display = Display::<Image>::new(320, 480);
    let frame = display.compose();
    assert_eq!(frame.len(), 320 * 480 * 2);
    assert!(frame.iter().all(|&b| b == 0));
}

#[test]
fn transparent_layer_over_opaque_red_leaves_red() {
    let mut display = Display::<Image>::new(4, 4);
    display.add_layer(0, solid_layer(0, 0, 4, 4, [255, 0, 0, 255]));
    display.add_layer(1, solid_layer(0, 0, 4, 4, [0, 0, 0, 0]));
    let frame = display.compose();
    assert_eq!(frame.len(), 4 * 4 * 2);
    // RGB565 of opaque red: 0xF800, low byte first.
    for x in 0..4 {
        for y in 0..4 {
            assert_eq!(pixel_of(&frame, 4, x, y), (0x00, 0xF8));
        }
    }
}

#[test]
fn layers_blend_in_draw_order_not_registration_order() {
    let mut display = Display::<Image>::new(2, 2);
    // Registered first but drawn last (higher order): blue wins.
    display.add_layer(7, solid_layer(0, 0, 2, 2, [0, 0, 255, 255]));
    display.add_layer(0, solid_layer(0, 0, 2, 2, [255, 0, 0, 255]));
    let frame = display.compose();
    // RGB565 of opaque blue: 0x001F, low byte first.
    assert_eq!(pixel_of(&frame, 2, 0, 0), (0x1F, 0x00));
}

#[test]
fn equal_orders_keep_registration_sequence() {
    let mut display = Display::<Image>::new(2, 2);
    display.add_layer(5, solid_layer(0, 0, 2, 2, [255, 0, 0, 255]));
    display.add_layer(5, solid_layer(0, 0, 2, 2, [0, 0, 255, 255]));
    let frame = display.compose();
    // The later-registered layer draws on top.
    assert_eq!(pixel_of(&frame, 2, 0, 0), (0x1F, 0x00));
}

#[test]
fn half_transparent_red_over_black_blends() {
    let mut display = Display::<Image>::new(1, 1);
    display.add_layer(0, solid_layer(0, 0, 1, 1, [255, 0, 0, 128]));
    let frame = display.compose();
    // Each channel: (src * 128 + dst * 127) / 255; red becomes 128.
    // RGB565 of (128, 0, 0): 0x8000, low byte first.
    assert_eq!(pixel_of(&frame, 1, 0, 0), (0x00, 0x80));
}

#[test]
fn off_panel_part_of_layer_is_clipped() {
    let mut display = Display::<Image>::new(4, 4);
    display.add_layer(0, solid_layer(2, 2, 4, 4, [255, 255, 255, 255]));
    let frame = display.compose();
    assert_eq!(frame.len(), 4 * 4 * 2);
    for x in 0..4u32 {
        for y in 0..4u32 {
            let expected = if x >= 2 && y >= 2 { (0xFF, 0xFF) } else { (0x00, 0x00) };
            assert_eq!(pixel_of(&frame, 4, x, y), expected, "pixel {} {}", x, y);
        }
    }
}

#[test]
fn fully_off_panel_layer_changes_nothing() {
    let mut display = Display::<Image>::new(4, 4);
    display.add_layer(0, solid_layer(100, 100, 2, 2, [255, 255, 255, 255]));
    let frame = display.compose();
    assert!(frame.iter().all(|&b| b == 0));
}

#[test]
fn compose_is_rebuilt_from_scratch_each_time() {
    let mut display = Display::<Image>::new(2, 2);
    display.add_layer(0, solid_layer(0, 0, 2, 2, [255, 0, 0, 128]));
    let first = display.compose();
    let second = display.compose();
    assert_eq!(first, second);
}

#[test]
fn image_reports_its_box_and_data() {
    let data = vec![1, 2, 3, 4, 5, 6, 7, 8];
    let image = Image::new(10, 20, 2, 1, data.clone());
    assert_eq!(image.bounding_box(), (10, 20, 2, 1));
    assert_eq!(image.get_image_data(), &data);
}

#[test]
fn rects_intersect_cases() {
    // Overlapping.
    assert!(rects_intersect(0, 0, 10, 10, 5, 5, 10, 10));
    // Touching edges do not intersect.
    assert!(!rects_intersect(0, 0, 10, 10, 10, 0, 5, 5));
    assert!(!rects_intersect(0, 0, 10, 10, 0, 10, 5, 5));
    // Disjoint.
    assert!(!rects_intersect(0, 0, 4, 4, 100, 100, 4, 4));
    // Containment.
    assert!(rects_intersect(0, 0, 10, 10, 2, 2, 2, 2));
    // Large values near the u32 limit must not overflow.
    assert!(rects_intersect(u32::MAX - 1, u32::MAX - 1, 10, 10, u32::MAX, u32::MAX, 10, 10));
}
