use gibmon::device::{chunk_end, effective_dimensions, Device, DeviceError, Orientation, CHUNK_SIZE};

#[test]
fn orientation_ids() {
    assert_eq!(Orientation::Portrait.get_id(), 0);
    assert_eq!(Orientation::ReversePortrait.get_id(), 1);
    assert_eq!(Orientation::Landscape.get_id(), 2);
    assert_eq!(Orientation::ReverseLandscape.get_id(), 3);
}

#[test]
fn landscape_swaps_effective_dimensions_and_portrait_restores() {
    assert_eq!(effective_dimensions(&Orientation::Portrait, 320, 480), (320, 480));
    assert_eq!(effective_dimensions(&Orientation::Landscape, 320, 480), (480, 320));
    assert_eq!(effective_dimensions(&Orientation::ReverseLandscape, 320, 480), (480, 320));
    assert_eq!(effective_dimensions(&Orientation::ReversePortrait, 320, 480), (320, 480));
    // Landscape then back to Portrait restores the original values.
    let (w, h) = effective_dimensions(&Orientation::Landscape, 320, 480);
    assert_eq!((w, h), (480, 320));
    assert_eq!(effective_dimensions(&Orientation::Portrait, 320, 480), (320, 480));
}

#[test]
fn chunks_cover_payload_exactly() {
    // A full-panel RGB565 frame: 320 * 480 * 2 bytes.
    let total = 320 * 480 * 2;
    let mut start = 0;
    let mut sum = 0;
    let mut last_len = 0;
    while start < total {
        let end = chunk_end(start, total);
        last_len = end - start;
        assert!(last_len <= CHUNK_SIZE);
        sum += last_len;
        start = end;
    }
    assert_eq!(sum, total);
    // 307200 = 160 * 1920 exactly, so the last chunk is full.
    assert_eq!(last_len, CHUNK_SIZE);
}

#[test]
fn final_chunk_is_smaller_when_payload_is_not_a_multiple() {
    let total = 2 * CHUNK_SIZE + 7;
    let mut start = 0;
    let mut lens = Vec::new();
    while start < total {
        let end = chunk_end(start, total);
        lens.push(end - start);
        start = end;
    }
    assert_eq!(lens, vec![CHUNK_SIZE, CHUNK_SIZE, 7]);
}

#[test]
fn single_short_payload_is_one_chunk() {
    assert_eq!(chunk_end(0, 100), 100);
}

#[test]
fn opening_without_a_panel_fails_with_io_error() {
    // No panel hardware is attached on the test machine, so the well-known
    // channel cannot be opened.
    match Device::new() {
        Err(DeviceError::IoError(_)) => {}
        Err(other) => panic!("unexpected error kind: {:?}", other),
        Ok(_) => panic!("opened a serial channel unexpectedly"),
    }
}
