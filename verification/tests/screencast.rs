use std::collections::HashMap;

use projecteur_core::screencast::{
    merge_stream, next_capture_generation, ppm_header, ppm_row, rgb_pixel, screen_region,
    stream_from_node, stream_from_serial,
    ScreenRegion, StreamIdentifier,
};

#[test]
fn screen_regions_are_stable_hash_keys() {
    let region = ScreenRegion {
        x: -1920,
        y: 0,
        width: 1920,
        height: 1080,
    };
    let mut streams = HashMap::new();
    streams.insert(region, StreamIdentifier::default());
    assert_eq!(streams.get(&region), Some(&StreamIdentifier::default()));
    assert_eq!(screen_region(-1920, 0, 1920, 1080), Some(region));
}

#[test]
fn converts_common_qimage_pixel_layouts_to_rgb() {
    assert_eq!(rgb_pixel(&[3, 2, 1, 255], 0, 0, 5).unwrap(), [1, 2, 3]);
    assert_eq!(rgb_pixel(&[1, 2, 3, 255], 0, 0, 17).unwrap(), [1, 2, 3]);
    assert_eq!(rgb_pixel(&[3, 2, 1], 0, 0, 29).unwrap(), [1, 2, 3]);
    assert!(rgb_pixel(&[0; 4], 0, 0, 0).is_err());
}

#[test]
fn pixel_errors_are_described() {
    assert_eq!(
        rgb_pixel(&[0; 4], 0, 0, 0).unwrap_err(),
        "KWin returned unsupported QImage format 0"
    );
    assert_eq!(
        rgb_pixel(&[1, 2, 3, 4, 5, 6, 7], 0, 1, 4).unwrap_err(),
        "KWin screenshot ended inside a pixel"
    );
    assert_eq!(
        rgb_pixel(&[1, 2, 3], usize::MAX, 1, 13).unwrap_err(),
        "KWin screenshot pixel offset overflowed"
    );
    assert_eq!(rgb_pixel(&[0, 0, 9, 8, 7, 0], 2, 0, 13).unwrap(), [9, 8, 7]);
}

#[test]
fn ppm_images_have_a_header_and_rgb_rows() {
    assert_eq!(ppm_header(2, 1), "P6\n2 1\n255\n");
    let pixels = [
        3, 2, 1, 0, 6, 5, 4, 0, 99, 99, // row 0 with padding
        9, 8, 7, 0, 12, 11, 10, 0, 99, 99, // row 1
    ];
    assert_eq!(ppm_row(&pixels, 0, 2, 10, 4).unwrap(), vec![1, 2, 3, 4, 5, 6]);
    assert_eq!(ppm_row(&pixels, 1, 2, 10, 4).unwrap(), vec![7, 8, 9, 10, 11, 12]);
    assert_eq!(
        ppm_row(&pixels, 2, 2, 10, 4).unwrap_err(),
        "KWin screenshot ended inside a pixel"
    );
    assert_eq!(ppm_row(&pixels, 0, 0, 10, 77).unwrap(), Vec::<u8>::new());
}

#[test]
fn streams_are_identified_by_node_or_serial() {
    assert_eq!(
        stream_from_node(42),
        StreamIdentifier { node_id: 42, object_serial: 0 }
    );
    assert_eq!(
        stream_from_serial(1, 2),
        StreamIdentifier { node_id: 0, object_serial: 0x1_0000_0002 }
    );
}

#[test]
fn stream_announcements_fill_in_what_is_known() {
    let mut current = StreamIdentifier::default();
    assert!(merge_stream(&mut current, StreamIdentifier { node_id: 42, object_serial: 0 }));
    assert_eq!(current, StreamIdentifier { node_id: 42, object_serial: 0 });
    assert!(merge_stream(&mut current, StreamIdentifier { node_id: 0, object_serial: 7 }));
    assert_eq!(current, StreamIdentifier { node_id: 42, object_serial: 7 });
    assert!(!merge_stream(&mut current, StreamIdentifier { node_id: 42, object_serial: 0 }));
    assert_eq!(current, StreamIdentifier { node_id: 42, object_serial: 7 });
    assert_eq!(next_capture_generation(3), 4);
    assert_eq!(next_capture_generation(i32::MAX), i32::MIN);
}
