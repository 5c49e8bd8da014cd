use camguard::{
    decimal_string, format_compact_timestamp, format_display_timestamp, led_regions, log_event,
    log_verified_event, sample_region, sanitize_name, Frame, Region, VideoStorage,
};

#[test]
fn snapshot_names_embed_a_monotonic_counter() {
    let mut storage = VideoStorage::new(String::from("footage"));
    let first = storage.save_frame("20250101_120000", "motion");
    let second = storage.save_frame("20250101_120000", "motion");
    assert_eq!(first, "footage/frame_20250101_120000_motion_0.jpg");
    assert_eq!(second, "footage/frame_20250101_120000_motion_1.jpg");
    assert_ne!(first, second);
    assert_eq!(storage.frame_counter, 2);
}

#[test]
fn snapshot_names_carry_no_spaces() {
    let mut storage = VideoStorage::new(String::from("my footage"));
    let name = storage.save_frame("20250101_120000", "front door motion");
    assert_eq!(name, "my_footage/frame_20250101_120000_front_door_motion_0.jpg");
}

#[test]
fn sanitizing_replaces_every_space() {
    assert_eq!(sanitize_name("a b c"), "a_b_c");
    assert_eq!(sanitize_name("none"), "none");
    assert_eq!(sanitize_name(" "), "_");
    assert_eq!(sanitize_name(""), "");
}

#[test]
fn decimal_strings_have_no_leading_zeroes() {
    assert_eq!(decimal_string(0), "0");
    assert_eq!(decimal_string(7), "7");
    assert_eq!(decimal_string(10), "10");
    assert_eq!(decimal_string(90210), "90210");
    assert_eq!(decimal_string(u32::MAX), "4294967295");
}

#[test]
fn log_lines_carry_the_bracketed_timestamp() {
    let line = log_event("2025-01-01 12:00:00", "Motion detected - starting capture");
    assert_eq!(line, "[2025-01-01 12:00:00] Motion detected - starting capture\n");
}

#[test]
fn verified_events_are_tagged_with_the_verdict() {
    let ok = log_verified_event("2025-01-01 12:00:00", "Motion captured", true);
    assert_eq!(ok, "[2025-01-01 12:00:00] Motion captured - VERIFIED\n");
    let bad = log_verified_event("2025-01-01 12:00:00", "Motion captured", false);
    assert_eq!(bad, "[2025-01-01 12:00:00] Motion captured - TAMPER DETECTED\n");
}

#[test]
fn timestamps_are_zero_padded() {
    assert_eq!(format_display_timestamp(2025, 3, 7, 9, 5, 0), "2025-03-07 09:05:00");
    assert_eq!(format_compact_timestamp(2025, 3, 7, 9, 5, 0), "20250307_090500");
    assert_eq!(format_display_timestamp(999, 12, 31, 23, 59, 59), "0999-12-31 23:59:59");
}

#[test]
fn led_regions_split_the_top_right_band() {
    let (first, second) = led_regions(640, 480);
    assert_eq!(first, Region { x: 566, y: 10, width: 32, height: 48 });
    assert_eq!(second, Region { x: 598, y: 10, width: 32, height: 48 });
}

#[test]
fn region_mean_is_the_rounded_down_pixel_average() {
    // A 4x2 frame: the left 2x2 block holds 10s, the right half 200s.
    let pixels = vec![10, 10, 200, 200, 10, 11, 200, 200];
    let frame = Frame::new(4, 2, 0, pixels);
    let left = Region { x: 0, y: 0, width: 2, height: 2 };
    let right = Region { x: 2, y: 0, width: 2, height: 2 };
    let whole = Region { x: 0, y: 0, width: 4, height: 2 };
    assert_eq!(sample_region(&frame, &left), 10);
    assert_eq!(sample_region(&frame, &right), 200);
    // (10 + 10 + 200 + 200 + 10 + 11 + 200 + 200) / 8 = 841 / 8
    assert_eq!(sample_region(&frame, &whole), 105);
}

#[test]
fn frame_pixels_are_read_row_major() {
    let pixels = vec![1, 2, 3, 4, 5, 6];
    let frame = Frame::new(3, 2, 77, pixels);
    assert_eq!(frame.at(0, 0), 1);
    assert_eq!(frame.at(2, 0), 3);
    assert_eq!(frame.at(0, 1), 4);
    assert_eq!(frame.at(2, 1), 6);
    assert_eq!(frame.timestamp_millis, 77);
    let copy = frame.duplicate();
    assert_eq!(copy.pixels, frame.pixels);
    assert_eq!(copy.width, 3);
    assert_eq!(copy.height, 2);
}
