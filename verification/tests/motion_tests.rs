use camguard::{DimensionMismatchError, Frame, MotionDetector};

fn gray_frame(width: u32, height: u32, value: u8) -> Frame {
    let pixels = vec![value; (width as usize) * (height as usize)];
    Frame::new(width, height, 0, pixels)
}

fn frame_from(width: u32, height: u32, pixels: Vec<u8>) -> Frame {
    Frame::new(width, height, 0, pixels)
}

/// A copy of `base` with the given pixels raised to `value`.
fn with_pixels(base: &Frame, spots: &[(u32, u32)], value: u8) -> Frame {
    let mut pixels = base.pixels.clone();
    for &(x, y) in spots {
        pixels[(y * base.width + x) as usize] = value;
    }
    frame_from(base.width, base.height, pixels)
}

#[test]
fn first_frame_initialises_the_model_without_motion() {
    let mut detector = MotionDetector::new(25, 3);
    let frame = gray_frame(8, 8, 50);
    assert_eq!(detector.detect_motion(&frame), Ok(false));
}

#[test]
fn noise_below_the_threshold_is_not_motion() {
    let mut detector = MotionDetector::new(25, 1);
    let background = gray_frame(8, 8, 50);
    detector.detect_motion(&background).unwrap();
    // Every pixel drifts by at most the threshold.
    let mut pixels = Vec::new();
    for i in 0..64u32 {
        let noise = (i % 3) as u8 * 10;
        pixels.push(50 + noise - 10);
    }
    let noisy = frame_from(8, 8, pixels);
    assert_eq!(detector.detect_motion(&noisy), Ok(false));
}

#[test]
fn a_blob_of_minimum_area_is_motion_and_updates_the_model() {
    let mut detector = MotionDetector::new(25, 3);
    let background = gray_frame(8, 8, 50);
    detector.detect_motion(&background).unwrap();
    let blob = with_pixels(&background, &[(2, 2), (3, 2), (2, 3), (3, 3)], 200);
    assert_eq!(detector.detect_motion(&blob), Ok(true));
    // The model was replaced by the blob frame, so the same frame is quiet.
    assert_eq!(detector.detect_motion(&blob), Ok(false));
    // And the old background now reads as change against the new model.
    assert_eq!(detector.detect_motion(&background), Ok(true));
}

#[test]
fn a_blob_below_the_minimum_area_is_not_motion() {
    let mut detector = MotionDetector::new(25, 5);
    let background = gray_frame(8, 8, 50);
    detector.detect_motion(&background).unwrap();
    let small = with_pixels(&background, &[(2, 2), (3, 2), (2, 3), (3, 3)], 200);
    assert_eq!(detector.detect_motion(&small), Ok(false));
    // The model is kept on a quiet frame: the same blob stays quiet.
    assert_eq!(detector.detect_motion(&small), Ok(false));
}

#[test]
fn diagonal_pixels_are_separate_blobs() {
    // Two changed pixels touching only at a corner are not one region.
    let mut detector = MotionDetector::new(25, 2);
    let background = gray_frame(8, 8, 50);
    detector.detect_motion(&background).unwrap();
    let diagonal = with_pixels(&background, &[(1, 1), (2, 2)], 200);
    assert_eq!(detector.detect_motion(&diagonal), Ok(false));
}

#[test]
fn a_bent_connected_region_counts_as_one_blob() {
    let mut detector = MotionDetector::new(25, 5);
    let background = gray_frame(8, 8, 50);
    detector.detect_motion(&background).unwrap();
    let l_shape = with_pixels(
        &background,
        &[(1, 1), (1, 2), (1, 3), (2, 3), (3, 3)],
        200,
    );
    assert_eq!(detector.detect_motion(&l_shape), Ok(true));
}

#[test]
fn a_frame_of_other_dimensions_is_refused() {
    let mut detector = MotionDetector::new(25, 3);
    detector.detect_motion(&gray_frame(8, 8, 50)).unwrap();
    let other = gray_frame(4, 4, 50);
    assert_eq!(detector.detect_motion(&other), Err(DimensionMismatchError));
    // The refusal left the model standing: the first frame is still quiet.
    assert_eq!(detector.detect_motion(&gray_frame(8, 8, 50)), Ok(false));
}

#[test]
fn change_exactly_at_the_threshold_is_not_change() {
    let mut detector = MotionDetector::new(25, 1);
    let background = gray_frame(8, 8, 50);
    detector.detect_motion(&background).unwrap();
    let at_threshold = with_pixels(&background, &[(4, 4)], 75);
    assert_eq!(detector.detect_motion(&at_threshold), Ok(false));
    let above_threshold = with_pixels(&background, &[(4, 4)], 76);
    assert_eq!(detector.detect_motion(&above_threshold), Ok(true));
}
