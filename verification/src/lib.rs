//! Tamper-evident motion camera core.
//!
//! An unattended security-camera node records footage when motion is seen and
//! proves that the footage was captured live: the camera watches a secret,
//! time-varying blink pattern on the device's own status LEDs and matches the
//! observed pattern against the pattern the device believes it emitted.
//!
//! This crate holds the verified core: the motion-triggered capture pipeline
//! (background-subtraction detector, event state machine, frame buffering) and
//! the LED tamper-evidence protocol (pattern generation, photometric
//! calibration, region sampling, debounced pattern matching). Camera and LED
//! hardware access, on-disk storage and image encoding are external
//! collaborators: the platform around this library performs them and hands the
//! library plain values.

mod calibrate;
mod errors;
mod frame;
mod logging;
mod matcher;
mod motion;
mod pattern;
mod recorder;
mod region;
mod storage;
mod text;

pub use calibrate::{
    batch_separated, max_sample, midpoint_threshold, min_sample, seq_max, seq_min,
    CalibrationThresholds, Calibrator,
};
pub use errors::{DimensionMismatchError, PatternMisuseError, StorageError};
pub use frame::{Frame, FrameView};
pub use logging::{
    compact_timestamp, display_timestamp, format_compact_timestamp, format_display_timestamp,
    log_event, log_line, log_verified_event, verdict_text,
};
pub use matcher::{
    due_for_sample, led_state, lemma_hold_keeps_verified, slide, update_spec, MatcherView,
    PatternMatcher,
};
pub use motion::{
    abs_diff, adjacent, component, connected, has_motion_blob, in_grid, is_blob, is_path,
    lemma_blob_shows_motion, lemma_quiet_frame_no_motion, mask_of, DetectorView, MotionDetector,
};
pub use pattern::{generate_pattern, PatternConfig};
pub use recorder::{EventRecorder, RecorderAction, RecorderView};
pub use region::{led_regions, rect_sum, region_mean, row_sum, sample_region, Region};
pub use storage::{clip_file_name, frame_file_name, ClipPlan, VideoStorage};
pub use text::{
    dec_digits, decimal_string, digit_char, four_digit_string, four_digits, sanitize_name,
    sanitized, two_digit_string, two_digits,
};
