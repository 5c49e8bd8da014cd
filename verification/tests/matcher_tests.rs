use camguard::{due_for_sample, PatternMatcher};

const THRESHOLD: u32 = 100;
const HOLD_MILLIS: u64 = 3500;

fn matcher() -> PatternMatcher {
    PatternMatcher::new(vec![0, 0, 1, 0], vec![0, 1, 1, 0], THRESHOLD, THRESHOLD, HOLD_MILLIS)
}

/// Brightness that reads as the given binary LED state.
fn brightness(state: u8) -> u32 {
    if state == 1 {
        THRESHOLD + 50
    } else {
        THRESHOLD - 50
    }
}

#[test]
fn matching_observations_verify() {
    let mut m = matcher();
    let led1 = [0u8, 0, 1, 0];
    let led2 = [0u8, 1, 1, 0];
    let mut verdict = false;
    for i in 0..4 {
        let now = 1000 * (i as u64);
        verdict = m.update(now, brightness(led1[i]), brightness(led2[i]));
    }
    assert!(verdict);
    assert!(m.is_verified());
}

#[test]
fn mismatching_observations_do_not_verify() {
    let mut m = matcher();
    let led1 = [0u8, 1, 1, 0];
    let led2 = [0u8, 1, 1, 0];
    let mut verdict = false;
    for i in 0..4 {
        let now = 1000 * (i as u64);
        verdict = m.update(now, brightness(led1[i]), brightness(led2[i]));
    }
    assert!(!verdict);
    assert!(!m.is_verified());
}

#[test]
fn partial_window_is_never_verified() {
    let mut m = matcher();
    assert!(!m.update(0, brightness(0), brightness(0)));
    assert!(!m.update(1000, brightness(0), brightness(1)));
    assert!(!m.update(2000, brightness(1), brightness(1)));
    assert!(!m.is_verified());
}

#[test]
fn single_mismatch_within_hold_keeps_verified() {
    let mut m = matcher();
    let led1 = [0u8, 0, 1, 0];
    let led2 = [0u8, 1, 1, 0];
    for i in 0..4 {
        let now = 1000 * (i as u64);
        m.update(now, brightness(led1[i]), brightness(led2[i]));
    }
    assert!(m.is_verified());
    // 1000 ms after verification: inside the 3500 ms hold.
    let verdict = m.update(4000, brightness(1), brightness(1));
    assert!(verdict);
    assert!(m.is_verified());
}

#[test]
fn mismatch_after_hold_elapses_clears_verified() {
    let mut m = matcher();
    let led1 = [0u8, 0, 1, 0];
    let led2 = [0u8, 1, 1, 0];
    for i in 0..4 {
        let now = 1000 * (i as u64);
        m.update(now, brightness(led1[i]), brightness(led2[i]));
    }
    assert!(m.is_verified());
    // Verification became true at 3000 ms; 7000 ms lies past the hold.
    let verdict = m.update(7000, brightness(1), brightness(1));
    assert!(!verdict);
    assert!(!m.is_verified());
}

#[test]
fn matching_again_after_hold_stays_verified() {
    let mut m = matcher();
    let led1 = [0u8, 0, 1, 0, 0, 0, 1, 0];
    let led2 = [0u8, 1, 1, 0, 0, 1, 1, 0];
    let mut verdict = false;
    for i in 0..8 {
        let now = 1000 * (i as u64);
        verdict = m.update(now, brightness(led1[i]), brightness(led2[i]));
    }
    assert!(verdict);
}

#[test]
fn brightness_exactly_at_threshold_reads_off() {
    // Strictly greater than the threshold means ON; equal means OFF.
    let mut m = PatternMatcher::new(vec![0], vec![0], THRESHOLD, THRESHOLD, HOLD_MILLIS);
    let verdict = m.update(0, THRESHOLD, THRESHOLD);
    assert!(verdict);
}

#[test]
fn sampling_cadence_fires_once_per_interval() {
    assert!(due_for_sample(0, 1000, 1000));
    assert!(due_for_sample(0, 1500, 1000));
    assert!(!due_for_sample(1000, 1999, 1000));
    assert!(due_for_sample(1000, 2000, 1000));
}
