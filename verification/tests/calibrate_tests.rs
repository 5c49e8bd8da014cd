use camguard::{max_sample, min_sample, CalibrationThresholds, Calibrator};

#[test]
fn insufficient_separation_requests_fresh_batches_until_one_succeeds() {
    // Only the last batch meets the separation requirement; every batch
    // before it is consumed and answered with a retry.
    let mut calibrator = Calibrator::new(2);
    let flat1 = vec![100, 101, 100];
    let flat2 = vec![80, 81, 80];
    assert_eq!(calibrator.submit_batch(&flat1, &flat2), None);
    assert_eq!(calibrator.submit_batch(&flat1, &flat2), None);
    assert_eq!(calibrator.thresholds, None);
    let blinking1 = vec![90, 110, 90];
    let blinking2 = vec![70, 95, 70];
    let outcome = calibrator.submit_batch(&blinking1, &blinking2);
    assert_eq!(outcome, Some(CalibrationThresholds { led1: 100, led2: 82 }));
    assert_eq!(calibrator.batches_consumed, 3);
    assert_eq!(calibrator.thresholds, Some(CalibrationThresholds { led1: 100, led2: 82 }));
}

#[test]
fn one_led_separated_alone_is_not_enough() {
    let mut calibrator = Calibrator::new(5);
    let blinking = vec![10, 30];
    let flat = vec![50, 52];
    assert_eq!(calibrator.submit_batch(&blinking, &flat), None);
    assert_eq!(calibrator.submit_batch(&flat, &blinking), None);
    assert_eq!(calibrator.batches_consumed, 2);
}

#[test]
fn threshold_is_the_midpoint_of_extremes() {
    let mut calibrator = Calibrator::new(10);
    let batch1 = vec![40, 100, 60];
    let batch2 = vec![0, 255];
    let outcome = calibrator.submit_batch(&batch1, &batch2).unwrap();
    assert_eq!(outcome.led1, 70);
    assert_eq!(outcome.led2, 127);
}

#[test]
fn separation_exactly_at_the_minimum_succeeds() {
    let mut calibrator = Calibrator::new(20);
    let batch = vec![100, 120];
    assert_eq!(
        calibrator.submit_batch(&batch, &batch),
        Some(CalibrationThresholds { led1: 110, led2: 110 })
    );
}

#[test]
fn extremes_of_a_batch() {
    let samples = vec![12, 7, 200, 3, 150];
    assert_eq!(max_sample(&samples), 200);
    assert_eq!(min_sample(&samples), 3);
    let single = vec![42];
    assert_eq!(max_sample(&single), 42);
    assert_eq!(min_sample(&single), 42);
}
