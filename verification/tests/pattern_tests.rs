use camguard::{generate_pattern, PatternConfig, PatternMisuseError};

fn no_repeat_config() -> PatternConfig {
    PatternConfig { length: 10, min_digit: 0, max_digit: 9, repeat_allowed: false }
}

#[test]
fn no_repeat_pattern_has_exact_length_distinct_digits_in_range() {
    let config = no_repeat_config();
    let pattern = generate_pattern(&config);
    assert_eq!(pattern.len(), 10);
    for &digit in &pattern {
        assert!(digit <= 9);
    }
    for i in 0..pattern.len() {
        for j in 0..pattern.len() {
            if i != j {
                assert_ne!(pattern[i], pattern[j]);
            }
        }
    }
}

#[test]
fn repeat_pattern_has_exact_length() {
    let config = PatternConfig { length: 10, min_digit: 0, max_digit: 9, repeat_allowed: true };
    let pattern = generate_pattern(&config);
    assert_eq!(pattern.len(), 10);
    for &digit in &pattern {
        assert!(digit <= 9);
    }
}

#[test]
fn narrow_range_pattern_stays_in_range() {
    let config = PatternConfig { length: 16, min_digit: 3, max_digit: 5, repeat_allowed: true };
    let pattern = generate_pattern(&config);
    assert_eq!(pattern.len(), 16);
    for &digit in &pattern {
        assert!((3..=5).contains(&digit));
    }
}

#[test]
fn binary_no_repeat_pattern_uses_both_values() {
    let config = PatternConfig { length: 2, min_digit: 0, max_digit: 1, repeat_allowed: false };
    let pattern = generate_pattern(&config);
    assert_eq!(pattern.len(), 2);
    assert_ne!(pattern[0], pattern[1]);
}

#[test]
fn default_config_matches_documented_values() {
    let config = PatternConfig::default();
    assert_eq!(config.length, 10);
    assert_eq!(config.min_digit, 0);
    assert_eq!(config.max_digit, 9);
    assert!(config.repeat_allowed);
}

#[test]
fn validate_rejects_unsatisfiable_no_repeat_request() {
    let config = PatternConfig { length: 11, min_digit: 0, max_digit: 9, repeat_allowed: false };
    assert_eq!(config.validate(), Err(PatternMisuseError));
}

#[test]
fn validate_rejects_empty_digit_range() {
    let config = PatternConfig { length: 1, min_digit: 5, max_digit: 4, repeat_allowed: true };
    assert_eq!(config.validate(), Err(PatternMisuseError));
}

#[test]
fn validate_accepts_satisfiable_configurations() {
    assert_eq!(no_repeat_config().validate(), Ok(()));
    assert_eq!(PatternConfig::default().validate(), Ok(()));
}
