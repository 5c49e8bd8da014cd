use vstd::prelude::*;
use crate::errors::PatternMisuseError;

verus! {

/// Configuration for the secret LED blink pattern: how many positions the
/// pattern has, which digit values a position may take, and whether a value
/// may occur twice.
pub struct PatternConfig {
    pub length: usize,
    pub min_digit: u8,
    pub max_digit: u8,
    pub repeat_allowed: bool,
}

impl PatternConfig {
    /// How many distinct digit values the configured range offers.
    pub open spec fn digit_span(self) -> int {
        self.max_digit - self.min_digit + 1
    }

    /// A configuration is satisfiable when the digit range is non-empty and,
    /// if repeats are disallowed, offers at least as many distinct values as
    /// the requested length. A draw under an unsatisfiable configuration
    /// could never terminate, so it is rejected at configuration time.
    pub open spec fn wf(self) -> bool {
        &&& self.min_digit <= self.max_digit
        &&& !self.repeat_allowed ==> self.digit_span() >= self.length
    }

    /// Reject an unsatisfiable configuration before any digit is drawn.
    pub fn validate(&self) -> (result: Result<(), PatternMisuseError>)
        ensures
            result is Ok <==> self.wf(),
    {
        if self.min_digit > self.max_digit {
            return Err(PatternMisuseError);
        }
        if !self.repeat_allowed {
            let span: usize = (self.max_digit - self.min_digit) as usize + 1;
            if span < self.length {
                return Err(PatternMisuseError);
            }
        }
        Ok(())
    }
}

impl Default for PatternConfig {
    /// Ten positions over the decimal digits, repeats allowed.
    fn default() -> (config: PatternConfig)
        ensures
            config.length == 10,
            config.min_digit == 0,
            config.max_digit == 9,
            config.repeat_allowed,
            config.wf(),
    {
        PatternConfig { length: 10, min_digit: 0, max_digit: 9, repeat_allowed: true }
    }
}

/// Relies on rand's `Rng::gen_range` over `rand::rngs::OsRng`, the operating
/// system's cryptographically strong randomness source: a draw from the
/// non-empty range `0..bound` lies below `bound`. Nothing more can be
/// promised of a random value. As rand's source shows, the call panics only
/// on an empty range (excluded here) or when the operating system's
/// randomness source itself fails.
#[verifier::external_body]
fn draw_below(bound: usize) -> (drawn: usize)
    requires
        1 <= bound,
    ensures
        drawn < bound,
{
    rand::Rng::gen_range(&mut rand::rngs::OsRng, 0..bound)
}

/// Produce the secret expected LED sequence: `config.length` digits, each
/// within the configured range, drawn from the operating system's
/// cryptographically strong randomness source; unpredictability is what makes
/// the blink pattern tamper evidence. When repeats are disallowed, each digit
/// is drawn uniformly from the values not yet used, so every returned
/// sequence is duplicate-free.
pub fn generate_pattern(config: &PatternConfig) -> (pattern: Vec<u8>)
    requires
        config.wf(),
    ensures
        pattern@.len() == config.length,
        forall|i: int|
            0 <= i < pattern@.len() ==> config.min_digit <= #[trigger] pattern@[i]
                <= config.max_digit,
        !config.repeat_allowed ==> pattern@.no_duplicates(),
{
    let mut pattern: Vec<u8> = Vec::new();
    let span: usize = (digit_span_count(config.min_digit, config.max_digit)) as usize;
    if config.repeat_allowed {
        while pattern.len() < config.length
            invariant
                span == config.digit_span(),
                config.wf(),
                pattern@.len() <= config.length,
                forall|i: int|
                    0 <= i < pattern@.len() ==> config.min_digit <= #[trigger] pattern@[i]
                        <= config.max_digit,
            decreases config.length - pattern@.len(),
        {
            let offset = draw_below(span);
            let digit = config.min_digit + (offset as u8);
            pattern.push(digit);
        }
    } else {
        let mut candidates: Vec<u8> = Vec::new();
        let mut v: usize = 0;
        while v < span
            invariant
                span == config.digit_span(),
                config.min_digit <= config.max_digit,
                v <= span,
                candidates@.len() == v,
                forall|i: int| 0 <= i < v ==> #[trigger] candidates@[i] == config.min_digit + i,
            decreases span - v,
        {
            candidates.push(config.min_digit + (v as u8));
            v += 1;
        }
        assert(candidates@.no_duplicates());
        while pattern.len() < config.length
            invariant
                span == config.digit_span(),
                config.wf(),
                !config.repeat_allowed,
                pattern@.len() + candidates@.len() == span,
                pattern@.len() <= config.length,
                pattern@.no_duplicates(),
                candidates@.no_duplicates(),
                candidates@.disjoint(pattern@),
                forall|i: int|
                    0 <= i < pattern@.len() ==> config.min_digit <= #[trigger] pattern@[i]
                        <= config.max_digit,
                forall|i: int|
                    0 <= i < candidates@.len() ==> config.min_digit <= #[trigger] candidates@[i]
                        <= config.max_digit,
            decreases config.length - pattern@.len(),
        {
            let idx = draw_below(candidates.len());
            let digit = candidates[idx];
            let ghost cand0 = candidates@;
            let ghost pat0 = pattern@;
            candidates.remove(idx);
            pattern.push(digit);
            proof {
                cand0.remove_ensures(idx as int);
                assert forall|i: int, j: int|
                    0 <= i < candidates@.len() && 0 <= j < pattern@.len() implies candidates@[i]
                    != pattern@[j] by {
                    if j < pat0.len() {
                    } else {
                        assert(pattern@[j] == cand0[idx as int]);
                    }
                };
            }
        }
    }
    pattern
}

/// The number of distinct values in the inclusive digit range, as a count
/// that always fits the machine.
fn digit_span_count(min_digit: u8, max_digit: u8) -> (span: usize)
    requires
        min_digit <= max_digit,
    ensures
        span == max_digit - min_digit + 1,
{
    (max_digit - min_digit) as usize + 1
}

} // verus!
