use vstd::prelude::*;

verus! {

/// The mathematical content of a [`PatternMatcher`].
#[verifier::ext_equal]
pub ghost struct MatcherView {
    pub expected1: Seq<u8>,
    pub expected2: Seq<u8>,
    pub threshold1: u32,
    pub threshold2: u32,
    pub window1: Seq<u8>,
    pub window2: Seq<u8>,
    pub verified: bool,
    pub verified_since: Option<u64>,
    pub hold_millis: u64,
}

impl MatcherView {
    /// Both expected patterns share one length; the windows never outgrow it.
    pub open spec fn pattern_len(self) -> int {
        self.expected1.len() as int
    }

    pub open spec fn wf(self) -> bool {
        &&& self.expected1.len() == self.expected2.len()
        &&& self.expected1.len() >= 1
        &&& self.window1.len() == self.window2.len()
        &&& self.window1.len() <= self.pattern_len()
        &&& (self.verified <==> self.verified_since is Some)
    }

    /// The hold is running while less than `hold_millis` has passed since
    /// verification last became true. While it runs, a momentary mismatch
    /// must not clear the verified state.
    pub open spec fn in_hold(self, now_millis: u64) -> bool {
        match self.verified_since {
            Some(since) => now_millis < since + self.hold_millis,
            None => false,
        }
    }
}

/// A sampled LED state: 1 when the brightness lies strictly above the
/// calibrated threshold, else 0.
pub open spec fn led_state(brightness: u32, threshold: u32) -> u8 {
    if brightness > threshold {
        1
    } else {
        0
    }
}

/// Append a sample to a bounded observation window, dropping the oldest
/// sample when the window is full.
pub open spec fn slide(window: Seq<u8>, sample: u8, capacity: int) -> Seq<u8> {
    let grown = window.push(sample);
    if grown.len() > capacity {
        grown.drop_first()
    } else {
        grown
    }
}

/// One sampling step of the matcher: convert the two brightness values to
/// binary states, slide them into the windows, and, unless the hold is
/// running, re-evaluate: verification holds exactly when both full windows
/// equal their expected patterns.
pub open spec fn update_spec(
    pre: MatcherView,
    now_millis: u64,
    led1_brightness: u32,
    led2_brightness: u32,
) -> MatcherView {
    let w1 = slide(pre.window1, led_state(led1_brightness, pre.threshold1), pre.pattern_len());
    let w2 = slide(pre.window2, led_state(led2_brightness, pre.threshold2), pre.pattern_len());
    let slid = MatcherView { window1: w1, window2: w2, ..pre };
    if pre.in_hold(now_millis) {
        slid
    } else if w1.len() == pre.pattern_len() {
        let matched = w1 == pre.expected1 && w2 == pre.expected2;
        MatcherView {
            verified: matched,
            verified_since: if matched {
                Some(now_millis)
            } else {
                None
            },
            ..slid
        }
    } else {
        MatcherView { verified: false, verified_since: None, ..slid }
    }
}

/// Decides whether the footage is live: keeps one bounded FIFO window of
/// observed states per LED, compares full windows against the expected
/// patterns on every sampling step, and holds a positive verdict for a fixed
/// debounce duration so that a single dropped sample does not clear it.
pub struct PatternMatcher {
    pub expected1: Vec<u8>,
    pub expected2: Vec<u8>,
    pub threshold1: u32,
    pub threshold2: u32,
    pub window1: Vec<u8>,
    pub window2: Vec<u8>,
    pub verified: bool,
    pub verified_since: Option<u64>,
    pub hold_millis: u64,
}

impl View for PatternMatcher {
    type V = MatcherView;

    open spec fn view(&self) -> MatcherView {
        MatcherView {
            expected1: self.expected1@,
            expected2: self.expected2@,
            threshold1: self.threshold1,
            threshold2: self.threshold2,
            window1: self.window1@,
            window2: self.window2@,
            verified: self.verified,
            verified_since: self.verified_since,
            hold_millis: self.hold_millis,
        }
    }
}

impl PatternMatcher {
    /// A matcher for the session: the two expected patterns (as the actuator
    /// drives them), the calibrated per-LED brightness thresholds, and the
    /// verification hold duration. Observation starts with empty windows and
    /// an unverified state.
    pub fn new(
        expected1: Vec<u8>,
        expected2: Vec<u8>,
        threshold1: u32,
        threshold2: u32,
        hold_millis: u64,
    ) -> (matcher: PatternMatcher)
        requires
            expected1@.len() == expected2@.len(),
            expected1@.len() >= 1,
        ensures
            matcher@.wf(),
            matcher@.expected1 == expected1@,
            matcher@.expected2 == expected2@,
            matcher@.threshold1 == threshold1,
            matcher@.threshold2 == threshold2,
            matcher@.window1 == Seq::<u8>::empty(),
            matcher@.window2 == Seq::<u8>::empty(),
            !matcher@.verified,
            matcher@.verified_since is None,
            matcher@.hold_millis == hold_millis,
    {
        PatternMatcher {
            expected1,
            expected2,
            threshold1,
            threshold2,
            window1: Vec::new(),
            window2: Vec::new(),
            verified: false,
            verified_since: None,
            hold_millis,
        }
    }

    /// Take one brightness sample pair, recorded at `now_millis`, and return
    /// the verification verdict after it. Samples are expected on the fixed
    /// cadence of the actuator's blink period, so sample times never move
    /// backwards past a verification time.
    pub fn update(
        &mut self,
        now_millis: u64,
        led1_brightness: u32,
        led2_brightness: u32,
    ) -> (verified: bool)
        requires
            old(self)@.wf(),
            match old(self).verified_since {
                Some(since) => since <= now_millis,
                None => true,
            },
        ensures
            final(self)@ == update_spec(old(self)@, now_millis, led1_brightness, led2_brightness),
            final(self)@.wf(),
            verified == final(self)@.verified,
    {
        let sample1: u8 = if led1_brightness > self.threshold1 {
            1
        } else {
            0
        };
        let sample2: u8 = if led2_brightness > self.threshold2 {
            1
        } else {
            0
        };
        let capacity = self.expected1.len();
        self.window1.push(sample1);
        if self.window1.len() > capacity {
            self.window1.remove(0);
        }
        self.window2.push(sample2);
        if self.window2.len() > capacity {
            self.window2.remove(0);
        }
        let ghost pre = old(self)@;
        proof {
            assert(self@.window1 =~= slide(pre.window1, led_state(led1_brightness, pre.threshold1), pre.pattern_len()));
            assert(self@.window2 =~= slide(pre.window2, led_state(led2_brightness, pre.threshold2), pre.pattern_len()));
        }
        let hold_running = match self.verified_since {
            Some(since) => now_millis - since < self.hold_millis,
            None => false,
        };
        if !hold_running {
            if self.window1.len() == capacity {
                let matched = self.window1 == self.expected1 && self.window2 == self.expected2;
                self.verified = matched;
                self.verified_since = if matched {
                    Some(now_millis)
                } else {
                    None
                };
                proof {
                    assert(self.window1@ =~= self.expected1@ <==> self.window1@
                        == self.expected1@);
                    assert(self.window2@ =~= self.expected2@ <==> self.window2@
                        == self.expected2@);
                }
            } else {
                self.verified = false;
                self.verified_since = None;
            }
        }
        proof {
            assert(self@ =~= update_spec(pre, now_millis, led1_brightness, led2_brightness));
        }
        self.verified
    }

    /// The current verdict, without taking a sample.
    pub fn is_verified(&self) -> (verified: bool)
        ensures
            verified == self@.verified,
    {
        self.verified
    }
}

/// Whether the fixed sampling cadence calls for a new sample: at least one
/// sampling interval has passed since the last sample was taken. Samples are
/// taken once per blink period so that each sample lines up with exactly one
/// pattern position.
pub fn due_for_sample(last_sample_millis: u64, now_millis: u64, interval_millis: u64) -> (due:
    bool)
    requires
        last_sample_millis <= now_millis,
    ensures
        due == (now_millis - last_sample_millis >= interval_millis),
{
    now_millis - last_sample_millis >= interval_millis
}

/// Debounce law: while the hold duration since the last positive match has
/// not elapsed, a sampling step never clears the verified state, whatever
/// the sampled brightness values are.
pub proof fn lemma_hold_keeps_verified(
    pre: MatcherView,
    now_millis: u64,
    led1_brightness: u32,
    led2_brightness: u32,
)
    requires
        pre.wf(),
        pre.verified,
        pre.in_hold(now_millis),
    ensures
        update_spec(pre, now_millis, led1_brightness, led2_brightness).verified,
{
}

} // verus!
