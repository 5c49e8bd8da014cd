use vstd::prelude::*;

verus! {

/// The largest sample of a non-empty batch.
pub open spec fn seq_max(samples: Seq<u32>) -> u32
    recommends
        samples.len() >= 1,
    decreases samples.len(),
{
    if samples.len() <= 1 {
        samples[0]
    } else {
        let rest = seq_max(samples.drop_last());
        if samples.last() > rest {
            samples.last()
        } else {
            rest
        }
    }
}

/// The smallest sample of a non-empty batch.
pub open spec fn seq_min(samples: Seq<u32>) -> u32
    recommends
        samples.len() >= 1,
    decreases samples.len(),
{
    if samples.len() <= 1 {
        samples[0]
    } else {
        let rest = seq_min(samples.drop_last());
        if samples.last() < rest {
            samples.last()
        } else {
            rest
        }
    }
}

pub proof fn lemma_seq_max_bounds(samples: Seq<u32>)
    requires
        samples.len() >= 1,
    ensures
        samples.contains(seq_max(samples)),
        forall|i: int| 0 <= i < samples.len() ==> #[trigger] samples[i] <= seq_max(samples),
    decreases samples.len(),
{
    if samples.len() > 1 {
        lemma_seq_max_bounds(samples.drop_last());
        assert(samples.drop_last().contains(seq_max(samples.drop_last())));
        assert forall|i: int| 0 <= i < samples.len() implies #[trigger] samples[i] <= seq_max(
            samples,
        ) by {
            if i < samples.len() - 1 {
                assert(samples.drop_last()[i] == samples[i]);
            }
        };
        let m = seq_max(samples);
        if samples.last() > seq_max(samples.drop_last()) {
            assert(samples[samples.len() - 1] == m);
        } else {
            let j = choose|j: int|
                0 <= j < samples.drop_last().len() && samples.drop_last()[j] == m;
            assert(samples[j] == m);
        }
    }
}

pub proof fn lemma_seq_min_bounds(samples: Seq<u32>)
    requires
        samples.len() >= 1,
    ensures
        samples.contains(seq_min(samples)),
        forall|i: int| 0 <= i < samples.len() ==> #[trigger] samples[i] >= seq_min(samples),
    decreases samples.len(),
{
    if samples.len() > 1 {
        lemma_seq_min_bounds(samples.drop_last());
        assert(samples.drop_last().contains(seq_min(samples.drop_last())));
        assert forall|i: int| 0 <= i < samples.len() implies #[trigger] samples[i] >= seq_min(
            samples,
        ) by {
            if i < samples.len() - 1 {
                assert(samples.drop_last()[i] == samples[i]);
            }
        };
        let m = seq_min(samples);
        if samples.last() < seq_min(samples.drop_last()) {
            assert(samples[samples.len() - 1] == m);
        } else {
            let j = choose|j: int|
                0 <= j < samples.drop_last().len() && samples.drop_last()[j] == m;
            assert(samples[j] == m);
        }
    }
}

/// A batch shows a usable blink signal when the brightest and darkest
/// samples lie at least the configured minimum separation apart.
pub open spec fn batch_separated(samples: Seq<u32>, min_separation: u32) -> bool {
    seq_max(samples) - seq_min(samples) >= min_separation
}

/// The decision boundary derived from a batch: the midpoint between the
/// brightest and the darkest sample, adaptive to ambient lighting.
pub open spec fn midpoint_threshold(samples: Seq<u32>) -> u32 {
    (((seq_max(samples) + seq_min(samples)) / 2) as u32)
}

/// One calibrated brightness threshold per LED; valid only as the outcome of
/// a successful calibration pass, whose batch showed at least the minimum
/// brightness separation.
#[derive(Clone, Copy, Debug, PartialEq, Eq, Structural)]
pub struct CalibrationThresholds {
    pub led1: u32,
    pub led2: u32,
}

/// Derives per-LED ON/OFF brightness thresholds from batches of sampled
/// brightness values, one sample per blink period. The platform collects a
/// batch per LED and submits the pair; the calibrator accepts it only when
/// both batches show the minimum separation, else it asks for a fresh batch.
/// A camera read failure during collection aborts the whole process on the
/// platform's side: without footage there is no proof of liveness.
pub struct Calibrator {
    pub min_separation: u32,
    pub batches_consumed: u64,
    pub thresholds: Option<CalibrationThresholds>,
}

impl Calibrator {
    pub fn new(min_separation: u32) -> (calibrator: Calibrator)
        ensures
            calibrator.min_separation == min_separation,
            calibrator.batches_consumed == 0,
            calibrator.thresholds is None,
    {
        Calibrator { min_separation, batches_consumed: 0, thresholds: None }
    }

    /// Judge one pair of sample batches, one batch per LED. Returns the
    /// calibrated thresholds exactly when both batches are separated enough;
    /// otherwise returns nothing, leaving any earlier result standing, and
    /// the caller collects a fresh pair. Every submitted pair is counted.
    pub fn submit_batch(&mut self, samples1: &Vec<u32>, samples2: &Vec<u32>) -> (outcome: Option<
        CalibrationThresholds,
    >)
        requires
            samples1@.len() >= 1,
            samples2@.len() >= 1,
            old(self).batches_consumed < u64::MAX,
        ensures
            final(self).min_separation == old(self).min_separation,
            final(self).batches_consumed == old(self).batches_consumed + 1,
            batch_separated(samples1@, old(self).min_separation) && batch_separated(
                samples2@,
                old(self).min_separation,
            ) ==> {
                &&& outcome == Some(
                    CalibrationThresholds {
                        led1: midpoint_threshold(samples1@),
                        led2: midpoint_threshold(samples2@),
                    },
                )
                &&& final(self).thresholds == outcome
            },
            !(batch_separated(samples1@, old(self).min_separation) && batch_separated(
                samples2@,
                old(self).min_separation,
            )) ==> outcome is None && final(self).thresholds == old(self).thresholds,
    {
        self.batches_consumed = self.batches_consumed + 1;
        let max1 = max_sample(samples1);
        let min1 = min_sample(samples1);
        let max2 = max_sample(samples2);
        let min2 = min_sample(samples2);
        proof {
            lemma_seq_max_bounds(samples1@);
            lemma_seq_min_bounds(samples1@);
            lemma_seq_max_bounds(samples2@);
            lemma_seq_min_bounds(samples2@);
            assert(samples1@[0] <= max1);
            assert(samples1@[0] >= min1);
            assert(samples2@[0] <= max2);
            assert(samples2@[0] >= min2);
        }
        if max1 - min1 >= self.min_separation && max2 - min2 >= self.min_separation {
            let threshold1 = (((max1 as u64) + (min1 as u64)) / 2) as u32;
            let threshold2 = (((max2 as u64) + (min2 as u64)) / 2) as u32;
            let thresholds = CalibrationThresholds { led1: threshold1, led2: threshold2 };
            self.thresholds = Some(thresholds);
            Some(thresholds)
        } else {
            None
        }
    }
}

/// The largest sample of a non-empty batch.
pub fn max_sample(samples: &Vec<u32>) -> (max: u32)
    requires
        samples@.len() >= 1,
    ensures
        max == seq_max(samples@),
{
    let mut max = samples[0];
    let mut i: usize = 1;
    while i < samples.len()
        invariant
            1 <= i <= samples@.len(),
            max == seq_max(samples@.take(i as int)),
        decreases samples@.len() - i,
    {
        proof {
            assert(samples@.take(i + 1).drop_last() =~= samples@.take(i as int));
            assert(samples@.take(i + 1).last() == samples@[i as int]);
        }
        if samples[i] > max {
            max = samples[i];
        }
        i = i + 1;
    }
    proof {
        assert(samples@.take(samples@.len() as int) =~= samples@);
    }
    max
}

/// The smallest sample of a non-empty batch.
pub fn min_sample(samples: &Vec<u32>) -> (min: u32)
    requires
        samples@.len() >= 1,
    ensures
        min == seq_min(samples@),
{
    let mut min = samples[0];
    let mut i: usize = 1;
    while i < samples.len()
        invariant
            1 <= i <= samples@.len(),
            min == seq_min(samples@.take(i as int)),
        decreases samples@.len() - i,
    {
        proof {
            assert(samples@.take(i + 1).drop_last() =~= samples@.take(i as int));
            assert(samples@.take(i + 1).last() == samples@[i as int]);
        }
        if samples[i] < min {
            min = samples[i];
        }
        i = i + 1;
    }
    proof {
        assert(samples@.take(samples@.len() as int) =~= samples@);
    }
    min
}

} // verus!
