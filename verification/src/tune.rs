//! Tuning: which batch size and which pipeline depth a device gets.
//!
//! The measurements are made outside. A hash rate comes in as an integer that
//! orders as the rates do, zero for a rate of zero.

use crate::gpu::{GpuMiner, MAX_BATCH_SIZE};
use vstd::prelude::*;

verus! {

/// Batches that are run before a rate is measured.
pub const WARMUP_BATCHES: u32 = 5;

/// Batches that a rate is measured over.
pub const MEASURE_BATCHES: u32 = 20;

/// What tuning came to.
#[derive(Clone, Copy)]
pub struct BenchResult {
    pub batch_size: u64,
    pub pipeline_depth: u32,
    /// The measured rate, as an integer that orders as the rates do.
    pub rate: u64,
}

/// The batch sizes that are tried: from `2^20`, doubled as long as a dispatch
/// can have them.
pub open spec fn candidates() -> Seq<u64> {
    seq![1_048_576, 2_097_152, 4_194_304, 8_388_608, 16_777_216, 33_554_432]
}

/// The pipeline depths that are tried, one slot being what is measured first.
pub open spec fn depths() -> Seq<u32> {
    seq![2, 3, 4, 6, 8]
}

/// The candidates are the sizes from `2^20` on, each double the one before, and
/// the next would be too large.
pub proof fn law_candidates_double_to_the_limit()
    ensures
        candidates().len() == 6,
        candidates()[0] == 0x10_0000,
        forall|i: int| 0 <= i < 5 ==> #[trigger] candidates()[i + 1] == 2 * candidates()[i],
        forall|i: int| 0 <= i < 6 ==> #[trigger] candidates()[i] <= MAX_BATCH_SIZE,
        2 * candidates()[5] > MAX_BATCH_SIZE,
{
    assert forall|i: int| 0 <= i < 5 implies #[trigger] candidates()[i + 1] == 2
        * candidates()[i] by {
        if i == 0 {
        } else if i == 1 {
        } else if i == 2 {
        } else if i == 3 {
        } else {
        }
    }
    assert forall|i: int| 0 <= i < 6 implies #[trigger] candidates()[i] <= MAX_BATCH_SIZE by {
        if i == 0 {
        } else if i == 1 {
        } else if i == 2 {
        } else if i == 3 {
        } else if i == 4 {
        } else {
        }
    }
}

/// The batch sizes that are tried.
pub fn tune_candidates() -> (v: Vec<u64>)
    ensures
        v@ == candidates(),
{
    let mut v: Vec<u64> = Vec::new();
    let mut b: u64 = 1_048_576;
    while b <= MAX_BATCH_SIZE
        invariant
            0 <= v@.len() <= 6,
            v@ == candidates().take(v@.len() as int),
            v@.len() < 6 ==> b == candidates()[v@.len() as int],
            v@.len() == 6 ==> b == 67_108_864,
        decreases 6 - v@.len(),
    {
        v.push(b);
        b = b * 2;
        proof {
            let n = (v@.len() - 1) as int;
            assert(candidates().take(n + 1) =~= candidates().take(n).push(candidates()[n]));
            law_candidates_double_to_the_limit();
            if n < 5 {
                assert(candidates()[n + 1] == 2 * candidates()[n]);
            }
        }
    }
    proof {
        if v@.len() < 6 {
            law_candidates_double_to_the_limit();
            assert(candidates()[v@.len() as int] <= MAX_BATCH_SIZE);
        }
        assert(candidates().take(6) =~= candidates());
    }
    v
}

/// What tuning waits for.
#[derive(Clone, Copy, PartialEq, Eq, Structural)]
pub enum TuneStage {
    /// The time of one batch of the next candidate.
    Time,
    /// The rate of that candidate.
    Rate,
    /// Whether the best candidate leaves the device time to spare.
    Headroom,
    /// The rate at the next depth.
    Depth,
    /// Nothing more.
    Done,
}

/// What is to be done for tuning.
#[derive(Clone, Copy)]
pub enum TuneAction {
    /// Time one batch of this size.
    TimeBatch(u64),
    /// Measure the rate at this size, with one slot.
    RateBatch(u64),
    /// Say whether the candidate at this position took less than half the
    /// target time; where none had a rate above zero, whether a time of zero is
    /// less.
    AskHeadroom(Option<usize>),
    /// Measure the rate at this size and depth.
    RateDepth(u64, u32),
    /// Take this result.
    Finish(BenchResult),
}

/// The state of tuning.
pub struct Tuner {
    pub stage: TuneStage,
    /// The rates of the candidates that were measured, in order.
    pub rates: Vec<u64>,
    /// The position of the best of them.
    pub best: usize,
    pub best_rate: u64,
    /// The depths that were taken.
    pub taken: usize,
    pub chosen_rate: u64,
}

/// Whether the first of the highest rates is `rate`, at `at`; where no rate is
/// above zero, the first position stands.
pub open spec fn is_first_highest(rates: Seq<u64>, at: int, rate: u64) -> bool {
    &&& forall|j: int| 0 <= j < rates.len() ==> rates[j] <= rate
    &&& rate == 0 ==> at == 0
    &&& rate > 0 ==> 0 <= at < rates.len() && rates[at] == rate && forall|j: int|
        0 <= j < at ==> rates[j] < rate
}

/// The depth after `taken` of the depths were taken.
pub open spec fn depth_after(taken: nat) -> u32 {
    if taken == 0 {
        1
    } else {
        depths()[taken - 1]
    }
}

impl Tuner {
    /// The invariant: the best is the first of the highest rates so far.
    pub open spec fn wf(&self) -> bool {
        &&& self.rates@.len() <= 6
        &&& self.best < 6
        &&& is_first_highest(self.rates@, self.best as int, self.best_rate)
        &&& self.stage is Time || self.stage is Rate ==> self.rates@.len() < 6
        &&& self.taken <= 5
        &&& !(self.stage is Depth || self.stage is Done) ==> self.taken == 0
        &&& self.stage is Depth ==> self.taken < 5
        &&& (self.stage is Depth || self.stage is Done) && self.taken == 0 ==> self.chosen_rate
            == self.best_rate
    }

    /// What tuning came to, where it is done.
    pub open spec fn result(&self) -> BenchResult {
        BenchResult {
            batch_size: candidates()[self.best as int],
            pipeline_depth: depth_after(self.taken as nat),
            rate: self.chosen_rate,
        }
    }

    /// What is to be done next.
    pub fn next(&self) -> (a: TuneAction)
        requires
            self.wf(),
        ensures
            a == match self.stage {
                TuneStage::Time => TuneAction::TimeBatch(candidates()[self.rates@.len() as int]),
                TuneStage::Rate => TuneAction::RateBatch(candidates()[self.rates@.len() as int]),
                TuneStage::Headroom => TuneAction::AskHeadroom(
                    if self.best_rate > 0 {
                        Some(self.best)
                    } else {
                        None
                    },
                ),
                TuneStage::Depth => TuneAction::RateDepth(
                    candidates()[self.best as int],
                    depths()[self.taken as int],
                ),
                TuneStage::Done => TuneAction::Finish(self.result()),
            },
    {
        let sizes: Vec<u64> = tune_candidates();
        let ds: [u32; 5] = [2, 3, 4, 6, 8];
        assert(ds@ =~= depths());
        match self.stage {
            TuneStage::Time => TuneAction::TimeBatch(sizes[self.rates.len()]),
            TuneStage::Rate => TuneAction::RateBatch(sizes[self.rates.len()]),
            TuneStage::Headroom => TuneAction::AskHeadroom(
                if self.best_rate > 0 {
                    Some(self.best)
                } else {
                    None
                },
            ),
            TuneStage::Depth => TuneAction::RateDepth(sizes[self.best], ds[self.taken]),
            TuneStage::Done => TuneAction::Finish(
                BenchResult {
                    batch_size: sizes[self.best],
                    pipeline_depth: if self.taken == 0 {
                        1
                    } else {
                        ds[self.taken - 1]
                    },
                    rate: self.chosen_rate,
                },
            ),
        }
    }

    /// One batch of the next candidate was timed. Where it took too long and a
    /// smaller one is already known to work, no more candidates are tried.
    pub fn on_time(&mut self, over_limit: bool)
        requires
            old(self).wf(),
            old(self).stage is Time,
        ensures
            final(self).wf(),
            *final(self) == (Tuner {
                stage: if over_limit && old(self).best_rate > 0 {
                    TuneStage::Headroom
                } else {
                    TuneStage::Rate
                },
                ..*old(self)
            }),
    {
        if over_limit && self.best_rate > 0 {
            self.stage = TuneStage::Headroom;
        } else {
            self.stage = TuneStage::Rate;
        }
    }

    /// The rate of the next candidate was measured: it is the best where it is
    /// above all before it.
    pub fn on_rate(&mut self, rate: u64)
        requires
            old(self).wf(),
            old(self).stage is Rate,
        ensures
            final(self).wf(),
            final(self).rates@ == old(self).rates@.push(rate),
            final(self).stage == (if old(self).rates@.len() == 5 {
                TuneStage::Headroom
            } else {
                TuneStage::Time
            }),
            final(self).taken == old(self).taken,
            final(self).chosen_rate == old(self).chosen_rate,
    {
        let at: usize = self.rates.len();
        self.rates.push(rate);
        if rate > self.best_rate {
            self.best_rate = rate;
            self.best = at;
        }
        self.stage = if self.rates.len() >= 6 {
            TuneStage::Headroom
        } else {
            TuneStage::Time
        };
    }

    /// It is known whether the best candidate leaves time to spare. Only where
    /// it does can more slots help.
    pub fn on_headroom(&mut self, headroom: bool)
        requires
            old(self).wf(),
            old(self).stage is Headroom,
        ensures
            final(self).wf(),
            *final(self) == (Tuner {
                stage: if headroom {
                    TuneStage::Depth
                } else {
                    TuneStage::Done
                },
                chosen_rate: old(self).best_rate,
                ..*old(self)
            }),
    {
        self.chosen_rate = self.best_rate;
        self.stage = if headroom {
            TuneStage::Depth
        } else {
            TuneStage::Done
        };
    }

    /// The rate at the next depth was measured. It is taken where it is above
    /// the threshold that the rate so far sets; the first that is not ends
    /// tuning.
    pub fn on_depth(&mut self, rate: u64, threshold: u64)
        requires
            old(self).wf(),
            old(self).stage is Depth,
        ensures
            final(self).wf(),
            *final(self) == (if rate > threshold {
                Tuner {
                    stage: if old(self).taken == 4 {
                        TuneStage::Done
                    } else {
                        TuneStage::Depth
                    },
                    taken: (old(self).taken + 1) as usize,
                    chosen_rate: rate,
                    ..*old(self)
                }
            } else {
                Tuner { stage: TuneStage::Done, ..*old(self) }
            }),
    {
        if rate > threshold {
            self.chosen_rate = rate;
            self.taken = self.taken + 1;
            if self.taken >= 5 {
                self.stage = TuneStage::Done;
            }
        } else {
            self.stage = TuneStage::Done;
        }
    }
}

impl GpuMiner {
    /// Begins tuning: nothing is measured, the first candidate stands with a
    /// rate of zero, and the depth is one.
    pub fn auto_tune() -> (t: Tuner)
        ensures
            t.wf(),
            t.stage is Time,
            t.rates@ == Seq::<u64>::empty(),
            t.best == 0,
            t.best_rate == 0,
            t.taken == 0,
            t.chosen_rate == 0,
    {
        Tuner {
            stage: TuneStage::Time,
            rates: Vec::new(),
            best: 0,
            best_rate: 0,
            taken: 0,
            chosen_rate: 0,
        }
    }
}

/// The batch size that tuning comes to has the highest rate of those measured,
/// and the earliest of these; the depth is one of those tried, or one.
pub proof fn law_tuning_takes_the_highest(t: Tuner, i: int)
    requires
        t.wf(),
        t.stage is Done,
        0 <= i < t.rates@.len(),
    ensures
        t.result().batch_size == candidates()[t.best as int],
        t.rates@[i] <= t.best_rate,
        t.best_rate > 0 ==> t.rates@[t.best as int] == t.best_rate,
        t.best_rate > 0 && i < t.best ==> t.rates@[i] < t.best_rate,
        t.result().pipeline_depth == 1 || depths().contains(t.result().pipeline_depth),
        t.taken == 0 ==> t.result().rate == t.best_rate,
        t.best_rate == 0 ==> t.best == 0,
        t.taken == 0 ==> t.result().pipeline_depth == 1,
        t.taken > 0 ==> t.result().pipeline_depth == depths()[t.taken - 1],
        t.result().rate == t.chosen_rate,
{
}

/// Depths are tried in rising order, from two to eight, and each that was taken
/// makes the pipeline deeper.
pub proof fn law_depths_rise(i: int)
    requires
        0 <= i < depths().len(),
    ensures
        depths().len() == 5,
        2 <= depths()[i] <= 8,
        depths()[0] == 2,
        depths()[4] == 8,
        depth_after(0) == 1,
        depth_after((i + 1) as nat) == depths()[i],
        depth_after(i as nat) < depth_after((i + 1) as nat),
{
    if i == 0 {
    } else if i == 1 {
    } else if i == 2 {
    } else if i == 3 {
    } else {
    }
}

} // verus!
