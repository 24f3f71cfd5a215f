use hash_miner::gpu::{GpuMiner, MAX_BATCH_SIZE};
use hash_miner::tune::{
    tune_candidates, BenchResult, TuneAction, Tuner, MEASURE_BATCHES, WARMUP_BATCHES,
};

#[test]
fn candidates_double_to_the_limit() {
    let c = tune_candidates();
    assert_eq!(c, vec![1 << 20, 1 << 21, 1 << 22, 1 << 23, 1 << 24, 1 << 25]);
    assert!(2 * c[5] > MAX_BATCH_SIZE);
    assert_eq!((WARMUP_BATCHES, MEASURE_BATCHES), (5, 20));
}

fn measure(t: &mut Tuner, over: &[bool], rates: &[u64]) -> Vec<u64> {
    let mut sizes = Vec::new();
    let (mut i, mut j) = (0, 0);
    loop {
        match t.next() {
            TuneAction::TimeBatch(b) => {
                sizes.push(b);
                t.on_time(over[i]);
                i += 1;
            }
            TuneAction::RateBatch(b) => {
                assert_eq!(sizes.last(), Some(&b));
                t.on_rate(rates[j]);
                j += 1;
            }
            _ => return sizes,
        }
    }
}

fn finish(t: &Tuner) -> BenchResult {
    match t.next() {
        TuneAction::Finish(r) => r,
        _ => panic!(),
    }
}

#[test]
fn the_highest_rate_wins_and_the_first_of_equals() {
    let mut t = GpuMiner::auto_tune();
    let sizes = measure(&mut t, &[false; 6], &[10, 30, 20, 30, 5, 1]);
    assert_eq!(sizes.len(), 6);
    assert!(matches!(t.next(), TuneAction::AskHeadroom(Some(1))));
    t.on_headroom(false);
    let r = finish(&t);
    assert_eq!((r.batch_size, r.pipeline_depth, r.rate), (1 << 21, 1, 30));
}

#[test]
fn a_batch_that_takes_too_long_ends_the_candidates() {
    let mut t = GpuMiner::auto_tune();
    let sizes = measure(&mut t, &[false, true], &[10]);
    assert_eq!(sizes, vec![1 << 20, 1 << 21]);
    t.on_headroom(false);
    assert_eq!(finish(&t).batch_size, 1 << 20);
}

#[test]
fn the_first_candidate_is_measured_however_long_it_takes() {
    let mut t = GpuMiner::auto_tune();
    let sizes = measure(&mut t, &[true, true], &[10]);
    assert_eq!(sizes.len(), 2);
    assert_eq!(t.rates, vec![10]);
}

#[test]
fn without_any_rate_the_first_candidate_stands() {
    let mut t = GpuMiner::auto_tune();
    measure(&mut t, &[true; 6], &[0; 6]);
    assert!(matches!(t.next(), TuneAction::AskHeadroom(None)));
    t.on_headroom(false);
    let r = finish(&t);
    assert_eq!((r.batch_size, r.pipeline_depth, r.rate), (1 << 20, 1, 0));
}

#[test]
fn depths_are_taken_while_they_help() {
    let mut t = GpuMiner::auto_tune();
    measure(&mut t, &[false, true], &[100]);
    t.on_headroom(true);
    for (depth, rate, threshold) in [(2u32, 120u64, 105u64), (3, 130, 126)] {
        assert!(matches!(t.next(), TuneAction::RateDepth(b, d) if b == 1 << 20 && d == depth));
        t.on_depth(rate, threshold);
    }
    t.on_depth(131, 136);
    let r = finish(&t);
    assert_eq!((r.pipeline_depth, r.rate), (3, 130));
}

#[test]
fn eight_is_the_deepest() {
    let mut t = GpuMiner::auto_tune();
    measure(&mut t, &[false, true], &[1]);
    t.on_headroom(true);
    let mut depths = Vec::new();
    while let TuneAction::RateDepth(_, d) = t.next() {
        depths.push(d);
        t.on_depth(d as u64 * 10, 1);
    }
    assert_eq!(depths, vec![2, 3, 4, 6, 8]);
    assert_eq!(finish(&t).pipeline_depth, 8);
}

#[test]
fn a_depth_at_the_threshold_is_not_taken() {
    let mut t = GpuMiner::auto_tune();
    measure(&mut t, &[false, true], &[100]);
    t.on_headroom(true);
    t.on_depth(105, 105);
    assert_eq!(finish(&t).pipeline_depth, 1);
}
