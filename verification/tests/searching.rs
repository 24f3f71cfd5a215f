use hash_miner::gpu::{GpuMiner, ResultBuffer};
use hash_miner::search::{BenchStep, Search, SearchStep};

fn found(nonce: u32) -> ResultBuffer {
    ResultBuffer { found: 1, nonce_lo: nonce, nonce_hi: 0, pad: 0, hash: [7; 8] }
}

fn primed(hint: u64, depth: u32, start: u64) -> (Search, Vec<(usize, u64)>) {
    let mut s = GpuMiner::search(hint, depth, [1; 32], [2; 32], start);
    let mut out = Vec::new();
    while let Some(d) = s.prime() {
        assert_eq!(d.workgroup_count, GpuMiner::normalize_batch(hint).1);
        assert_eq!(d.uniforms.nonce_base_lo, d.nonce_base as u32);
        out.push((d.slot, d.nonce_base));
    }
    (s, out)
}

#[test]
fn every_slot_gets_a_first_batch() {
    let (_, out) = primed(2000, 3, 100);
    assert_eq!(out, vec![(0, 100), (1, 2148), (2, 4196)]);
    let (_, out) = primed(2000, 0, 100);
    assert_eq!(out, vec![(0, 100)]);
}

#[test]
fn slots_are_read_and_refilled_in_turn() {
    let (mut s, _) = primed(1024, 2, 0);
    let mut bases = Vec::new();
    for expected in [0usize, 1, 0, 1] {
        assert_eq!(s.poll(false), Some(expected));
        match s.on_result(&ResultBuffer::cleared()) {
            SearchStep::Next(d) => {
                assert_eq!(d.slot, expected);
                bases.push(d.nonce_base);
            }
            SearchStep::Found(_) => panic!(),
        }
    }
    assert_eq!(bases, vec![2048, 3072, 4096, 5120]);
    assert_eq!(s.nonces_tried(), 4096);
}

#[test]
fn a_hit_ends_the_search() {
    let (mut s, _) = primed(1024, 2, 0);
    match s.on_result(&found(77)) {
        SearchStep::Found(hit) => {
            assert_eq!(hit.nonce, 77);
            assert_eq!(hit.hash_be[..4], [0, 0, 0, 7]);
        }
        SearchStep::Next(_) => panic!(),
    }
    assert_eq!(s.nonces_tried(), 1024);
}

#[test]
fn a_stopped_search_polls_nothing() {
    let (s, _) = primed(1024, 2, 0);
    assert_eq!(s.poll(true), None);
    assert_eq!(s.nonces_tried(), 0);
}

#[test]
fn the_walk_wraps_around() {
    let (_, out) = primed(1024, 3, u64::MAX - 1023);
    assert_eq!(out, vec![(0, u64::MAX - 1023), (1, 0), (2, 1024)]);
}

#[test]
fn the_walk_has_no_gap_and_no_overlap() {
    let (mut s, out) = primed(3000, 4, 12345);
    let mut bases: Vec<u64> = out.iter().map(|p| p.1).collect();
    for _ in 0..20 {
        if let SearchStep::Next(d) = s.on_result(&ResultBuffer::cleared()) {
            bases.push(d.nonce_base);
        }
    }
    for k in 1..bases.len() {
        assert_eq!(bases[k], bases[k - 1] + 3072);
    }
}

#[test]
fn benchmark_runs_walk_from_zero() {
    let mut run = GpuMiner::bench_pipelined(1024, 2, 3, 2);
    assert_eq!(run.batch(), 1024);
    let mut batches = Vec::new();
    let mut started_after = None;
    loop {
        match run.next() {
            BenchStep::Run(d) => batches.push((d.slot, d.nonce_base)),
            BenchStep::StartClock => started_after = Some(batches.len()),
            BenchStep::StopClock => break,
        }
    }
    assert_eq!(batches, vec![(0, 0), (1, 1024), (0, 2048), (0, 3072), (1, 4096)]);
    assert_eq!(started_after, Some(3));
    assert!(matches!(run.next(), BenchStep::StopClock));
}

#[test]
fn an_empty_benchmark_run_only_keeps_time() {
    let mut run = GpuMiner::bench_pipelined(1, 0, 0, 0);
    assert!(matches!(run.next(), BenchStep::StartClock));
    assert!(matches!(run.next(), BenchStep::StopClock));
}

#[test]
fn benchmarks_all_but_never_hit() {
    let d = GpuMiner::bench_once(5000);
    assert_eq!(d.workgroup_count, 5);
    assert_eq!((d.slot, d.nonce_base), (0, 0));
    assert_eq!(d.uniforms.challenge, [0x77777777; 8]);
    assert_eq!(d.uniforms.difficulty, [0, 0, 0, 0, 0, 0, 0, 1]);
}
