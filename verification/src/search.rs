//! The search: batches in flight on one device, and benchmark runs.

use crate::gpu::{make_uniforms, GpuMiner, ResultBuffer, Uniforms};
use crate::hit::{selftest_challenge, selftest_difficulty, MineHit, SELFTEST_BATCH};
use vstd::prelude::*;

verus! {

use crate::bytes::be_nat;
use crate::gpu::{batch_for, law_batch_covers_hint, law_dispatch_reaches_the_device, reports, uniforms_hold, workgroups_for, NONCES_PER_WORKGROUP};
use crate::hit::{selftest_challenge_bytes, selftest_difficulty_bytes};
use vstd::arithmetic::div_mod::{lemma_add_mod_noop, lemma_fundamental_div_mod, lemma_mod_add_multiples_vanish, lemma_mod_twice, lemma_small_mod, lemma_fundamental_div_mod_converse};

/// A batch to be run: the slot it runs in, what it is handed, how many
/// workgroups it has. The slot's result buffer is cleared first.
#[derive(Clone, Copy)]
pub struct Dispatch {
    pub slot: usize,
    pub nonce_base: u64,
    pub uniforms: Uniforms,
    pub workgroup_count: u32,
}

/// `2^64`: nonces wrap around there.
pub open spec fn nonce_space() -> int {
    0x1_0000_0000_0000_0000
}

/// The first nonce of the `k`-th batch of a walk from `start`.
pub open spec fn batch_base(start: u64, batch: u64, k: nat) -> u64 {
    ((start + k * batch) % nonce_space()) as u64
}

/// The slots of a pipeline: at least one.
pub open spec fn slots_for(pipeline_depth: u32) -> usize {
    if pipeline_depth == 0 {
        1
    } else {
        pipeline_depth as usize
    }
}

/// Whether `d` is the `k`-th batch of a walk: it runs in the slot whose turn it
/// is, from where the batch before it ended.
pub open spec fn is_batch(
    d: Dispatch,
    k: nat,
    start: u64,
    hint: u64,
    depth: usize,
    challenge: Seq<u8>,
    difficulty: Seq<u8>,
) -> bool {
    &&& d.slot == k % (depth as nat)
    &&& d.nonce_base == batch_base(start, batch_for(hint), k)
    &&& uniforms_hold(d.uniforms, challenge, difficulty, d.nonce_base)
    &&& d.workgroup_count == workgroups_for(hint)
}

/// A search on one device.
pub struct Search {
    real_batch: u64,
    workgroup_count: u32,
    depth: usize,
    challenge: [u8; 32],
    difficulty: [u8; 32],
    nonce_cursor: u64,
    total_nonces: u64,
    primed: usize,
    slot: usize,
    hint: Ghost<u64>,
    start: Ghost<u64>,
    dispatched: Ghost<nat>,
    read: Ghost<nat>,
}

/// What follows a result.
pub enum SearchStep {
    /// A hit ends the search.
    Found(MineHit),
    /// No hit: the slot gets its next batch.
    Next(Dispatch),
}

impl Search {
    /// The batch size that was asked for.
    pub closed spec fn hint(&self) -> u64 {
        self.hint@
    }

    /// The nonce that the search began at.
    pub closed spec fn start(&self) -> u64 {
        self.start@
    }

    /// The slots.
    pub closed spec fn depth(&self) -> usize {
        self.depth
    }

    /// The challenge searched under.
    pub closed spec fn challenge(&self) -> Seq<u8> {
        self.challenge@
    }

    /// The difficulty searched under.
    pub closed spec fn difficulty(&self) -> Seq<u8> {
        self.difficulty@
    }

    /// How many batches were dispatched.
    pub closed spec fn dispatched(&self) -> nat {
        self.dispatched@
    }

    /// How many results were read.
    pub closed spec fn read(&self) -> nat {
        self.read@
    }

    /// What the search is about, which no step changes.
    pub open spec fn same_search(&self, other: &Search) -> bool {
        &&& self.hint() == other.hint()
        &&& self.start() == other.start()
        &&& self.depth() == other.depth()
        &&& self.challenge() == other.challenge()
        &&& self.difficulty() == other.difficulty()
    }

    /// Whether every slot has had its first batch.
    pub open spec fn is_primed(&self) -> bool {
        self.dispatched() >= self.depth()
    }

    /// The invariant: the walk has no gap, and every slot has one batch in
    /// flight once the first have gone out.
    pub closed spec fn wf(&self) -> bool {
        &&& self.depth >= 1
        &&& self.real_batch == batch_for(self.hint@)
        &&& self.workgroup_count == workgroups_for(self.hint@)
        &&& self.nonce_cursor == batch_base(self.start@, self.real_batch, self.dispatched@)
        &&& self.total_nonces == tried(self.real_batch, self.read@)
        &&& self.slot == self.read@ % (self.depth as nat)
        &&& self.primed <= self.depth
        &&& if self.primed < self.depth {
            self.dispatched@ == self.primed && self.read@ == 0
        } else {
            self.dispatched@ == self.depth + self.read@
        }
    }

    /// The batch at the cursor, for the given slot; the cursor moves past it.
    fn advance(&mut self, slot: usize) -> (d: Dispatch)
        requires
            old(self).nonce_cursor == batch_base(
                old(self).start@,
                old(self).real_batch,
                old(self).dispatched@,
            ),
        ensures
            d.slot == slot,
            d.nonce_base == old(self).nonce_cursor,
            uniforms_hold(d.uniforms, old(self).challenge@, old(self).difficulty@, d.nonce_base),
            d.workgroup_count == old(self).workgroup_count,
            *final(self) == (Search {
                nonce_cursor: final(self).nonce_cursor,
                dispatched: final(self).dispatched,
                ..*old(self)
            }),
            final(self).dispatched@ == old(self).dispatched@ + 1,
            final(self).nonce_cursor == batch_base(
                final(self).start@,
                final(self).real_batch,
                final(self).dispatched@,
            ),
    {
        let nonce_base: u64 = self.nonce_cursor;
        let uniforms: Uniforms = make_uniforms(&self.challenge, &self.difficulty, nonce_base);
        self.nonce_cursor = nonce_base.wrapping_add(self.real_batch);
        proof {
            let (b, k) = (self.real_batch as int, self.dispatched@ as int);
            let s = self.start@ as int;
            assert((k + 1) * b == k * b + b) by (nonlinear_arith);
            lemma_add_mod_noop(s + k * b, b, nonce_space());
            lemma_small_mod(b as nat, nonce_space() as nat);
            self.dispatched@ = self.dispatched@ + 1;
        }
        Dispatch { slot, nonce_base, uniforms, workgroup_count: self.workgroup_count }
    }

    /// The next of the batches that fill the pipeline, slot after slot; nothing
    /// once every slot has one.
    pub fn prime(&mut self) -> (next: Option<Dispatch>)
        requires
            old(self).wf(),
        ensures
            final(self).wf(),
            final(self).same_search(old(self)),
            final(self).read() == old(self).read(),
            next is None <==> old(self).is_primed(),
            next is None ==> *final(self) == *old(self),
            next matches Some(d) ==> final(self).dispatched() == old(self).dispatched() + 1
                && is_batch(
                d,
                old(self).dispatched(),
                old(self).start(),
                old(self).hint(),
                old(self).depth(),
                old(self).challenge(),
                old(self).difficulty(),
            ),
    {
        if self.primed >= self.depth {
            return None;
        }
        let slot: usize = self.primed;
        let d: Dispatch = self.advance(slot);
        self.primed = self.primed + 1;
        proof {
            lemma_small_mod(slot as nat, self.depth as nat);
        }
        Some(d)
    }

    /// The slot whose result is read next; nothing, where the search is to stop.
    pub fn poll(&self, stop: bool) -> (slot: Option<usize>)
        requires
            self.wf(),
            self.is_primed(),
        ensures
            slot is None <==> stop,
            slot matches Some(s) ==> s == self.read() % (self.depth() as nat),
    {
        if stop {
            None
        } else {
            Some(self.slot)
        }
    }

    /// The nonces tried so far, held at the largest `u64`; a hit that ends the
    /// search counts with its batch.
    pub fn nonces_tried(&self) -> (n: u64)
        ensures
            n == self.nonces_counted(),
            self.wf() ==> n == tried(batch_for(self.hint()), self.read()),
    {
        self.total_nonces
    }

    /// Takes the result of the slot that was polled: a hit ends the search, else
    /// the slot gets the next batch.
    pub fn on_result(&mut self, result: &ResultBuffer) -> (step: SearchStep)
        requires
            old(self).wf(),
            old(self).is_primed(),
        ensures
            final(self).same_search(old(self)),
            final(self).read() == old(self).read() + 1,
            final(self).nonces_counted() == tried(
                batch_for(old(self).hint()),
                old(self).read() + 1,
            ),
            match step {
                SearchStep::Found(hit) => result.found > 0 && reports(*result, hit)
                    && final(self).dispatched() == old(self).dispatched(),
                SearchStep::Next(d) => result.found == 0 && final(self).wf()
                    && final(self).is_primed() && final(self).dispatched() == old(
                    self,
                ).dispatched() + 1 && is_batch(
                    d,
                    old(self).dispatched(),
                    old(self).start(),
                    old(self).hint(),
                    old(self).depth(),
                    old(self).challenge(),
                    old(self).difficulty(),
                ) && d.slot == old(self).read() % (old(self).depth() as nat),
            },
    {
        self.total_nonces = self.total_nonces.saturating_add(self.real_batch);
        proof {
            let (b, k) = (self.real_batch as int, self.read@ as int);
            assert((k + 1) * b == k * b + b) by (nonlinear_arith);
            self.read@ = self.read@ + 1;
        }
        match result.hit() {
            Some(hit) => SearchStep::Found(hit),
            None => {
                let slot: usize = self.slot;
                let d: Dispatch = self.advance(slot);
                self.slot = if slot + 1 >= self.depth {
                    0
                } else {
                    slot + 1
                };
                proof {
                    let n = self.depth as int;
                    let k = old(self).read@ as int;
                    lemma_mod_add_multiples_vanish(k, n);
                    lemma_next_slot(k, n);
                }
                SearchStep::Next(d)
            },
        }
    }

    /// The nonces that the search counts as tried.
    pub closed spec fn nonces_counted(&self) -> u64 {
        self.total_nonces
    }
}

/// The nonces tried in `k` batches, held at the largest `u64`.
pub open spec fn tried(batch: u64, k: nat) -> u64 {
    if k * batch > u64::MAX {
        u64::MAX
    } else {
        (k * batch) as u64
    }
}

/// The slot after the `k`-th.
proof fn lemma_next_slot(k: int, n: int)
    requires
        n > 0,
        k >= 0,
    ensures
        (k + 1) % n == if k % n + 1 >= n {
            0
        } else {
            k % n + 1
        },
{
    lemma_fundamental_div_mod(k, n);
    let (q, r) = (k / n, k % n);
    if r + 1 >= n {
        assert((q + 1) * n == q * n + n) by (nonlinear_arith);
        assert(q * n == n * q) by (nonlinear_arith);
        lemma_fundamental_div_mod_converse(k + 1, n, q + 1, 0);
    } else {
        assert(q * n == n * q) by (nonlinear_arith);
        lemma_fundamental_div_mod_converse(k + 1, n, q, r + 1);
    }
}

impl GpuMiner {
    /// Begins a search from `start_nonce`: batches of about `batch_size`
    /// nonces, `pipeline_depth` of them in flight.
    pub fn search(
        batch_size: u64,
        pipeline_depth: u32,
        challenge: [u8; 32],
        difficulty: [u8; 32],
        start_nonce: u64,
    ) -> (s: Search)
        ensures
            s.wf(),
            s.hint() == batch_size,
            s.start() == start_nonce,
            s.depth() == slots_for(pipeline_depth),
            s.challenge() == challenge@,
            s.difficulty() == difficulty@,
            s.dispatched() == 0,
            s.read() == 0,
    {
        let (real_batch, workgroup_count): (u64, u32) = GpuMiner::normalize_batch(batch_size);
        let depth: usize = if pipeline_depth == 0 {
            1
        } else {
            pipeline_depth as usize
        };
        proof {
            lemma_small_mod(start_nonce as nat, nonce_space() as nat);
            lemma_small_mod(0, depth as nat);
            assert(0 * real_batch == 0);
        }
        Search {
            real_batch,
            workgroup_count,
            depth,
            challenge,
            difficulty,
            nonce_cursor: start_nonce,
            total_nonces: 0,
            primed: 0,
            slot: 0,
            hint: Ghost(batch_size),
            start: Ghost(start_nonce),
            dispatched: Ghost(0),
            read: Ghost(0),
        }
    }
}

/// The walk has no gap: every nonce within the first `n` batches, counted from
/// the start, lies in one of them.
pub proof fn law_walk_has_no_gap(start: u64, batch: u64, n: nat, offset: nat)
    requires
        batch > 0,
        offset < n * batch,
    ensures
        exists|k: nat, i: nat|
            k < n && i < batch && #[trigger] nonce_at(start, batch, k, i) == (start + offset)
                % nonce_space(),
{
    let k = offset / (batch as nat);
    let i = offset % (batch as nat);
    lemma_fundamental_div_mod(offset as int, batch as int);
    assert(k < n) by (nonlinear_arith)
        requires
            offset == batch * k + i,
            offset < n * batch,
            batch > 0,
    ;
    lemma_nonce_at(start, batch, k, i);
    assert(k * batch == batch * k) by (nonlinear_arith);
    assert(nonce_at(start, batch, k, i) == (start + offset) % nonce_space());
}

/// The `i`-th nonce of the `k`-th batch.
pub open spec fn nonce_at(start: u64, batch: u64, k: nat, i: nat) -> int {
    (batch_base(start, batch, k) + i) % nonce_space()
}

/// A nonce of a batch, counted from the start of the walk.
proof fn lemma_nonce_at(start: u64, batch: u64, k: nat, i: nat)
    ensures
        nonce_at(start, batch, k, i) == (start + (k * batch + i)) % nonce_space(),
{
    let x = start + k * batch;
    let m = nonce_space();
    lemma_add_mod_noop(x, i as int, m);
    lemma_add_mod_noop(x % m, i as int, m);
    lemma_mod_twice(x, m);
}

/// No nonce is tried twice before the walk has gone all the way round: two
/// batches share no nonce, and neither do two places in one batch.
pub proof fn law_no_nonce_is_tried_twice(start: u64, batch: u64, j: nat, a: nat, k: nat, b: nat)
    requires
        a < batch,
        b < batch,
        (j + 1) * batch <= nonce_space(),
        (k + 1) * batch <= nonce_space(),
        nonce_at(start, batch, j, a) == nonce_at(start, batch, k, b),
    ensures
        j == k,
        a == b,
{
    lemma_nonce_at(start, batch, j, a);
    lemma_nonce_at(start, batch, k, b);
    let x = (j * batch + a) as int;
    let y = (k * batch + b) as int;
    assert((j + 1) * batch == j * batch + batch) by (nonlinear_arith);
    assert((k + 1) * batch == k * batch + batch) by (nonlinear_arith);
    assert(x == y) by {
        lemma_same_remainder(start as int, x, y, nonce_space());
    }
    if j < k {
        assert((j + 1) * batch <= k * batch) by (nonlinear_arith)
            requires
                j + 1 <= k,
        ;
    } else if k < j {
        assert((k + 1) * batch <= j * batch) by (nonlinear_arith)
            requires
                k + 1 <= j,
        ;
    }
}

/// Two steps below the modulus that lead to one remainder are equal.
proof fn lemma_same_remainder(s: int, x: int, y: int, m: int)
    requires
        m > 0,
        0 <= x < m,
        0 <= y < m,
        (s + x) % m == (s + y) % m,
    ensures
        x == y,
{
    lemma_fundamental_div_mod(s + x, m);
    lemma_fundamental_div_mod(s + y, m);
    let (p, q) = ((s + x) / m, (s + y) / m);
    assert(p == q) by (nonlinear_arith)
        requires
            x - y == m * p - m * q,
            -m < x - y < m,
            m > 0,
    ;
}

/// Results come in the order of the batches: of the batches that go out while
/// the `k`-th is in flight, none takes its slot. So the `k`-th result read is
/// the result of the `k`-th batch.
pub proof fn law_results_come_in_order(depth: usize, k: nat, j: nat)
    requires
        depth >= 1,
        k <= j < k + depth,
        j % (depth as nat) == k % (depth as nat),
    ensures
        j == k,
{
    lemma_same_remainder(k as int, (j - k) as int, 0, depth as int);
}

/// A benchmark run: batches that all but never hit, back to back; first some to
/// warm up, then those that are timed.
pub struct BenchRun {
    real_batch: u64,
    workgroup_count: u32,
    depth: usize,
    nonce_base: u64,
    warmup: u32,
    measure: u32,
    measuring: bool,
    sent: u32,
    hint: Ghost<u64>,
    dispatched: Ghost<nat>,
}

/// What a benchmark run does next.
pub enum BenchStep {
    /// Run this batch.
    Run(Dispatch),
    /// Wait until all batches are done, and start the clock.
    StartClock,
    /// Wait until all batches are done, and stop the clock: the run is over.
    StopClock,
}

/// The challenge of the benchmarks: 32 times `0x77`.
pub open spec fn bench_challenge_bytes() -> Seq<u8> {
    Seq::new(32, |i: int| 0x77u8)
}

/// The difficulty of the benchmarks: 31 zeros, then `0x01`.
pub open spec fn bench_difficulty_bytes() -> Seq<u8> {
    Seq::new(32, |i: int| if i == 31 { 0x01u8 } else { 0x00u8 })
}

/// The challenge and the difficulty of the benchmarks.
fn bench_inputs() -> (r: ([u8; 32], [u8; 32]))
    ensures
        r.0@ == bench_challenge_bytes(),
        r.1@ == bench_difficulty_bytes(),
{
    let challenge: [u8; 32] = [0x77; 32];
    let mut difficulty: [u8; 32] = [0; 32];
    difficulty[31] = 1;
    assert(challenge@ =~= bench_challenge_bytes());
    assert(difficulty@ =~= bench_difficulty_bytes());
    (challenge, difficulty)
}

impl BenchRun {
    /// The batch size that was asked for.
    pub closed spec fn hint(&self) -> u64 {
        self.hint@
    }

    /// The slots.
    pub closed spec fn depth(&self) -> usize {
        self.depth
    }

    /// How many batches were dispatched.
    pub closed spec fn dispatched(&self) -> nat {
        self.dispatched@
    }

    /// How many batches warm up.
    pub closed spec fn warmup(&self) -> u32 {
        self.warmup
    }

    /// How many batches are timed.
    pub closed spec fn measure(&self) -> u32 {
        self.measure
    }

    /// Whether the clock runs.
    pub closed spec fn measuring(&self) -> bool {
        self.measuring
    }

    /// How many batches were dispatched since the run or the clock started.
    pub closed spec fn sent(&self) -> u32 {
        self.sent
    }

    /// What the run is about, which no step changes.
    pub open spec fn same_run(&self, other: &BenchRun) -> bool {
        &&& self.hint() == other.hint()
        &&& self.depth() == other.depth()
        &&& self.warmup() == other.warmup()
        &&& self.measure() == other.measure()
    }

    /// The batches of the phase that the run is in.
    pub open spec fn phase_batches(&self) -> u32 {
        if self.measuring() {
            self.measure()
        } else {
            self.warmup()
        }
    }

    /// The invariant: the walk from zero has no gap, and its batches are those
    /// of the phases.
    pub closed spec fn wf(&self) -> bool {
        &&& self.depth >= 1
        &&& self.real_batch == batch_for(self.hint@)
        &&& self.workgroup_count == workgroups_for(self.hint@)
        &&& self.nonce_base == batch_base(0, self.real_batch, self.dispatched@)
        &&& self.dispatched@ == if self.measuring {
            self.warmup + self.sent
        } else {
            self.sent as int
        }
        &&& self.sent <= if self.measuring {
            self.measure
        } else {
            self.warmup
        }
    }

    /// The nonces in each batch of the run.
    pub fn batch(&self) -> (n: u64)
        requires
            self.wf(),
        ensures
            n == batch_for(self.hint()),
    {
        self.real_batch
    }

    /// What the run does next. The batches of each phase take the slots in turn,
    /// from the first, and each goes on from the nonce where the one before it
    /// ended, across the phases.
    pub fn next(&mut self) -> (step: BenchStep)
        requires
            old(self).wf(),
        ensures
            final(self).wf(),
            final(self).same_run(old(self)),
            match step {
                BenchStep::Run(d) => {
                    &&& old(self).sent() < old(self).phase_batches()
                    &&& final(self).sent() == old(self).sent() + 1
                    &&& final(self).measuring() == old(self).measuring()
                    &&& final(self).dispatched() == old(self).dispatched() + 1
                    &&& is_bench_batch(
                        d,
                        old(self).sent(),
                        old(self).dispatched(),
                        old(self).hint(),
                        old(self).depth(),
                    )
                },
                BenchStep::StartClock => {
                    &&& old(self).sent() == old(self).warmup()
                    &&& !old(self).measuring()
                    &&& final(self).measuring()
                    &&& final(self).sent() == 0
                    &&& final(self).dispatched() == old(self).dispatched()
                },
                BenchStep::StopClock => {
                    &&& old(self).sent() == old(self).measure()
                    &&& old(self).measuring()
                    &&& old(self).dispatched() == old(self).warmup() + old(self).measure()
                    &&& *final(self) == *old(self)
                },
            },
    {
        let batches: u32 = if self.measuring {
            self.measure
        } else {
            self.warmup
        };
        if self.sent < batches {
            let nonce_base: u64 = self.nonce_base;
            let (challenge, difficulty): ([u8; 32], [u8; 32]) = bench_inputs();
            let uniforms: Uniforms = make_uniforms(&challenge, &difficulty, nonce_base);
            let slot: usize = self.sent as usize % self.depth;
            self.nonce_base = nonce_base.wrapping_add(self.real_batch);
            self.sent = self.sent + 1;
            proof {
                let (b, k) = (self.real_batch as int, self.dispatched@ as int);
                assert((k + 1) * b == k * b + b) by (nonlinear_arith);
                lemma_add_mod_noop(k * b, b, nonce_space());
                lemma_small_mod(b as nat, nonce_space() as nat);
                self.dispatched@ = self.dispatched@ + 1;
            }
            BenchStep::Run(
                Dispatch { slot, nonce_base, uniforms, workgroup_count: self.workgroup_count },
            )
        } else if !self.measuring {
            self.measuring = true;
            self.sent = 0;
            BenchStep::StartClock
        } else {
            BenchStep::StopClock
        }
    }
}

/// Whether `d` is the batch of a benchmark run that is the `i`-th of its phase
/// and the `k`-th of the run.
pub open spec fn is_bench_batch(d: Dispatch, i: u32, k: nat, hint: u64, depth: usize) -> bool {
    &&& d.slot == i as nat % (depth as nat)
    &&& d.nonce_base == batch_base(0, batch_for(hint), k)
    &&& uniforms_hold(d.uniforms, bench_challenge_bytes(), bench_difficulty_bytes(), d.nonce_base)
    &&& d.workgroup_count == workgroups_for(hint)
}

impl GpuMiner {
    /// Begins a benchmark run: batches of about `batch_size` nonces from nonce
    /// zero, `pipeline_depth` slots.
    pub fn bench_pipelined(
        batch_size: u64,
        pipeline_depth: u32,
        warmup_batches: u32,
        measure_batches: u32,
    ) -> (run: BenchRun)
        ensures
            run.wf(),
            run.hint() == batch_size,
            run.depth() == slots_for(pipeline_depth),
            run.warmup() == warmup_batches,
            run.measure() == measure_batches,
            run.dispatched() == 0,
            run.sent() == 0,
            !run.measuring(),
    {
        let (real_batch, workgroup_count): (u64, u32) = GpuMiner::normalize_batch(batch_size);
        let depth: usize = if pipeline_depth == 0 {
            1
        } else {
            pipeline_depth as usize
        };
        assert(batch_base(0, real_batch, 0) == 0) by {
            assert(0 * real_batch == 0);
        }
        BenchRun {
            real_batch,
            workgroup_count,
            depth,
            nonce_base: 0,
            warmup: warmup_batches,
            measure: measure_batches,
            measuring: false,
            sent: 0,
            hint: Ghost(batch_size),
            dispatched: Ghost(0),
        }
    }

    /// The one batch of a single benchmark.
    pub fn bench_once(batch_size: u64) -> (d: Dispatch)
        ensures
            is_bench_batch(d, 0, 0, batch_size, 1),
    {
        let (_, workgroup_count): (u64, u32) = GpuMiner::normalize_batch(batch_size);
        let (challenge, difficulty): ([u8; 32], [u8; 32]) = bench_inputs();
        Dispatch {
            slot: 0,
            nonce_base: 0,
            uniforms: make_uniforms(&challenge, &difficulty, 0),
            workgroup_count,
        }
    }
}

/// The one batch of the self-test: as many nonces as it has, from nonce zero.
pub fn selftest_batch() -> (d: Dispatch)
    ensures
        d.slot == 0,
        d.nonce_base == 0,
        uniforms_hold(d.uniforms, selftest_challenge_bytes(), selftest_difficulty_bytes(), 0),
        d.workgroup_count == workgroups_for(SELFTEST_BATCH),
        d.workgroup_count * NONCES_PER_WORKGROUP == SELFTEST_BATCH,
{
    let (_, workgroup_count): (u64, u32) = GpuMiner::normalize_batch(SELFTEST_BATCH);
    Dispatch {
        slot: 0,
        nonce_base: 0,
        uniforms: make_uniforms(&selftest_challenge(), &selftest_difficulty(), 0),
        workgroup_count,
    }
}

/// A benchmark is not cut short by a hit: under its difficulty only a hash of
/// zero wins.
pub proof fn law_bench_only_zero_wins(hash: Seq<u8>)
    requires
        hash.len() == 32,
    ensures
        be_nat(hash) < be_nat(bench_difficulty_bytes()) <==> be_nat(hash) == 0,
{
    let head = bench_difficulty_bytes().drop_last();
    lemma_zeros_are_zero(head);
}

/// Zero bytes stand for zero.
proof fn lemma_zeros_are_zero(s: Seq<u8>)
    requires
        forall|i: int| 0 <= i < s.len() ==> s[i] == 0,
    ensures
        be_nat(s) == 0,
    decreases s.len(),
{
    if s.len() > 0 {
        lemma_zeros_are_zero(s.drop_last());
    }
}

/// The walk: the first batch begins at the start, and each begins where the one
/// before it ended, the first nonce coming after the last.
pub proof fn law_batches_follow_each_other(start: u64, batch: u64, k: nat)
    ensures
        batch_base(start, batch, 0) == start,
        batch_base(start, batch, k + 1) == (batch_base(start, batch, k) + batch)
            % 0x1_0000_0000_0000_0000,
{
    assert(0 * batch == 0);
    lemma_small_mod(start as nat, nonce_space() as nat);
    let (b, n) = (batch as int, k as int);
    assert((n + 1) * b == n * b + b) by (nonlinear_arith);
    lemma_add_mod_noop(start + n * b, b, nonce_space());
    lemma_small_mod(batch as nat, nonce_space() as nat);
}

/// What a batch of a search is handed: it begins `k` whole batches after the
/// start, its workgroups try as many nonces as a batch has, it runs in the slot
/// that was free the longest, and the device reads the challenge, the difficulty
/// and the first nonce of this search.
pub proof fn law_batch_of_a_search(
    d: Dispatch,
    k: nat,
    start: u64,
    hint: u64,
    depth: usize,
    challenge: Seq<u8>,
    difficulty: Seq<u8>,
)
    requires
        depth >= 1,
        challenge.len() == 32,
        difficulty.len() == 32,
        is_batch(d, k, start, hint, depth, challenge, difficulty),
    ensures
        d.nonce_base == (start + k * batch_for(hint)) % 0x1_0000_0000_0000_0000,
        d.workgroup_count * 1024 == batch_for(hint),
        d.slot < depth,
        d.slot == k % (depth as nat),
        forall|i: int|
            0 <= i < 8 ==> #[trigger] d.uniforms.words()[i] == challenge[4 * i] + 0x100
                * challenge[4 * i + 1] + 0x1_0000 * challenge[4 * i + 2] + 0x100_0000
                * challenge[4 * i + 3],
        forall|i: int|
            0 <= i < 8 ==> #[trigger] d.uniforms.words()[8 + i] == 0x100_0000 * difficulty[4 * i]
                + 0x1_0000 * difficulty[4 * i + 1] + 0x100 * difficulty[4 * i + 2]
                + difficulty[4 * i + 3],
        d.uniforms.words()[16] + 0x1_0000_0000 * d.uniforms.words()[17] == d.nonce_base,
{
    law_dispatch_reaches_the_device(d.uniforms, challenge, difficulty, d.nonce_base);
    law_batch_covers_hint(hint);
}

/// What a batch of a benchmark run is handed: it begins `k` whole batches after
/// nonce zero, and the device reads the challenge of the benchmarks, 32 times
/// `0x77`, their difficulty, one, and the first nonce.
pub proof fn law_batch_of_a_benchmark(d: Dispatch, i: u32, k: nat, hint: u64, depth: usize)
    requires
        depth >= 1,
        is_bench_batch(d, i, k, hint, depth),
    ensures
        d.nonce_base == (k * batch_for(hint)) % 0x1_0000_0000_0000_0000,
        d.workgroup_count * 1024 == batch_for(hint),
        d.slot == i as nat % (depth as nat),
        forall|j: int| 0 <= j < 8 ==> #[trigger] d.uniforms.words()[j] == 0x7777_7777,
        forall|j: int| 0 <= j < 7 ==> #[trigger] d.uniforms.words()[8 + j] == 0,
        d.uniforms.words()[15] == 1,
        d.uniforms.words()[16] + 0x1_0000_0000 * d.uniforms.words()[17] == d.nonce_base,
{
    let (c, t) = (bench_challenge_bytes(), bench_difficulty_bytes());
    law_dispatch_reaches_the_device(d.uniforms, c, t, d.nonce_base);
    law_batch_covers_hint(hint);
    let last: int = 7;
    assert(d.uniforms.words()[8 + last] == 1);
}

/// A pipeline has as many slots as asked for, and one where none was. Nonces
/// count as tried by whole batches, up to the most that is counted.
pub proof fn law_slots_and_counts(pipeline_depth: u32, batch: u64, k: nat)
    ensures
        pipeline_depth > 0 ==> slots_for(pipeline_depth) == pipeline_depth,
        slots_for(0) == 1,
        k * batch <= u64::MAX ==> tried(batch, k) == k * batch,
        k * batch > u64::MAX ==> tried(batch, k) == u64::MAX,
{
}

} // verus!
