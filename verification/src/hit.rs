//! Hits: the proof of work that a nonce stands for, and its check on the CPU.

use crate::bytes::{less_than, same_bytes, word_of_u64};
use crate::gpu::ResultBuffer;
use crate::text::hex_encode;
use tiny_keccak::{Hasher, Keccak};
use vstd::prelude::*;
use vstd::string::*;

verus! {

use crate::bytes::{be_bytes, be_nat, law_first_difference_decides, lemma_be_nat_injective, lemma_be_read_of_write, lemma_pow256_8};
use crate::gpu::{law_report_is_fixed, reports};
use crate::text::hex_of;

/// A nonce that a device reported, with the hash it reported for it.
#[derive(Clone, Copy)]
pub struct MineHit {
    pub nonce: u64,
    pub hash_be: [u8; 32],
}

/// What Keccak-256 makes of a byte string.
pub uninterp spec fn keccak256(data: Seq<u8>) -> Seq<u8>;

/// `tiny_keccak`'s `Keccak::v256`, fed with `data` at once and squeezed for 32
/// bytes.
#[verifier::external_body]
fn keccak(data: &[u8]) -> (out: [u8; 32])
    ensures
        out@ == keccak256(data@),
{
    let mut k = Keccak::v256();
    k.update(data);
    let mut out = [0u8; 32];
    k.finalize(&mut out);
    out
}

/// What the contract hashes for a nonce: the challenge, then the nonce as a
/// 32-byte big-endian word.
pub open spec fn preimage(challenge: Seq<u8>, nonce: u64) -> Seq<u8> {
    challenge + be_bytes(nonce as nat, 32)
}

/// The proof-of-work hash of a nonce under a challenge.
pub open spec fn work_hash(challenge: Seq<u8>, nonce: u64) -> Seq<u8> {
    keccak256(preimage(challenge, nonce))
}

/// What is hashed for a nonce: the challenge, byte for byte, and then the nonce
/// as a 32-byte number.
pub proof fn law_hashed_bytes_are_challenge_and_nonce(challenge: Seq<u8>, nonce: u64)
    requires
        challenge.len() == 32,
    ensures
        preimage(challenge, nonce).len() == 64,
        forall|i: int| 0 <= i < 32 ==> #[trigger] preimage(challenge, nonce)[i] == challenge[i],
        preimage(challenge, nonce).take(32) == challenge,
        be_nat(preimage(challenge, nonce).skip(32)) == nonce,
{
    lemma_pow256_8();
    lemma_be_read_of_write(nonce as nat, 32);
    assert(preimage(challenge, nonce).take(32) =~= challenge);
    assert(preimage(challenge, nonce).skip(32) =~= be_bytes(nonce as nat, 32));
}

/// The proof-of-work hash is Keccak-256 of the only 64 bytes that begin with the
/// challenge and end in the nonce, and a nonce wins where that hash, as a number,
/// is below the difficulty.
pub proof fn law_work_hash_is_keccak(challenge: Seq<u8>, nonce: u64, p: Seq<u8>)
    requires
        p.len() == 64,
        p.take(32) == challenge,
        be_nat(p.skip(32)) == nonce,
    ensures
        work_hash(challenge, nonce) == keccak256(p),
        forall|difficulty: Seq<u8>| #[trigger]
            wins(challenge, nonce, difficulty) <==> be_nat(keccak256(p)) < be_nat(difficulty),
{
    let q = preimage(challenge, nonce);
    law_hashed_bytes_are_challenge_and_nonce(challenge, nonce);
    lemma_be_nat_injective(p.skip(32), q.skip(32));
    assert(p =~= p.take(32) + p.skip(32));
    assert(q =~= q.take(32) + q.skip(32));
}

/// Every nonce has its own bytes to be hashed: they fix the challenge and the
/// nonce.
pub proof fn law_preimage_fixes_the_nonce(
    challenge1: Seq<u8>,
    nonce1: u64,
    challenge2: Seq<u8>,
    nonce2: u64,
)
    requires
        challenge1.len() == 32,
        challenge2.len() == 32,
        preimage(challenge1, nonce1) == preimage(challenge2, nonce2),
    ensures
        challenge1 == challenge2,
        nonce1 == nonce2,
{
    let (p, q) = (preimage(challenge1, nonce1), preimage(challenge2, nonce2));
    lemma_pow256_8();
    lemma_be_read_of_write(nonce1 as nat, 32);
    lemma_be_read_of_write(nonce2 as nat, 32);
    assert(p.take(32) =~= challenge1);
    assert(q.take(32) =~= challenge2);
    assert(p.skip(32) =~= be_bytes(nonce1 as nat, 32));
    assert(q.skip(32) =~= be_bytes(nonce2 as nat, 32));
}

/// Whether a nonce wins under a challenge: its hash is below the difficulty.
pub open spec fn wins(challenge: Seq<u8>, nonce: u64, difficulty: Seq<u8>) -> bool {
    be_nat(work_hash(challenge, nonce)) < be_nat(difficulty)
}

/// Why a reported hit is refused. The texts are hexadecimal.
pub enum HitError {
    /// The CPU's hash is not the one reported.
    HashMismatch { cpu: String, gpu: String },
    /// The hash is right and not below the difficulty.
    AboveTarget { hash: String, difficulty: String },
}

impl HitError {
    /// The error in words.
    pub open spec fn text(self) -> Seq<char> {
        match self {
            HitError::HashMismatch { cpu, gpu } => "CPU hash "@ + cpu@ + " ≠ GPU hash "@ + gpu@,
            HitError::AboveTarget { hash, difficulty } => "hash "@ + hash@ + " 不满足难度 "@
                + difficulty@,
        }
    }

    /// The error in words.
    pub fn message(&self) -> (t: String)
        ensures
            t@ == self.text(),
    {
        match self {
            HitError::HashMismatch { cpu, gpu } => {
                let mut t: String = "CPU hash ".to_owned();
                t.append(cpu.as_str());
                t.append(" ≠ GPU hash ");
                t.append(gpu.as_str());
                t
            },
            HitError::AboveTarget { hash, difficulty } => {
                let mut t: String = "hash ".to_owned();
                t.append(hash.as_str());
                t.append(" 不满足难度 ");
                t.append(difficulty.as_str());
                t
            },
        }
    }
}

/// What is answered to a hit that was reported with the hash `reported`, where
/// the CPU computed `computed`.
pub open spec fn hit_answer(
    computed: Seq<u8>,
    reported: Seq<u8>,
    difficulty: Seq<u8>,
    answer: Result<(), HitError>,
) -> bool {
    if computed != reported {
        answer matches Err(HitError::HashMismatch { cpu, gpu }) && cpu@ == hex_of(computed) && gpu@
            == hex_of(reported)
    } else if be_nat(computed) >= be_nat(difficulty) {
        answer matches Err(HitError::AboveTarget { hash, difficulty: d }) && hash@ == hex_of(
            computed,
        ) && d@ == hex_of(difficulty)
    } else {
        answer is Ok
    }
}

/// The bytes that are hashed for a nonce.
pub fn packed_input(challenge: &[u8; 32], nonce: u64) -> (input: [u8; 64])
    ensures
        input@ == preimage(challenge@, nonce),
        input@.take(32) == challenge@,
        be_nat(input@.skip(32)) == nonce,
{
    let word: [u8; 32] = word_of_u64(nonce);
    let mut input: [u8; 64] = [0; 64];
    let mut i: usize = 0;
    while i < 32
        invariant
            i <= 32,
            forall|j: int| 0 <= j < i ==> input@[j] == challenge@[j] && input@[32 + j] == word@[j],
        decreases 32 - i,
    {
        input[i] = challenge[i];
        input[32 + i] = word[i];
        i = i + 1;
    }
    assert(input@ =~= challenge@ + word@) by {
        assert forall|j: int| 0 <= j < 64 implies input@[j] == (challenge@ + word@)[j] by {
            if j >= 32 {
                assert(input@[32 + (j - 32)] == word@[j - 32]);
            }
        }
    }
    assert(input@.take(32) =~= challenge@);
    assert(input@.skip(32) =~= word@);
    input
}

/// The proof-of-work hash of a nonce, computed on the CPU.
pub fn cpu_hash(challenge: &[u8; 32], nonce: u64) -> (out: [u8; 32])
    ensures
        out@ == work_hash(challenge@, nonce),
        forall|p: Seq<u8>|
            p.len() == 64 && p.take(32) == challenge@ && be_nat(p.skip(32)) == nonce ==> out@
                == #[trigger] keccak256(p),
{
    let input: [u8; 64] = packed_input(challenge, nonce);
    proof {
        assert forall|p: Seq<u8>|
            p.len() == 64 && p.take(32) == challenge@ && be_nat(p.skip(32))
                == nonce implies work_hash(challenge@, nonce) == #[trigger] keccak256(p) by {
            law_work_hash_is_keccak(challenge@, nonce, p);
        }
    }
    keccak(&input)
}

/// Holds a reported hash against the computed one and the difficulty.
pub fn check_hash(computed: &[u8; 32], reported: &[u8; 32], difficulty: &[u8; 32]) -> (answer:
    Result<(), HitError>)
    ensures
        hit_answer(computed@, reported@, difficulty@, answer),
{
    if !same_bytes(computed, reported) {
        return Err(
            HitError::HashMismatch { cpu: hex_encode(computed), gpu: hex_encode(reported) },
        );
    }
    if !less_than(computed, difficulty) {
        return Err(
            HitError::AboveTarget {
                hash: hex_encode(computed),
                difficulty: hex_encode(difficulty),
            },
        );
    }
    Ok(())
}

/// Checks a reported hit on the CPU: it is accepted exactly where its hash is
/// the proof-of-work hash of its nonce and below the difficulty.
pub fn verify_hit(
    challenge: &[u8; 32],
    nonce: u64,
    expected_hash_be: &[u8; 32],
    difficulty_be: &[u8; 32],
) -> (answer: Result<(), HitError>)
    ensures
        hit_answer(work_hash(challenge@, nonce), expected_hash_be@, difficulty_be@, answer),
        answer is Ok <==> expected_hash_be@ == work_hash(challenge@, nonce) && wins(
            challenge@,
            nonce,
            difficulty_be@,
        ),
        forall|p: Seq<u8>|
            p.len() == 64 && p.take(32) == challenge@ && be_nat(p.skip(32)) == nonce ==> (answer is Ok
                <==> expected_hash_be@ == #[trigger] keccak256(p) && be_nat(expected_hash_be@)
                < be_nat(difficulty_be@)),
{
    let computed: [u8; 32] = cpu_hash(challenge, nonce);
    check_hash(&computed, expected_hash_be, difficulty_be)
}

/// Why a self-test fails.
#[derive(Clone, Copy)]
pub enum SelfTestError {
    /// The batch ended without a hit.
    NoHit,
    /// The device and the CPU disagree.
    HashMismatch,
    /// The hash is not below the difficulty.
    AboveTarget,
}

impl SelfTestError {
    /// The error in words.
    pub open spec fn text(self) -> Seq<char> {
        match self {
            SelfTestError::NoHit => "[自检] batch 跑完未命中, shader 可能有问题"@,
            SelfTestError::HashMismatch => "[自检] ❌ GPU/CPU 不一致, shader 有 bug"@,
            SelfTestError::AboveTarget => "[自检] ❌ hash 不满足难度"@,
        }
    }

    /// The error in words.
    pub fn message(&self) -> (t: String)
        ensures
            t@ == self.text(),
    {
        match self {
            SelfTestError::NoHit => "[自检] batch 跑完未命中, shader 可能有问题".to_owned(),
            SelfTestError::HashMismatch => "[自检] ❌ GPU/CPU 不一致, shader 有 bug".to_owned(),
            SelfTestError::AboveTarget => "[自检] ❌ hash 不满足难度".to_owned(),
        }
    }
}

/// The challenge of the self-test: 32 times `0x11`.
pub fn selftest_challenge() -> (challenge: [u8; 32])
    ensures
        challenge@ == selftest_challenge_bytes(),
{
    let challenge: [u8; 32] = [0x11; 32];
    assert(challenge@ =~= selftest_challenge_bytes());
    challenge
}

/// The challenge of the self-test.
pub open spec fn selftest_challenge_bytes() -> Seq<u8> {
    Seq::new(32, |i: int| 0x11u8)
}

/// The difficulty of the self-test: `0x01`, then 31 times `0xff`.
pub fn selftest_difficulty() -> (difficulty: [u8; 32])
    ensures
        difficulty@ == selftest_difficulty_bytes(),
{
    let mut difficulty: [u8; 32] = [0xff; 32];
    difficulty[0] = 0x01;
    assert(difficulty@ =~= selftest_difficulty_bytes());
    difficulty
}

/// The difficulty of the self-test.
pub open spec fn selftest_difficulty_bytes() -> Seq<u8> {
    Seq::new(32, |i: int| if i == 0 { 0x01u8 } else { 0xffu8 })
}

/// The number of nonces in the batch of the self-test.
pub const SELFTEST_BATCH: u64 = 4_194_304;

/// What is answered to a self-test in which the device reported `reported`
/// where the CPU computed `computed`.
pub open spec fn selftest_answer(computed: Seq<u8>, reported: Seq<u8>) -> Result<
    (),
    SelfTestError,
> {
    if computed != reported {
        Err(SelfTestError::HashMismatch)
    } else if be_nat(computed) >= be_nat(selftest_difficulty_bytes()) {
        Err(SelfTestError::AboveTarget)
    } else {
        Ok(())
    }
}

/// Holds the hash that the self-test got from the device against the CPU's.
pub fn check_selftest(computed: &[u8; 32], reported: &[u8; 32]) -> (answer: Result<
    (),
    SelfTestError,
>)
    ensures
        answer == selftest_answer(computed@, reported@),
{
    if !same_bytes(computed, reported) {
        return Err(SelfTestError::HashMismatch);
    }
    if !less_than(computed, &selftest_difficulty()) {
        return Err(SelfTestError::AboveTarget);
    }
    Ok(())
}

/// Judges a self-test by what the device found.
pub fn run_selftest(found: Option<MineHit>) -> (answer: Result<(), SelfTestError>)
    ensures
        answer == match found {
            None => Err::<(), SelfTestError>(SelfTestError::NoHit),
            Some(hit) => selftest_answer(
                work_hash(selftest_challenge_bytes(), hit.nonce),
                hit.hash_be@,
            ),
        },
{
    match found {
        None => Err(SelfTestError::NoHit),
        Some(hit) => {
            let computed: [u8; 32] = cpu_hash(&selftest_challenge(), hit.nonce);
            check_selftest(&computed, &hit.hash_be)
        },
    }
}

/// Ends a self-test with the result of its one batch: without a hit it fails,
/// and a hit is judged.
pub fn selftest_step(first: &ResultBuffer) -> (answer: Result<(), SelfTestError>)
    ensures
        first.found == 0 ==> answer == Err::<(), SelfTestError>(SelfTestError::NoHit),
        first.found > 0 ==> exists|hit: MineHit| #[trigger] reports(*first, hit),
        first.found > 0 ==> forall|hit: MineHit| #[trigger]
            reports(*first, hit) ==> answer == selftest_answer(
                work_hash(selftest_challenge_bytes(), hit.nonce),
                hit.hash_be@,
            ),
{
    let found: Option<MineHit> = first.hit();
    let answer = run_selftest(found);
    proof {
        if first.found > 0 {
            assert(reports(*first, found->0));
            assert forall|hit: MineHit| #[trigger] reports(*first, hit) implies answer
                == selftest_answer(
                work_hash(selftest_challenge_bytes(), hit.nonce),
                hit.hash_be@,
            ) by {
                law_report_is_fixed(*first, hit, found->0);
            }
        }
    }
    answer
}

/// The self-test passes exactly where `verify_hit` would accept the hit under
/// the self-test's challenge and difficulty.
pub proof fn law_selftest_agrees_with_verify_hit(hit: MineHit, verdict: Result<(), HitError>)
    requires
        hit_answer(
            work_hash(selftest_challenge_bytes(), hit.nonce),
            hit.hash_be@,
            selftest_difficulty_bytes(),
            verdict,
        ),
    ensures
        verdict is Ok <==> selftest_answer(
            work_hash(selftest_challenge_bytes(), hit.nonce),
            hit.hash_be@,
        ) is Ok,
{
}

/// A hit is accepted exactly where its hash is Keccak-256 of the challenge and
/// the nonce and is, as a number, below the difficulty. A wrong hash is refused
/// as that, whatever the difficulty.
pub proof fn law_only_right_hits_are_accepted(
    challenge: Seq<u8>,
    nonce: u64,
    p: Seq<u8>,
    reported: Seq<u8>,
    difficulty: Seq<u8>,
    answer: Result<(), HitError>,
)
    requires
        p.len() == 64,
        p.take(32) == challenge,
        be_nat(p.skip(32)) == nonce,
        hit_answer(work_hash(challenge, nonce), reported, difficulty, answer),
    ensures
        answer is Ok <==> reported == keccak256(p) && be_nat(reported) < be_nat(difficulty),
        answer matches Err(e) ==> (e is HashMismatch <==> reported != keccak256(p)),
{
    law_work_hash_is_keccak(challenge, nonce, p);
}

/// A self-test passes exactly where the hash is Keccak-256 of 32 bytes of `0x11`
/// and the nonce, and its first byte is zero, or one with a byte below `0xff`
/// behind it. A wrong hash fails it as that.
pub proof fn law_only_right_selftests_pass(nonce: u64, p: Seq<u8>, reported: Seq<u8>)
    requires
        p.len() == 64,
        forall|i: int| 0 <= i < 32 ==> p[i] == 0x11,
        be_nat(p.skip(32)) == nonce,
        reported.len() == 32,
    ensures
        selftest_answer(work_hash(selftest_challenge_bytes(), nonce), reported) is Ok <==> reported
            == keccak256(p) && (reported[0] == 0 || reported[0] == 1 && exists|i: int|
            1 <= i < 32 && #[trigger] reported[i] < 0xff),
        selftest_answer(work_hash(selftest_challenge_bytes(), nonce), reported) matches Err(e) ==> e
            == if reported != keccak256(p) {
            SelfTestError::HashMismatch
        } else {
            SelfTestError::AboveTarget
        },
{
    assert(p.take(32) =~= selftest_challenge_bytes());
    law_work_hash_is_keccak(selftest_challenge_bytes(), nonce, p);
    let d = selftest_difficulty_bytes();
    if reported[0] != 1 {
        assert(reported.take(0) =~= d.take(0));
        law_first_difference_decides(reported, d, 0);
    } else if exists|i: int| 1 <= i < 32 && #[trigger] reported[i] < 0xff {
        let i = choose|i: int| 1 <= i < 32 && #[trigger] reported[i] < 0xff;
        lemma_below_selftest(reported, i);
    } else {
        assert forall|i: int| 0 <= i < 32 implies reported[i] == d[i] by {}
        assert(reported =~= d);
    }
}

/// A byte below `0xff` behind the first makes a number below the self-test's
/// difficulty.
proof fn lemma_below_selftest(s: Seq<u8>, i: int)
    requires
        s.len() == 32,
        s[0] == 1,
        1 <= i < 32,
        s[i] < 0xff,
    ensures
        be_nat(s) < be_nat(selftest_difficulty_bytes()),
    decreases i,
{
    let d = selftest_difficulty_bytes();
    if exists|j: int| 1 <= j < i && #[trigger] s[j] < 0xff {
        let j = choose|j: int| 1 <= j < i && #[trigger] s[j] < 0xff;
        lemma_below_selftest(s, j);
    } else {
        assert(s.take(i) =~= d.take(i));
        law_first_difference_decides(s, d, i);
    }
}

} // verus!
