//! Where each card begins: seeds and shards of the nonces.

use vstd::prelude::*;

verus! {

use crate::search::nonce_space;
use vstd::arithmetic::div_mod::{lemma_mod_multiples_vanish, lemma_mul_mod_noop_left, lemma_small_mod};
use vstd::arithmetic::mul::lemma_mul_is_associative;

/// What a process number is multiplied with.
pub const SEED_PID: u64 = 0x9E37_79B9_7F4A_7C15;

/// The first multiplier of the mixer.
pub const MIX_1: u64 = 0xff51_afd7_ed55_8ccd;

/// The second multiplier of the mixer.
pub const MIX_2: u64 = 0xc4ce_b9fe_1a85_ec53;

/// A number with its upper bits folded into its lower ones.
pub open spec fn folded(x: u64) -> u64 {
    x ^ (x >> 33)
}

/// A product, as far as 64 bits hold it.
pub open spec fn times(x: u64, c: u64) -> u64 {
    ((x * c) % nonce_space()) as u64
}

/// The 64-bit mixer: each bit of the result depends on every bit of `x`.
pub open spec fn mixed(x: u64) -> u64 {
    folded(times(folded(times(folded(x), MIX_1)), MIX_2))
}

/// The lower 64 bits of a number.
pub open spec fn low64(x: u128) -> u64 {
    (x % 0x1_0000_0000_0000_0000) as u64
}

/// The seed of a process at a time: the two are combined, then mixed.
pub open spec fn seed_of(nanos: u128, pid: u32) -> u64 {
    mixed(low64(nanos ^ (pid as u128 * SEED_PID as u128) as u128))
}

/// The seed of a process at a time, in nanoseconds.
pub fn rand_seed(nanos: u128, pid: u32) -> (seed: u64)
    ensures
        seed == seed_of(nanos, pid),
{
    assert(pid as u128 * SEED_PID as u128 <= u128::MAX) by (nonlinear_arith)
        requires
            pid <= u32::MAX,
            SEED_PID <= u64::MAX,
    ;
    let combined: u128 = nanos ^ (pid as u128 * SEED_PID as u128);
    let mut s: u64 = (combined % 0x1_0000_0000_0000_0000) as u64;
    s = s ^ (s >> 33);
    s = s.wrapping_mul(MIX_1);
    s = s ^ (s >> 33);
    s = s.wrapping_mul(MIX_2);
    s ^ (s >> 33)
}

/// Folding loses nothing.
proof fn lemma_folding_is_fair(x: u64, y: u64)
    requires
        folded(x) == folded(y),
    ensures
        x == y,
{
    assert(x ^ (x >> 33) == y ^ (y >> 33) ==> x == y) by (bit_vector);
}

/// Multiplying with a number that has an inverse loses nothing.
proof fn lemma_times_is_fair(x: u64, y: u64, c: u64, inverse: u64, q: int)
    requires
        times(x, c) == times(y, c),
        c * inverse == q * nonce_space() + 1,
    ensures
        x == y,
{
    lemma_times_back(x, c, inverse, q);
    lemma_times_back(y, c, inverse, q);
}

/// Multiplying with a number and then with its inverse gives the number back.
proof fn lemma_times_back(x: u64, c: u64, inverse: u64, q: int)
    requires
        c * inverse == q * nonce_space() + 1,
    ensures
        (times(x, c) * inverse) % nonce_space() == x,
{
    let m = nonce_space();
    lemma_mul_mod_noop_left((x * c) as int, inverse as int, m);
    lemma_mul_is_associative(x as int, c as int, inverse as int);
    assert(x * (q * m + 1) == (x * q) * m + x) by (nonlinear_arith);
    assert((x * q) * m == m * (x * q)) by (nonlinear_arith);
    lemma_mod_multiples_vanish(x * q, x as int, m);
    lemma_small_mod(x as nat, m as nat);
}

/// Mixing loses nothing.
proof fn lemma_mixing_is_fair(x: u64, y: u64)
    requires
        mixed(x) == mixed(y),
    ensures
        x == y,
{
    let (a, b) = (times(folded(x), MIX_1), times(folded(y), MIX_1));
    lemma_folding_is_fair(times(folded(a), MIX_2), times(folded(b), MIX_2));
    lemma_times_is_fair(folded(a), folded(b), MIX_2, 0x9cb4b2f8129337db, 0x7878e44812b2d581);
    lemma_folding_is_fair(a, b);
    lemma_times_is_fair(folded(x), folded(y), MIX_1, 0x4f74430c22a54005, 0x4f3e2925cb7c5b4e);
    lemma_folding_is_fair(x, y);
}

/// Processes that start at the same time get different seeds.
pub proof fn law_processes_get_different_seeds(nanos: u128, pid1: u32, pid2: u32)
    requires
        seed_of(nanos, pid1) == seed_of(nanos, pid2),
    ensures
        pid1 == pid2,
{
    let m = nonce_space();
    let a = (pid1 as u128 * SEED_PID as u128) as u128;
    let b = (pid2 as u128 * SEED_PID as u128) as u128;
    assert(pid1 as u128 * SEED_PID as u128 <= u128::MAX && pid2 as u128 * SEED_PID as u128
        <= u128::MAX) by (nonlinear_arith)
        requires
            pid1 <= u32::MAX,
            pid2 <= u32::MAX,
            SEED_PID <= u64::MAX,
    ;
    lemma_mixing_is_fair(low64(nanos ^ a), low64(nanos ^ b));
    assert((nanos ^ a) % 0x1_0000_0000_0000_0000 == (nanos ^ b) % 0x1_0000_0000_0000_0000 ==> a
        % 0x1_0000_0000_0000_0000 == b % 0x1_0000_0000_0000_0000) by (bit_vector);
    lemma_times_is_fair(pid1 as u64, pid2 as u64, SEED_PID, 0xf1de83e19937733d, 0x957bbf35006ed677);
}

/// `2^60`: the nonces of one shard.
pub open spec fn shard_size() -> int {
    0x1000_0000_0000_0000
}

/// Where a card begins: in the shard of its position, at the seed.
pub open spec fn card_start(card: usize, seed: u64) -> u64 {
    ((card % 16) * shard_size() + seed % 0x1000_0000_0000_0000) as u64
}

/// Where a card begins.
pub fn start_nonce(card: usize, seed: u64) -> (n: u64)
    ensures
        n == card_start(card, seed),
        n / 0x1000_0000_0000_0000 == card % 16,
        n % 0x1000_0000_0000_0000 == seed % 0x1000_0000_0000_0000,
{
    let high: u64 = (card as u64) << 60;
    let low: u64 = seed & 0x0fff_ffff_ffff_ffff;
    proof {
        let c = card as u64;
        assert(c << 60 == (c % 16) * 0x1000_0000_0000_0000) by (bit_vector);
        assert(seed & 0x0fff_ffff_ffff_ffff == seed % 0x1000_0000_0000_0000) by (bit_vector);
        assert((c << 60) | (seed & 0x0fff_ffff_ffff_ffff) == (c << 60) + (seed
            & 0x0fff_ffff_ffff_ffff)) by (bit_vector);
    }
    high | low
}

/// Up to sixteen cards do not get in each other's way: as long as a card has
/// not left its shard, what it tries no other card in its own shard tries.
pub proof fn law_cards_share_no_nonce(
    card1: usize,
    seed1: u64,
    i: nat,
    card2: usize,
    seed2: u64,
    j: nat,
)
    requires
        card1 < 16,
        card2 < 16,
        card1 != card2,
        seed1 % 0x1000_0000_0000_0000 + i < shard_size(),
        seed2 % 0x1000_0000_0000_0000 + j < shard_size(),
    ensures
        (card_start(card1, seed1) + i) % nonce_space() != (card_start(card2, seed2) + j)
            % nonce_space(),
{
    lemma_small_mod((card_start(card1, seed1) + i) as nat, nonce_space() as nat);
    lemma_small_mod((card_start(card2, seed2) + j) as nat, nonce_space() as nat);
}

/// A card begins in the shard of its position, where the seed says: the upper
/// four bits are the position's, all others the seed's.
pub proof fn law_cards_begin_in_their_shards(card: usize, seed: u64)
    ensures
        card_start(card, seed) / 0x1000_0000_0000_0000 == card % 16,
        card_start(card, seed) % 0x1000_0000_0000_0000 == seed % 0x1000_0000_0000_0000,
{
}

/// A seed can be taken apart again: undoing the mixer, step by step, gives back
/// the time and the process number that went in, as far as 64 bits hold them.
pub proof fn law_seed_can_be_unmixed(nanos: u128, pid: u32, a: u64, b: u64, c: u64, d: u64)
    requires
        a == seed_of(nanos, pid) ^ (seed_of(nanos, pid) >> 33),
        b == (a * 0x9cb4b2f8129337db) % 0x1_0000_0000_0000_0000,
        c == b ^ (b >> 33),
        d == (c * 0x4f74430c22a54005) % 0x1_0000_0000_0000_0000,
    ensures
        d ^ (d >> 33) == ((nanos % 0x1_0000_0000_0000_0000) as u64) ^ (((pid
            * 0x9E37_79B9_7F4A_7C15) % 0x1_0000_0000_0000_0000) as u64),
{
    let k = (pid as u128 * SEED_PID as u128) as u128;
    assert(pid as u128 * SEED_PID as u128 <= u128::MAX) by (nonlinear_arith)
        requires
            pid <= u32::MAX,
            SEED_PID <= u64::MAX,
    ;
    let x = low64(nanos ^ k);
    let y = times(folded(x), MIX_1);
    let z = times(folded(y), MIX_2);
    lemma_folding_twice(z);
    lemma_times_back(folded(y), MIX_2, 0x9cb4b2f8129337db, 0x7878e44812b2d581);
    lemma_folding_twice(y);
    lemma_times_back(folded(x), MIX_1, 0x4f74430c22a54005, 0x4f3e2925cb7c5b4e);
    lemma_folding_twice(x);
    assert(((nanos ^ k) % 0x1_0000_0000_0000_0000) as u64 == ((nanos % 0x1_0000_0000_0000_0000) as u64)
        ^ ((k % 0x1_0000_0000_0000_0000) as u64)) by (bit_vector);
}

/// Folding twice gives the number back.
proof fn lemma_folding_twice(x: u64)
    ensures
        folded(folded(x)) == x,
{
    assert((x ^ (x >> 33)) ^ ((x ^ (x >> 33)) >> 33) == x) by (bit_vector);
}

} // verus!
