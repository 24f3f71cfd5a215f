use hash_miner::seed::{rand_seed, start_nonce};

#[test]
fn seeds_are_mixed() {
    assert_eq!(rand_seed(0, 0), 0);
    assert_eq!(rand_seed(1, 0), 0xb456bcfc34c2cb2c);
    assert_eq!(rand_seed(1_700_000_000_123_456_789, 4242), 0x65fa62202eb0f0a5);
    assert_eq!(rand_seed((1 << 127) + 5, u32::MAX), 0x7f380dfc88da34bb);
}

#[test]
fn processes_get_different_seeds() {
    let nanos = 1_700_000_000_123_456_789;
    assert_eq!(rand_seed(nanos, 4243), 0x6b0d6462f47eb5bc);
    assert_ne!(rand_seed(nanos, 4242), rand_seed(nanos, 4243));
}

#[test]
fn cards_begin_in_their_shards() {
    assert_eq!(start_nonce(0, 0), 0);
    assert_eq!(start_nonce(0, u64::MAX), 0x0fff_ffff_ffff_ffff);
    assert_eq!(start_nonce(3, 0xf123_4567_89ab_cdef), 0x3123_4567_89ab_cdef);
    assert_eq!(start_nonce(15, 1), 0xf000_0000_0000_0001);
    assert_eq!(start_nonce(16, 1), 1);
}

#[test]
fn cards_share_no_nonce() {
    let seed = 0x0123_4567_89ab_cdef;
    for a in 0..16usize {
        for b in 0..a {
            assert_ne!(start_nonce(a, seed) >> 60, start_nonce(b, seed) >> 60);
        }
    }
}
