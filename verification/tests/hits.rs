use hash_miner::bytes::{less_than, same_bytes, word_of_u64};
use hash_miner::gpu::{GpuMiner, ResultBuffer};
use hash_miner::hit::{
    check_hash, check_selftest, cpu_hash, packed_input, run_selftest, selftest_challenge,
    selftest_difficulty, selftest_step, verify_hit, HitError, MineHit, SelfTestError, SELFTEST_BATCH,
};
use hash_miner::search::selftest_batch;

const HASH_0: &str = "5c75bb376affa44a4f06c8a768453c2f7945122a65eb322a0dd3cc2edcbd6f0a";
const HASH_218: &str = "00b5e20c1a765d2fed0a462f6cb07f269aed058dec77ccb7cbecbc2f462ccd05";

fn bytes32(hex: &str) -> [u8; 32] {
    let mut out = [0u8; 32];
    for i in 0..32 {
        out[i] = u8::from_str_radix(&hex[2 * i..2 * i + 2], 16).unwrap();
    }
    out
}

#[test]
fn cpu_hash_is_keccak_of_challenge_and_nonce() {
    let challenge = [0x11u8; 32];
    assert_eq!(cpu_hash(&challenge, 0), bytes32(HASH_0));
    assert_eq!(cpu_hash(&challenge, 218), bytes32(HASH_218));
}

#[test]
fn packed_input_puts_the_nonce_last() {
    let input = packed_input(&[0x22; 32], 0x0102_0304_0506_0708);
    assert_eq!(input[..32], [0x22u8; 32]);
    assert_eq!(input[32..56], [0u8; 24]);
    assert_eq!(input[56..], [1, 2, 3, 4, 5, 6, 7, 8]);
    assert_eq!(word_of_u64(258)[30..], [1, 2]);
}

#[test]
fn every_nonce_has_its_own_input() {
    assert_ne!(packed_input(&[1; 32], 1), packed_input(&[1; 32], 256));
    assert_ne!(packed_input(&[1; 32], 1), packed_input(&[2; 32], 1));
}

#[test]
fn words_compare_as_numbers() {
    let small = word_of_u64(255);
    let large = word_of_u64(256);
    assert!(less_than(&small, &large));
    assert!(!less_than(&large, &small));
    assert!(!less_than(&large, &large));
    assert!(same_bytes(&large, &large));
    assert!(!same_bytes(&large, &small));
}

#[test]
fn a_right_hit_is_accepted() {
    let hash = bytes32(HASH_218);
    assert!(verify_hit(&[0x11; 32], 218, &hash, &selftest_difficulty()).is_ok());
    assert!(verify_hit(&[0x11; 32], 0, &bytes32(HASH_0), &[0xff; 32]).is_ok());
}

#[test]
fn a_wrong_hash_is_refused() {
    let mut hash = bytes32(HASH_218);
    hash[31] ^= 1;
    match verify_hit(&[0x11; 32], 218, &hash, &selftest_difficulty()) {
        Err(HitError::HashMismatch { cpu, gpu }) => {
            assert_eq!(cpu, HASH_218);
            assert_eq!(gpu, HASH_218.replace("cd05", "cd04"));
        }
        _ => panic!(),
    }
    let e = verify_hit(&[0x11; 32], 218, &[0; 32], &selftest_difficulty()).err().unwrap();
    assert_eq!(e.message(), format!("CPU hash {} ≠ GPU hash {}", HASH_218, "00".repeat(32)));
}

#[test]
fn a_hash_at_or_above_the_difficulty_is_refused() {
    let hash = bytes32(HASH_218);
    let e = verify_hit(&[0x11; 32], 218, &hash, &hash).err().unwrap();
    assert!(matches!(e, HitError::AboveTarget { .. }));
    assert_eq!(e.message(), format!("hash {} 不满足难度 {}", HASH_218, HASH_218));
    assert!(check_hash(&[0; 32], &[0; 32], &[0; 32]).is_err());
    assert!(check_hash(&[0; 32], &[0; 32], &word_of_u64(1)).is_ok());
}

#[test]
fn the_selftest_passes_on_a_right_device() {
    assert_eq!(SELFTEST_BATCH, 4 * 1024 * 1024);
    assert_eq!(selftest_challenge(), [0x11; 32]);
    assert_eq!(selftest_difficulty()[0], 1);
    assert_eq!(selftest_difficulty()[1..], [0xff; 31]);
    let hit = MineHit { nonce: 218, hash_be: bytes32(HASH_218) };
    assert!(run_selftest(Some(hit)).is_ok());
}

#[test]
fn the_selftest_fails_on_a_wrong_device() {
    let e = run_selftest(None).err().unwrap();
    assert!(matches!(e, SelfTestError::NoHit));
    assert_eq!(e.message(), "[自检] batch 跑完未命中, shader 可能有问题");
    let e = run_selftest(Some(MineHit { nonce: 217, hash_be: bytes32(HASH_218) })).err().unwrap();
    assert!(matches!(e, SelfTestError::HashMismatch));
    assert_eq!(e.message(), "[自检] ❌ GPU/CPU 不一致, shader 有 bug");
    let e = run_selftest(Some(MineHit { nonce: 0, hash_be: bytes32(HASH_0) })).err().unwrap();
    assert!(matches!(e, SelfTestError::AboveTarget));
    assert_eq!(e.message(), "[自检] ❌ hash 不满足难度");
    assert!(check_selftest(&[0; 32], &[0; 32]).is_ok());
}

fn report(nonce: u64, hash: [u8; 32]) -> ResultBuffer {
    let mut words = [0u32; 8];
    for i in 0..8 {
        words[i] = u32::from_be_bytes([hash[4 * i], hash[4 * i + 1], hash[4 * i + 2], hash[4 * i + 3]]);
    }
    let (nonce_lo, nonce_hi) = (nonce as u32, (nonce >> 32) as u32);
    ResultBuffer { found: 1, nonce_lo, nonce_hi, pad: 0, hash: words }
}

#[test]
fn the_selftest_ends_with_its_one_batch() {
    let d = selftest_batch();
    assert_eq!((d.slot, d.nonce_base, d.workgroup_count), (0, 0, 4096));
    assert_eq!(d.uniforms.challenge, [0x11111111; 8]);
    assert_eq!(d.uniforms.difficulty[..2], [0x01ffffff, 0xffffffff]);
    assert!(matches!(selftest_step(&ResultBuffer::cleared()), Err(SelfTestError::NoHit)));
    assert!(selftest_step(&report(218, bytes32(HASH_218))).is_ok());
    assert!(matches!(
        selftest_step(&report(217, bytes32(HASH_218))),
        Err(SelfTestError::HashMismatch)
    ));
    assert!(matches!(
        selftest_step(&report(0, bytes32(HASH_0))),
        Err(SelfTestError::AboveTarget)
    ));
}

#[test]
fn the_selftest_agrees_with_the_check_of_hits() {
    for nonce in [0u64, 1, 218, u64::MAX] {
        let hash = cpu_hash(&selftest_challenge(), nonce);
        let by_hits =
            verify_hit(&selftest_challenge(), nonce, &hash, &selftest_difficulty()).is_ok();
        assert_eq!(run_selftest(Some(MineHit { nonce, hash_be: hash })).is_ok(), by_hits);
    }
}

#[test]
fn a_device_that_reports_a_right_hit_is_believed() {
    let r = report(218, bytes32(HASH_218));
    let hit = r.hit().unwrap();
    assert!(verify_hit(&[0x11; 32], hit.nonce, &hit.hash_be, &selftest_difficulty()).is_ok());
    let (batch, _) = GpuMiner::normalize_batch(SELFTEST_BATCH);
    assert_eq!(batch, SELFTEST_BATCH);
}
