use hash_miner::bytes::word_of_u64;
use hash_miner::chain::ChainCtx;
use hash_miner::format::{
    format_hash_18, format_hex_short, is_private_mempool, print_banner, print_snapshot,
    BannerSettings,
};
use hash_miner::gpu::{Adapter, Backend, GpuMiner};
use hash_miner::text::{contains, decimal_text, repeat, same_text, starts_with, trim, trim_end_zeros};

fn amount(n: u128) -> [u8; 32] {
    let mut w = [0u8; 32];
    w[16..].copy_from_slice(&n.to_be_bytes());
    w
}

#[test]
fn long_bytes_are_shortened() {
    assert_eq!(format_hex_short(&[]), "0x");
    assert_eq!(format_hex_short(&[0xde, 0xad, 0xbe, 0xef, 0x01]), "0xdeadbeef01");
    assert_eq!(format_hex_short(&[1, 2, 3, 4, 5, 6]), "0x01020304…040506");
    assert_eq!(format_hex_short(&[0xab; 32]), "0xabababab…ababab");
}

#[test]
fn amounts_are_shown_as_fractions() {
    let one = 1_000_000_000_000_000_000u128;
    assert_eq!(format_hash_18(&amount(100 * one)), "100");
    assert_eq!(format_hash_18(&amount(one)), "1");
    assert_eq!(format_hash_18(&amount(one + one / 2)), "1.5");
    assert_eq!(format_hash_18(&amount(one / 2)), "0.5");
    assert_eq!(format_hash_18(&amount(1)), "0.000000000000000001");
    assert_eq!(format_hash_18(&amount(12 * one + 1)), "12.000000000000000001");
    assert_eq!(format_hash_18(&amount(0)), "0.00000000000000000");
    assert_eq!(format_hash_18(&amount(one / 10)), "0.1");
}

#[test]
fn the_largest_amount_is_shown_whole() {
    assert_eq!(
        format_hash_18(&[0xff; 32]),
        "115792089237316195423570985008687907853269984665640564039457.584007913129639935"
    );
}

#[test]
fn private_mempools_are_known_by_name() {
    assert!(is_private_mempool("https://rpc.flashbots.net"));
    assert!(is_private_mempool("https://rpc.mevblocker.io/fast"));
    assert!(!is_private_mempool("https://eth.llamarpc.com"));
    assert!(!is_private_mempool(""));
}

fn banner(tip_mode: &str, submit: &str) -> Vec<String> {
    let key = "0000000000000000000000000000000000000000000000000000000000000001";
    let contract = "0x5f4ec3df9cbd43714fe2740f5e3616155c5b8419";
    let ctx = ChainCtx::new(key, contract, "https://r.x".to_string(), submit.to_string(), 1, 1);
    let gpu = GpuMiner::from_adapter(Adapter {
        name: "Apple M1".to_string(),
        vendor: 1,
        backend: Backend::Metal,
    });
    print_banner(
        &ctx.ok().unwrap(),
        &gpu,
        &BannerSettings {
            batch_size: 4194304,
            pipeline_depth: 2,
            tip_mode: tip_mode.to_string(),
            tip_percentile: "75".to_string(),
            tip_floor: "1".to_string(),
            profit_ratio: "0.5".to_string(),
        },
    )
}

#[test]
fn the_banner_shows_the_settings() {
    let bar = "─".repeat(58);
    assert_eq!(
        banner("market", "https://rpc.flashbots.net"),
        vec![
            format!("┌─ hash-miner v0.1.0 {}", bar),
            "│ 矿工地址  0x7E5F4552091A69125d5DfCb7b8C2659029395Bdf".to_string(),
            "│ 合约地址  0x5f4eC3Df9cbd43714FE2740f5E3616155c5b8419".to_string(),
            "│ 读取 RPC  r.x".to_string(),
            "│ 提交 RPC  rpc.flashbots.net (私有 mempool)".to_string(),
            "│ GPU       Apple M1 · Metal".to_string(),
            "│ 批量      4194304 nonce · pipeline=2".to_string(),
            "│ 优先费    market 跟随 (取 75% 分位, 下限 1 gwei)".to_string(),
            "│ 经济护栏  gas/reward 比 ≥ 0.5 时跳过 (持续挖, 不发 tx)".to_string(),
            format!("└{}{}", bar, "─".repeat(20)),
            "".to_string(),
        ]
    );
    let lines = banner("fixed", "http://s");
    assert_eq!(lines[4], "│ 提交 RPC  s");
    assert_eq!(lines[7], "│ 优先费    固定 (fallback)");
}

#[test]
fn the_epoch_is_shown() {
    let s = ChainCtx::snapshot(
        [0xab; 32],
        [0xcd; 32],
        amount(100_000_000_000_000_000_000),
        word_of_u64(32),
    );
    assert_eq!(
        print_snapshot(&s),
        vec![
            "[链上] 挑战 0xabababab…ababab".to_string(),
            "[链上] 难度 0xcdcdcdcd…cdcdcd".to_string(),
            "[链上] 单次奖励 100 HASH · 本纪元剩余 32 块".to_string(),
        ]
    );
}

#[test]
fn text_helpers_do_as_they_say() {
    assert_eq!(decimal_text(0), "0");
    assert_eq!(decimal_text(u64::MAX), "18446744073709551615");
    assert_eq!(repeat("ab", 3), "ababab");
    assert_eq!(repeat("ab", 0), "");
    assert_eq!(trim_end_zeros("1200"), "12");
    assert_eq!(trim_end_zeros("000"), "");
    assert_eq!(trim("  a b\t\n"), "a b");
    assert_eq!(trim("\u{a0}\u{2003}x\u{85}"), "x");
    assert!(starts_with("0x12", "0x") && !starts_with("1", "0x"));
    assert!(contains("abc", "bc") && contains("abc", "") && !contains("abc", "bd"));
    assert!(same_text("é", "é") && !same_text("a", "b"));
}
