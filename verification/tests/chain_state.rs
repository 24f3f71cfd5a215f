use hash_miner::bytes::word_of_u64;
use hash_miner::chain::{
    mine_call, on_challenge, on_confirmation, BlockFee, ChainCtx, ChainError, Confirmation, EpochSnapshot,
    SubmitOutcome, SubmitStep, CHAINLINK_ETH_USD,
};

const KEY: &str = "0000000000000000000000000000000000000000000000000000000000000001";
const ACCOUNT: &str = "7e5f4552091a69125d5dfcb7b8c2659029395bdf";

fn bytes20(hex: &str) -> [u8; 20] {
    let mut out = [0u8; 20];
    for i in 0..20 {
        out[i] = u8::from_str_radix(&hex[2 * i..2 * i + 2], 16).unwrap();
    }
    out
}

fn ctx_of(key: &str, contract: &str) -> Result<ChainCtx, ChainError> {
    ChainCtx::new(key, contract, "http://r".to_string(), "http://s".to_string(), 60, 1)
}

fn ctx() -> ChainCtx {
    ctx_of(KEY, CHAINLINK_ETH_USD).ok().unwrap()
}

#[test]
fn a_context_knows_its_account() {
    let c = ctx();
    assert_eq!(c.miner, bytes20(ACCOUNT));
    assert_eq!(c.contract, bytes20("5f4ec3df9cbd43714fe2740f5e3616155c5b8419"));
    assert_eq!((c.read_rpc.as_str(), c.submit_rpc.as_str()), ("http://r", "http://s"));
    assert_eq!((c.submit_timeout_secs, c.wait_confirmations, c.next_nonce), (60, 1, 0));
    assert_eq!(c.signer_key, KEY);
}

#[test]
fn key_prefixes_make_no_difference() {
    for prefix in ["0x", "0x0x", "0X"] {
        let c = ctx_of(&format!("{}{}", prefix, KEY), CHAINLINK_ETH_USD).ok().unwrap();
        assert_eq!(c.miner, bytes20(ACCOUNT));
    }
    let c = ctx_of(
        "0xAC0974bec39a17e36ba4a6b4d238ff944bacb478cbed5efcae784d7bf4f2ff80",
        CHAINLINK_ETH_USD,
    );
    assert_eq!(c.ok().unwrap().miner, bytes20("f39fd6e51aad88f6f4ce6ab8827279cfffb92266"));
}

#[test]
fn bad_keys_are_refused() {
    let zero = "0".repeat(64);
    for key in ["", "0x", "12", "zz", &KEY[1..], &zero] {
        let e = ctx_of(key, CHAINLINK_ETH_USD).err().unwrap();
        assert!(matches!(e, ChainError::BadPrivateKey));
        assert_eq!(e.message(), "解析私钥失败");
    }
}

#[test]
fn bad_contracts_are_refused() {
    for contract in ["", "0x12", "not an address", KEY] {
        let e = ctx_of(KEY, contract).err().unwrap();
        assert!(matches!(e, ChainError::BadContract));
        assert_eq!(e.message(), "解析合约地址失败");
    }
    for contract in [
        "5f4ec3df9cbd43714fe2740f5e3616155c5b8419",
        "0X5F4EC3DF9CBD43714FE2740F5E3616155C5B8419",
    ] {
        assert!(ctx_of(KEY, contract).is_ok());
    }
}

#[test]
fn account_nonces_are_handed_out_in_turn() {
    let mut c = ctx();
    assert_eq!(c.init_nonce(7), 7);
    let a = c.submit_mine(100, 5);
    let b = c.submit_mine(200, 6);
    assert_eq!((a.nonce, a.account_nonce), (100, 7));
    assert_eq!((b.nonce, b.account_nonce), (200, 8));
    assert_eq!((a.confirmations, a.timeout_secs), (1, 60));
    assert_eq!(c.next_nonce, 9);
    assert_eq!(c.init_nonce(3), 3);
}

#[test]
fn a_transaction_calls_mine_of_the_contract() {
    let mut c = ctx();
    c.init_nonce(7);
    let tx = c.submit_mine(42, 8_500_000_000);
    assert_eq!(tx.to, c.contract);
    let mut call = vec![0x4d, 0x47, 0x48, 0x98];
    call.extend_from_slice(&word_of_u64(42));
    assert_eq!(tx.input.to_vec(), call);
    assert_eq!((tx.nonce, tx.account_nonce), (42, 7));
    assert_eq!(tx.max_priority_fee_per_gas, 8_500_000_000);
    assert_eq!(mine_call(0x0102)[34..], [1, 2]);
    let name = alloy::primitives::keccak256("mine(uint256)");
    assert_eq!(tx.input[..4], name[..4]);
}

#[test]
fn own_transactions_are_mine_calls() {
    let mut c = ctx();
    let tx = c.submit_mine(42, 1);
    assert!(c.fetch_market_tip(1, 1).wants_receipt(&Some(tx.to), &tx.input));
}

#[test]
fn a_resync_never_goes_back() {
    let mut c = ctx();
    c.init_nonce(10);
    assert_eq!(c.resync_nonce(8), 10);
    assert_eq!(c.resync_nonce(12), 12);
    assert_eq!(c.resync_nonce(12), 12);
    assert_eq!(c.submit_mine(0, 1).account_nonce, 12);
}

#[test]
fn account_nonces_never_collide() {
    let mut c = ctx();
    let mut last = None;
    for pending in [0u64, 3, 1, 1, 9, 2] {
        c.resync_nonce(pending);
        let n = c.submit_mine(1, 1).account_nonce;
        assert!(last.map_or(true, |l| n > l));
        last = Some(n);
    }
}

#[test]
fn a_snapshot_holds_its_words() {
    let s = ChainCtx::snapshot([1; 32], [2; 32], [3; 32], word_of_u64(40));
    assert_eq!((s.challenge, s.difficulty, s.reward), ([1; 32], [2; 32], [3; 32]));
    assert_eq!(s.blocks_left_u64(), 40);
    let huge = EpochSnapshot { blocks_left: [0xff; 32], ..s };
    assert_eq!(huge.blocks_left_u64(), u64::MAX);
}

#[test]
fn blocks_left_are_held_at_the_largest() {
    let mut w = [0u8; 32];
    w[23] = 1;
    assert_eq!(ChainCtx::fetch_challenge_and_blocks_left([9; 32], &w), ([9; 32], u64::MAX));
    let w = word_of_u64(u64::MAX);
    assert_eq!(ChainCtx::fetch_challenge_and_blocks_left([9; 32], &w), ([9; 32], u64::MAX));
    let w = word_of_u64(31);
    assert_eq!(ChainCtx::fetch_challenge_and_blocks_left([8; 32], &w), ([8; 32], 31));
}

#[test]
fn rewards_that_do_not_fit_are_zero() {
    let mut w = [0u8; 32];
    w[16..].copy_from_slice(&100_000_000_000_000_000_000u128.to_be_bytes());
    assert_eq!(ChainCtx::fetch_reward_hash(&w), 100_000_000_000_000_000_000);
    w[15] = 1;
    assert_eq!(ChainCtx::fetch_reward_hash(&w), 0);
    w = [0; 32];
    w[16..].copy_from_slice(&[0xff; 16]);
    assert_eq!(ChainCtx::fetch_reward_hash(&w), u128::MAX);
}

#[test]
fn a_block_without_base_fee_has_none() {
    let fee = |f| ChainCtx::fetch_base_fee(Some(BlockFee { base_fee_per_gas: f }));
    assert_eq!(fee(Some(17)).ok(), Some(17));
    assert_eq!(fee(None).ok(), Some(0));
    let e = ChainCtx::fetch_base_fee(None).err().unwrap();
    assert!(matches!(e, ChainError::NoLatestBlock));
    assert_eq!(e.message(), "无法获取最新区块");
}

#[test]
fn only_positive_prices_count() {
    assert_eq!(ChainCtx::fetch_eth_usd(&word_of_u64(250_012_345_678)).ok(), Some(250_012_345_678));
    let mut too_large = [0u8; 32];
    too_large[16] = 0x80;
    for answer in [[0u8; 32], [0xff; 32], too_large] {
        let e = ChainCtx::fetch_eth_usd(&answer).err().unwrap();
        assert!(matches!(e, ChainError::NonPositivePrice));
        assert_eq!(e.message(), "Chainlink 返回非正价格");
    }
    let mut largest = [0u8; 32];
    largest[16..].copy_from_slice(&i128::MAX.to_be_bytes());
    assert_eq!(ChainCtx::fetch_eth_usd(&largest).ok(), Some(i128::MAX));
}

#[test]
fn a_receipt_settles_a_transaction() {
    let step = |status, block_number| {
        on_confirmation([5; 32], Confirmation::Receipt { status, block_number, gas_used: 99 })
    };
    assert!(matches!(
        step(true, Some(12)),
        SubmitStep::Done(SubmitOutcome::Confirmed { tx_hash, block: 12, gas_used: 99 })
            if tx_hash == [5; 32]
    ));
    assert!(matches!(
        step(true, None),
        SubmitStep::Done(SubmitOutcome::Confirmed { block: 0, .. })
    ));
    match step(false, Some(12)) {
        SubmitStep::Done(SubmitOutcome::Reverted { tx_hash, reason }) => {
            assert_eq!(tx_hash, [5; 32]);
            assert_eq!(reason, "合约 revert (可能是 nonce 失效或难度已变)");
        }
        _ => panic!(),
    }
    assert!(matches!(
        on_confirmation([5; 32], Confirmation::NoReceipt),
        SubmitStep::AskChallenge
    ));
}

#[test]
fn without_a_receipt_the_challenge_decides() {
    assert!(matches!(
        on_challenge([5; 32], &[1; 32], &[1; 32]),
        SubmitOutcome::TimeoutDropped { tx_hash } if tx_hash == [5; 32]
    ));
    assert!(matches!(
        on_challenge([5; 32], &[1; 32], &[2; 32]),
        SubmitOutcome::TimeoutChallengeChanged { tx_hash } if tx_hash == [5; 32]
    ));
}
