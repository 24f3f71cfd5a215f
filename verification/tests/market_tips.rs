use hash_miner::chain::ChainCtx;
use hash_miner::market::{BlockSample, MarketScan, TxReceipt, TxSample, MARKET_BLOCKS};

const KEY: &str = "0000000000000000000000000000000000000000000000000000000000000001";
const MINE: [u8; 4] = [0x4d, 0x47, 0x48, 0x98];

fn scan(latest: u64, n: u64) -> MarketScan {
    let contract = "0x".to_string() + &"11".repeat(20);
    ChainCtx::new(KEY, &contract, String::new(), String::new(), 1, 1)
        .ok()
        .unwrap()
        .fetch_market_tip(latest, n)
}

fn paid(price: u128) -> TxSample {
    TxSample {
        to: Some([0x11; 20]),
        input: MINE.to_vec(),
        receipt: Some(TxReceipt { status: true, effective_gas_price: price }),
    }
}

#[test]
fn blocks_are_asked_for_from_the_latest_back() {
    let mut s = scan(100, MARKET_BLOCKS);
    let mut asked = Vec::new();
    while let Some(b) = s.next_block() {
        asked.push(b);
    }
    assert_eq!(asked, vec![100, 99, 98, 97]);
}

#[test]
fn each_block_counts_once() {
    let mut s = scan(1, 4);
    assert_eq!((s.next_block(), s.next_block()), (Some(1), Some(0)));
    assert_eq!((s.next_block(), s.next_block()), (None, None));
    let mut s = scan(0, 1);
    assert_eq!((s.next_block(), s.next_block()), (Some(0), None));
    let mut s = scan(u64::MAX, 2);
    assert_eq!((s.next_block(), s.next_block()), (Some(u64::MAX), Some(u64::MAX - 1)));
    assert_eq!(s.next_block(), None);
    assert_eq!(scan(9, 0).next_block(), None);
}

#[test]
fn a_young_chain_has_the_tips_of_its_blocks() {
    let mut s = scan(1, 4);
    while let Some(b) = s.next_block() {
        let price = if b == 1 { 100 } else { 10 };
        s.add_block(&BlockSample { base_fee_per_gas: Some(0), txs: vec![paid(price)] });
    }
    assert_eq!(s.tips, vec![100, 10]);
    let rank = ((s.samples() as f64 - 1.0) * (50.0 / 100.0)).round() as usize;
    assert_eq!(s.tip_at(rank), Some(100));
}

#[test]
fn only_mine_calls_matter() {
    let s = scan(1, 1);
    assert!(s.wants_receipt(&Some([0x11; 20]), &[0x4d, 0x47, 0x48, 0x98, 0, 0]));
    assert!(s.wants_receipt(&Some([0x11; 20]), &MINE));
    assert!(!s.wants_receipt(&Some([0x11; 20]), &MINE[..3]));
    assert!(!s.wants_receipt(&Some([0x11; 20]), &[0x4d, 0x47, 0x48, 0x99]));
    assert!(!s.wants_receipt(&Some([0x12; 20]), &MINE));
    assert!(!s.wants_receipt(&None, &MINE));
}

#[test]
fn only_successful_calls_above_the_base_fee_pay_a_tip() {
    let mut s = scan(1, 1);
    let mut reverted = paid(500);
    reverted.receipt = Some(TxReceipt { status: false, effective_gas_price: 500 });
    let mut unknown = paid(500);
    unknown.receipt = None;
    let mut other = paid(500);
    other.to = None;
    s.add_block(&BlockSample {
        base_fee_per_gas: Some(100),
        txs: vec![paid(130), reverted, paid(100), unknown, paid(99), other, paid(101)],
    });
    assert_eq!(s.tips, vec![30, 1]);
    s.add_block(&BlockSample { base_fee_per_gas: None, txs: vec![paid(7), paid(0)] });
    assert_eq!(s.tips, vec![30, 1, 7]);
    assert_eq!(s.samples(), 3);
}

#[test]
fn tips_are_ranked_in_ascending_order() {
    let mut s = scan(1, 1);
    assert_eq!(s.tip_at(0), None);
    s.add_block(&BlockSample {
        base_fee_per_gas: Some(0),
        txs: vec![paid(30), paid(10), paid(20), paid(10)],
    });
    let ranked: Vec<u128> = (0..6).map(|k| s.tip_at(k).unwrap()).collect();
    assert_eq!(ranked, vec![10, 10, 20, 30, 30, 30]);
    assert_eq!(s.tip_at(usize::MAX), Some(30));
}
