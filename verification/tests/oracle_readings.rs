use hash_miner::oracle::{
    current_tip_gwei, estimate_cost, is_profitable, spawn_oracle, wei_per_gas, Feed, Oracle,
    OracleStep, Reading, TipSource, GAS_PER_MINE, READY_LOOKS, READY_PAUSE_MS,
};

fn ready() -> Oracle {
    let mut o = Oracle::new();
    o.store(Reading::BaseFee(1));
    o.store(Reading::EthUsd(2));
    o.store(Reading::HashUsd(3));
    o.store(Reading::Reward(4));
    o
}

#[test]
fn readings_are_kept_by_feed() {
    let mut o = ready();
    assert_eq!(
        (o.base_fee_wei, o.eth_usd_x1000, o.hash_usd_x1e6, o.reward_hash_x1000, o.market_tip_wei),
        (1, 2, 3, 4, 0)
    );
    o.store(Reading::MarketTip(Some(5)));
    assert_eq!(o.market_tip_wei, 5);
}

#[test]
fn failures_and_missing_samples_keep_the_latest() {
    let mut o = ready();
    o.store(Reading::MarketTip(Some(9)));
    o.store(Reading::MarketTip(None));
    for feed in spawn_oracle() {
        o.store(Reading::Failed(feed));
    }
    assert_eq!(
        (o.base_fee_wei, o.eth_usd_x1000, o.hash_usd_x1e6, o.reward_hash_x1000, o.market_tip_wei),
        (1, 2, 3, 4, 9)
    );
}

#[test]
fn fees_are_kept_in_64_bits() {
    let mut o = Oracle::new();
    o.store(Reading::BaseFee((1 << 64) + 7));
    o.store(Reading::MarketTip(Some((1 << 64) + 8)));
    assert_eq!((o.base_fee_wei, o.market_tip_wei), (7, 8));
}

#[test]
fn the_oracle_is_ready_once_all_but_the_market_was_read() {
    assert!(ready().ready());
    assert!(!Oracle::new().ready());
    assert!(!Oracle { base_fee_wei: 0, ..ready() }.ready());
    assert!(!Oracle { eth_usd_x1000: 0, ..ready() }.ready());
    assert!(!Oracle { hash_usd_x1e6: 0, ..ready() }.ready());
    assert!(!Oracle { reward_hash_x1000: 0, ..ready() }.ready());
}

#[test]
fn waiting_for_the_oracle_ends() {
    assert_eq!((READY_LOOKS, READY_PAUSE_MS), (100, 100));
    assert!(Oracle::new().keep_waiting(0));
    assert!(Oracle::new().keep_waiting(99));
    assert!(!Oracle::new().keep_waiting(100));
    assert!(!ready().keep_waiting(0));
}

#[test]
fn each_feed_has_its_period() {
    let feeds = spawn_oracle();
    let periods: Vec<u64> = feeds
        .iter()
        .map(|f| match f.step(false) {
            OracleStep::Read { period_secs } => period_secs,
            OracleStep::Quit => panic!(),
        })
        .collect();
    assert_eq!(periods, vec![300, 6, 30, 60, 20]);
    assert!(feeds.iter().all(|f| matches!(f.step(true), OracleStep::Quit)));
}

#[test]
fn two_feeds_complain() {
    assert_eq!(Feed::HashUsd.complaint().unwrap(), "[价格] HASH/USD 拉取失败: ");
    assert_eq!(Feed::MarketTip.complaint().unwrap(), "[市场 tip] 拉取失败: ");
    assert!(Feed::BaseFee.complaint().is_none());
    assert!(Feed::EthUsd.complaint().is_none());
    assert!(Feed::Reward.complaint().is_none());
}

#[test]
fn the_tip_follows_the_market_where_asked() {
    assert!(matches!(current_tip_gwei("market", 5), TipSource::Market(5)));
    assert!(matches!(current_tip_gwei("market", 0), TipSource::FallbackWithFloor));
    assert!(matches!(current_tip_gwei("fixed", 5), TipSource::Fixed));
    assert!(matches!(current_tip_gwei("Market", 5), TipSource::Fixed));
}

#[test]
fn a_transaction_costs_its_gas() {
    assert_eq!(GAS_PER_MINE, 100_000);
    assert_eq!(estimate_cost(1_720_000_000, 8_500_000_000), 1_022_000_000_000_000);
    assert_eq!(estimate_cost(u64::MAX, 1), u64::MAX as u128 * 100_000);
    assert_eq!(estimate_cost(0, 0), 0);
    assert_eq!(wei_per_gas(1_720_000_000, 8_500_000_000), 10_220_000_000);
    assert_eq!(wei_per_gas(u64::MAX, 1), u64::MAX);
}

#[test]
fn nothing_pays_without_prices() {
    assert!(is_profitable(&ready(), true));
    assert!(!is_profitable(&ready(), false));
    assert!(!is_profitable(&Oracle { eth_usd_x1000: 0, ..ready() }, true));
    assert!(!is_profitable(&Oracle { hash_usd_x1e6: 0, ..ready() }, true));
    assert!(!is_profitable(&Oracle { reward_hash_x1000: 0, ..ready() }, true));
    assert!(is_profitable(&Oracle { base_fee_wei: 0, ..ready() }, true));
}
