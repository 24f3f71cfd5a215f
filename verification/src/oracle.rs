//! The oracle: the latest readings of fees and prices, and what they say about
//! sending a transaction.

use crate::text::same_text;
use vstd::prelude::*;
use vstd::string::*;

verus! {

/// Gas that a `mine` transaction is taken to use.
pub const GAS_PER_MINE: u64 = 100_000;

/// How often the miner looks whether the oracle is ready before it goes on
/// without.
pub const READY_LOOKS: u32 = 100;

/// Milliseconds between two such looks.
pub const READY_PAUSE_MS: u64 = 100;

/// What the oracle reads.
#[derive(Clone, Copy)]
pub enum Feed {
    Reward,
    BaseFee,
    EthUsd,
    HashUsd,
    MarketTip,
}

/// What came of one reading.
#[derive(Clone, Copy)]
pub enum Reading {
    /// The reward, in thousandths of a token.
    Reward(u64),
    /// The base fee, in wei.
    BaseFee(u128),
    /// The price of ether, in thousandths of a dollar.
    EthUsd(u64),
    /// The price of the token, in millionths of a dollar.
    HashUsd(u64),
    /// The market's priority fee, in wei; nothing where there were no samples.
    MarketTip(Option<u128>),
    /// The reading failed.
    Failed(Feed),
}

/// The latest readings; zero before the first.
#[derive(Clone, Copy)]
pub struct Oracle {
    pub base_fee_wei: u64,
    pub eth_usd_x1000: u64,
    pub hash_usd_x1e6: u64,
    pub market_tip_wei: u64,
    pub reward_hash_x1000: u64,
}

/// What a reading says about a feed: nothing where it is of another feed,
/// failed, or had no samples. Fees are kept as 64-bit numbers.
pub open spec fn reading_of(r: Reading, feed: Feed) -> Option<u64> {
    match (r, feed) {
        (Reading::Reward(v), Feed::Reward) => Some(v),
        (Reading::BaseFee(w), Feed::BaseFee) => Some((w % 0x1_0000_0000_0000_0000) as u64),
        (Reading::EthUsd(v), Feed::EthUsd) => Some(v),
        (Reading::HashUsd(v), Feed::HashUsd) => Some(v),
        (Reading::MarketTip(Some(w)), Feed::MarketTip) => Some(
            (w % 0x1_0000_0000_0000_0000) as u64,
        ),
        _ => None,
    }
}

impl Oracle {
    /// What the oracle holds of a feed.
    pub open spec fn value(self, feed: Feed) -> u64 {
        match feed {
            Feed::Reward => self.reward_hash_x1000,
            Feed::BaseFee => self.base_fee_wei,
            Feed::EthUsd => self.eth_usd_x1000,
            Feed::HashUsd => self.hash_usd_x1e6,
            Feed::MarketTip => self.market_tip_wei,
        }
    }

    /// The oracle before the first reading.
    pub fn new() -> (o: Oracle)
        ensures
            forall|feed: Feed| #[trigger] o.value(feed) == 0,
    {
        Oracle {
            base_fee_wei: 0,
            eth_usd_x1000: 0,
            hash_usd_x1e6: 0,
            market_tip_wei: 0,
            reward_hash_x1000: 0,
        }
    }

    /// Takes a reading in. One that failed or had no samples changes nothing.
    pub fn store(&mut self, r: Reading)
        ensures
            forall|feed: Feed| #[trigger]
                final(self).value(feed) == match reading_of(r, feed) {
                    Some(v) => v,
                    None => old(self).value(feed),
                },
    {
        match r {
            Reading::Reward(v) => {
                self.reward_hash_x1000 = v;
            },
            Reading::BaseFee(w) => {
                self.base_fee_wei = (w % 0x1_0000_0000_0000_0000) as u64;
            },
            Reading::EthUsd(v) => {
                self.eth_usd_x1000 = v;
            },
            Reading::HashUsd(v) => {
                self.hash_usd_x1e6 = v;
            },
            Reading::MarketTip(Some(w)) => {
                self.market_tip_wei = (w % 0x1_0000_0000_0000_0000) as u64;
            },
            Reading::MarketTip(None) => {},
            Reading::Failed(_) => {},
        }
    }

    /// Whether everything that the profit guard rests on was read: the base
    /// fee, both prices and the reward.
    pub open spec fn is_ready(self) -> bool {
        &&& self.base_fee_wei > 0
        &&& self.eth_usd_x1000 > 0
        &&& self.hash_usd_x1e6 > 0
        &&& self.reward_hash_x1000 > 0
    }

    /// Whether everything that the profit guard rests on was read.
    pub fn ready(&self) -> (r: bool)
        ensures
            r == self.is_ready(),
            r <==> self.value(Feed::BaseFee) > 0 && self.value(Feed::EthUsd) > 0 && self.value(
                Feed::HashUsd,
            ) > 0 && self.value(Feed::Reward) > 0,
    {
        self.base_fee_wei > 0 && self.eth_usd_x1000 > 0 && self.hash_usd_x1e6 > 0
            && self.reward_hash_x1000 > 0
    }

    /// Whether to wait on, after `looks` looks.
    pub fn keep_waiting(&self, looks: u32) -> (r: bool)
        ensures
            r == (looks < READY_LOOKS && !self.is_ready()),
    {
        looks < READY_LOOKS && !self.ready()
    }
}

/// The oracle after some readings.
pub open spec fn oracle_value(start: u64, readings: Seq<Reading>, feed: Feed) -> u64
    decreases readings.len(),
{
    if readings.len() == 0 {
        start
    } else {
        match reading_of(readings.last(), feed) {
            Some(v) => v,
            None => oracle_value(start, readings.drop_last(), feed),
        }
    }
}

/// The oracle holds the latest reading of each feed: whatever failed, came
/// without samples or was of another feed since then has not touched it.
pub proof fn law_oracle_holds_the_latest(start: u64, readings: Seq<Reading>, feed: Feed, k: int)
    requires
        0 <= k < readings.len(),
        reading_of(readings[k], feed) is Some,
        forall|j: int| k < j < readings.len() ==> reading_of(#[trigger] readings[j], feed) is None,
    ensures
        oracle_value(start, readings, feed) == reading_of(readings[k], feed)->0,
    decreases readings.len(),
{
    if k < readings.len() - 1 {
        let before = readings.drop_last();
        assert(reading_of(readings[readings.len() - 1], feed) is None);
        assert forall|j: int| k < j < before.len() implies reading_of(#[trigger] before[j], feed) is None by {
            assert(before[j] == readings[j]);
        }
        law_oracle_holds_the_latest(start, before, feed, k);
    }
}

/// What the tasks of the oracle read, one task for each feed.
pub fn spawn_oracle() -> (feeds: Vec<Feed>)
    ensures
        feeds@ == seq![Feed::Reward, Feed::BaseFee, Feed::EthUsd, Feed::HashUsd, Feed::MarketTip],
{
    let mut feeds: Vec<Feed> = Vec::new();
    feeds.push(Feed::Reward);
    feeds.push(Feed::BaseFee);
    feeds.push(Feed::EthUsd);
    feeds.push(Feed::HashUsd);
    feeds.push(Feed::MarketTip);
    assert(feeds@ =~= seq![
        Feed::Reward,
        Feed::BaseFee,
        Feed::EthUsd,
        Feed::HashUsd,
        Feed::MarketTip,
    ]);
    feeds
}

/// What a task of the oracle does next.
#[derive(Clone, Copy)]
pub enum OracleStep {
    /// End.
    Quit,
    /// Read the feed, store what came of it, and come back after so many
    /// seconds.
    Read { period_secs: u64 },
}

/// The seconds between two readings of a feed.
pub open spec fn period_of(feed: Feed) -> u64 {
    match feed {
        Feed::Reward => 300,
        Feed::BaseFee => 6,
        Feed::EthUsd => 30,
        Feed::HashUsd => 60,
        Feed::MarketTip => 20,
    }
}

impl Feed {
    /// What the feed's task does next.
    pub fn step(self, stop: bool) -> (s: OracleStep)
        ensures
            s == if stop {
                OracleStep::Quit
            } else {
                OracleStep::Read { period_secs: period_of(self) }
            },
    {
        if stop {
            return OracleStep::Quit;
        }
        let period_secs: u64 = match self {
            Feed::Reward => 300,
            Feed::BaseFee => 6,
            Feed::EthUsd => 30,
            Feed::HashUsd => 60,
            Feed::MarketTip => 20,
        };
        OracleStep::Read { period_secs }
    }

    /// What is reported of a failed reading, before the error itself: only the
    /// token's price and the market are worth a word.
    pub fn complaint(self) -> (t: Option<String>)
        ensures
            match self {
                Feed::HashUsd => t is Some && t->0@ == "[价格] HASH/USD 拉取失败: "@,
                Feed::MarketTip => t is Some && t->0@ == "[市场 tip] 拉取失败: "@,
                _ => t is None,
            },
    {
        match self {
            Feed::HashUsd => Some("[价格] HASH/USD 拉取失败: ".to_owned()),
            Feed::MarketTip => Some("[市场 tip] 拉取失败: ".to_owned()),
            _ => None,
        }
    }
}

/// Where the priority fee comes from.
#[derive(Clone, Copy)]
pub enum TipSource {
    /// The market's, in wei, held to the floor.
    Market(u64),
    /// The one in the settings, held to the floor: there is no market yet.
    FallbackWithFloor,
    /// The one in the settings, as it is.
    Fixed,
}

/// Where the priority fee comes from.
pub open spec fn tip_source(tip_mode: Seq<char>, market_tip_wei: u64) -> TipSource {
    if tip_mode == "market"@ {
        if market_tip_wei > 0 {
            TipSource::Market(market_tip_wei)
        } else {
            TipSource::FallbackWithFloor
        }
    } else {
        TipSource::Fixed
    }
}

/// Where the priority fee comes from.
pub fn current_tip_gwei(tip_mode: &str, market_tip_wei: u64) -> (s: TipSource)
    ensures
        s == tip_source(tip_mode@, market_tip_wei),
        s is Fixed <==> tip_mode@ != "market"@,
        s is Market <==> tip_mode@ == "market"@ && market_tip_wei > 0,
        s matches TipSource::Market(wei) ==> wei == market_tip_wei,
{
    if same_text(tip_mode, "market") {
        if market_tip_wei > 0 {
            TipSource::Market(market_tip_wei)
        } else {
            TipSource::FallbackWithFloor
        }
    } else {
        TipSource::Fixed
    }
}

/// The price of one gas, in wei, held at the largest `u64`.
pub open spec fn gas_price(base_fee_wei: u64, tip_wei: u64) -> u64 {
    if base_fee_wei + tip_wei <= u64::MAX {
        (base_fee_wei + tip_wei) as u64
    } else {
        u64::MAX
    }
}

/// The price of one gas, in wei, held at the largest `u64`.
pub fn wei_per_gas(base_fee_wei: u64, tip_wei: u64) -> (price: u64)
    ensures
        price == gas_price(base_fee_wei, tip_wei),
        price <= base_fee_wei + tip_wei,
        price == base_fee_wei + tip_wei || price == u64::MAX,
{
    base_fee_wei.saturating_add(tip_wei)
}

/// What a `mine` transaction is estimated to cost, in wei.
pub fn estimate_cost(base_fee_wei: u64, tip_wei: u64) -> (cost: u128)
    ensures
        cost == gas_price(base_fee_wei, tip_wei) * GAS_PER_MINE,
        base_fee_wei + tip_wei <= u64::MAX ==> cost == (base_fee_wei + tip_wei) * 100_000,
        base_fee_wei + tip_wei > u64::MAX ==> cost == u64::MAX * 100_000,
{
    let price: u64 = wei_per_gas(base_fee_wei, tip_wei);
    assert(price * GAS_PER_MINE <= u128::MAX) by (nonlinear_arith)
        requires
            price <= u64::MAX,
            GAS_PER_MINE <= u64::MAX,
    ;
    price as u128 * GAS_PER_MINE as u128
}

/// Whether a transaction pays: the prices and the reward are known, and the
/// ratio of its cost to its reward is below the limit.
pub open spec fn pays(o: Oracle, ratio_below: bool) -> bool {
    &&& o.eth_usd_x1000 > 0
    &&& o.hash_usd_x1e6 > 0
    &&& o.reward_hash_x1000 > 0
    &&& ratio_below
}

/// Whether a transaction pays, where `ratio_below` says whether the ratio of its
/// cost to its reward is below the limit. Without a price it never does.
pub fn is_profitable(o: &Oracle, ratio_below: bool) -> (r: bool)
    ensures
        r == pays(*o, ratio_below),
        !ratio_below ==> !r,
        o.eth_usd_x1000 > 0 && o.hash_usd_x1e6 > 0 && o.reward_hash_x1000 > 0 ==> (r
            <==> ratio_below),
        o.eth_usd_x1000 == 0 || o.hash_usd_x1e6 == 0 || o.reward_hash_x1000 == 0 ==> !r,
{
    o.eth_usd_x1000 > 0 && o.hash_usd_x1e6 > 0 && o.reward_hash_x1000 > 0 && ratio_below
}

/// As long as one of the prices or the reward was never read, no transaction
/// pays, whatever the ratio.
pub proof fn law_no_price_no_profit(readings: Seq<Reading>, feed: Feed, o: Oracle, ratio_below: bool)
    requires
        feed is EthUsd || feed is HashUsd || feed is Reward,
        forall|j: int| 0 <= j < readings.len() ==> reading_of(#[trigger] readings[j], feed) is None,
        o.value(feed) == oracle_value(0, readings, feed),
    ensures
        !pays(o, ratio_below),
    decreases readings.len(),
{
    if readings.len() > 0 {
        let before = readings.drop_last();
        assert(reading_of(readings[readings.len() - 1], feed) is None);
        assert forall|j: int| 0 <= j < before.len() implies reading_of(#[trigger] before[j], feed) is None by {
            assert(before[j] == readings[j]);
        }
        law_no_price_no_profit(before, feed, o, ratio_below);
    }
}

/// The ratio of cost to reward decides: a transaction whose ratio is not below
/// the limit never pays, whatever the oracle holds; and one whose ratio is does,
/// once both prices and the reward were read, whatever else was or was not.
pub proof fn law_ratio_decides(o: Oracle, ratio_below: bool)
    ensures
        !pays(o, false),
        pays(o, ratio_below) ==> ratio_below,
        o.value(Feed::EthUsd) > 0 && o.value(Feed::HashUsd) > 0 && o.value(Feed::Reward) > 0 ==> (
        pays(o, ratio_below) <==> ratio_below),
{
}

/// The guard looks at both prices and the reward only: two oracles that agree on
/// which of these were read give the same answer.
pub proof fn law_only_prices_and_reward_matter(o: Oracle, p: Oracle, ratio_below: bool)
    requires
        o.value(Feed::EthUsd) > 0 <==> p.value(Feed::EthUsd) > 0,
        o.value(Feed::HashUsd) > 0 <==> p.value(Feed::HashUsd) > 0,
        o.value(Feed::Reward) > 0 <==> p.value(Feed::Reward) > 0,
    ensures
        pays(o, ratio_below) == pays(p, ratio_below),
{
}

/// Gas costs the base fee and the tip together, or the most that is counted;
/// paying more for either never makes it cheaper.
pub proof fn law_gas_price_is_the_sum(base: u64, tip: u64, more_base: u64, more_tip: u64)
    ensures
        base + tip <= u64::MAX ==> gas_price(base, tip) == base + tip,
        base + tip > u64::MAX ==> gas_price(base, tip) == u64::MAX,
        base <= more_base && tip <= more_tip ==> gas_price(base, tip) <= gas_price(
            more_base,
            more_tip,
        ),
{
}

/// A reading is kept as it came, of its own feed and of no other; a fee that is
/// larger than 64 bits loses what is above them.
pub proof fn law_readings_are_kept_as_they_came(v: u64, w: u128, feed: Feed)
    ensures
        reading_of(Reading::Reward(v), feed) == if feed is Reward {
            Some(v)
        } else {
            None
        },
        reading_of(Reading::EthUsd(v), feed) == if feed is EthUsd {
            Some(v)
        } else {
            None
        },
        reading_of(Reading::HashUsd(v), feed) == if feed is HashUsd {
            Some(v)
        } else {
            None
        },
        reading_of(Reading::BaseFee(w), feed) is Some <==> feed is BaseFee,
        reading_of(Reading::MarketTip(Some(w)), feed) is Some <==> feed is MarketTip,
        reading_of(Reading::MarketTip(None), feed) is None,
        forall|f: Feed| #[trigger] reading_of(Reading::Failed(f), feed) is None,
        w <= u64::MAX && feed is BaseFee ==> reading_of(Reading::BaseFee(w), feed)->0 == w,
        w <= u64::MAX && feed is MarketTip ==> reading_of(Reading::MarketTip(Some(w)), feed)->0
            == w,
        feed is BaseFee ==> (w - reading_of(Reading::BaseFee(w), feed)->0)
            % 0x1_0000_0000_0000_0000 == 0,
        feed is MarketTip ==> (w - reading_of(Reading::MarketTip(Some(w)), feed)->0)
            % 0x1_0000_0000_0000_0000 == 0,
{
}

/// The tip follows the market exactly where the settings say `market`: it is the
/// market's as soon as there is one.
pub proof fn law_tip_follows_the_market(tip_mode: Seq<char>, market_tip_wei: u64)
    ensures
        tip_source(tip_mode, market_tip_wei) is Fixed <==> tip_mode != "market"@,
        tip_source("market"@, 0) is FallbackWithFloor,
        market_tip_wei > 0 ==> tip_source("market"@, market_tip_wei) == TipSource::Market(
            market_tip_wei,
        ),
{
}

/// The guard's answer is the ratio's, once both prices and the reward were read,
/// and no until then; two oracles that differ in nothing but fees get one answer.
pub proof fn law_guard_answers_by_the_ratio(
    o: Oracle,
    base_fee_wei: u64,
    market_tip_wei: u64,
    ratio_below: bool,
    r: bool,
    other: bool,
)
    requires
        call_ensures(is_profitable, (&o, ratio_below), r),
        call_ensures(
            is_profitable,
            (&(Oracle { base_fee_wei, market_tip_wei, ..o }), ratio_below),
            other,
        ),
    ensures
        r ==> ratio_below,
        r <==> ratio_below && o.eth_usd_x1000 > 0 && o.hash_usd_x1e6 > 0 && o.reward_hash_x1000
            > 0,
        other == r,
{
}

} // verus!
