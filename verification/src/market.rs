//! The market: what others paid for their `mine` transactions of late.

use crate::chain::ChainCtx;
use vstd::prelude::*;

verus! {

use crate::bytes::lemma_be_bytes_len;
use crate::chain::{is_mine_tx, mine_input, mine_selector, MineTx};
use vstd::seq_lib::to_multiset_build;

/// Blocks that a scan of the market goes back.
pub const MARKET_BLOCKS: u64 = 4;

/// The receipt of a transaction, as far as the market goes.
#[derive(Clone, Copy)]
pub struct TxReceipt {
    pub status: bool,
    pub effective_gas_price: u128,
}

/// A transaction of a block, with its receipt where that was asked for and got.
pub struct TxSample {
    pub to: Option<[u8; 20]>,
    pub input: Vec<u8>,
    pub receipt: Option<TxReceipt>,
}

/// A block.
pub struct BlockSample {
    pub base_fee_per_gas: Option<u64>,
    pub txs: Vec<TxSample>,
}

/// Whether a transaction calls `mine` of the contract.
pub open spec fn calls_mine(contract: [u8; 20], to: Option<[u8; 20]>, input: Seq<u8>) -> bool {
    &&& to matches Some(a) && a@ == contract@
    &&& input.len() >= 4
    &&& input.take(4) == mine_selector()
}

/// The priority fee that a transaction paid, where it succeeded and paid one.
pub open spec fn tip_paid(base_fee: u128, receipt: Option<TxReceipt>) -> Option<u128> {
    match receipt {
        Some(r) => if r.status && r.effective_gas_price > base_fee {
            Some((r.effective_gas_price - base_fee) as u128)
        } else {
            None
        },
        None => None,
    }
}

/// The base fee of a block: zero where it states none.
pub open spec fn block_base_fee(b: BlockSample) -> u128 {
    match b.base_fee_per_gas {
        Some(f) => f as u128,
        None => 0,
    }
}

/// The priority fees paid by the `mine` calls among the first `n` transactions
/// of a block, in order.
pub open spec fn block_tips(contract: [u8; 20], b: BlockSample, n: nat) -> Seq<u128>
    decreases n,
{
    if n == 0 {
        Seq::empty()
    } else {
        let before = block_tips(contract, b, (n - 1) as nat);
        let tx = b.txs@[n - 1];
        if calls_mine(contract, tx.to, tx.input@) {
            match tip_paid(block_base_fee(b), tx.receipt) {
                Some(t) => before.push(t),
                None => before,
            }
        } else {
            before
        }
    }
}

/// Every tip of a block was paid by one of its `mine` calls that succeeded, on
/// top of the base fee.
pub proof fn law_every_tip_was_paid(contract: [u8; 20], b: BlockSample, n: nat, k: int) -> (i: int)
    requires
        n <= b.txs@.len(),
        0 <= k < block_tips(contract, b, n).len(),
    ensures
        0 <= i < n,
        calls_mine(contract, b.txs@[i].to, b.txs@[i].input@),
        b.txs@[i].receipt is Some,
        b.txs@[i].receipt->0.status,
        b.txs@[i].receipt->0.effective_gas_price == block_base_fee(b) + block_tips(
            contract,
            b,
            n,
        )[k],
        block_tips(contract, b, n)[k] > 0,
    decreases n,
{
    let before = block_tips(contract, b, (n - 1) as nat);
    if k < before.len() {
        law_every_tip_was_paid(contract, b, (n - 1) as nat, k)
    } else {
        n - 1
    }
}

/// A call is one of `mine` exactly where it goes to the contract and its first
/// four bytes are the selector.
pub proof fn law_mine_calls(contract: [u8; 20], to: Option<[u8; 20]>, input: Seq<u8>)
    ensures
        calls_mine(contract, to, input) <==> to is Some && to->0@ == contract@ && input.len() >= 4
            && input[0] == 0x4d && input[1] == 0x47 && input[2] == 0x48 && input[3] == 0x98,
{
    if input.len() >= 4 {
        let head = input.take(4);
        assert(head[0] == input[0] && head[1] == input[1] && head[2] == input[2] && head[3]
            == input[3]);
        if input[0] == 0x4d && input[1] == 0x47 && input[2] == 0x48 && input[3] == 0x98 {
            assert(head =~= mine_selector());
        }
    }
}

/// A transaction adds one tip, what it paid above the base fee, where it is a
/// call of `mine` that succeeded and paid more; all others add nothing.
pub proof fn law_each_transaction_adds_its_tip(contract: [u8; 20], b: BlockSample, n: nat, fee: int)
    requires
        n < b.txs@.len(),
        fee == match b.base_fee_per_gas {
            Some(f) => f as int,
            None => 0,
        },
    ensures
        block_tips(contract, b, 0).len() == 0,
        (b.txs@[n as int].to is Some && b.txs@[n as int].to->0@ == contract@ && b.txs@[n as int].input@.len() >= 4
            && b.txs@[n as int].input@[0] == 0x4d && b.txs@[n as int].input@[1] == 0x47 && b.txs@[n as int].input@[2]
            == 0x48 && b.txs@[n as int].input@[3] == 0x98 && b.txs@[n as int].receipt is Some
            && b.txs@[n as int].receipt->0.status && b.txs@[n as int].receipt->0.effective_gas_price > fee) ==> block_tips(contract, b, n + 1) == block_tips(contract, b, n).push(
            (b.txs@[n as int].receipt->0.effective_gas_price - fee) as u128,
        ),
        !(b.txs@[n as int].to is Some && b.txs@[n as int].to->0@ == contract@ && b.txs@[n as int].input@.len() >= 4
            && b.txs@[n as int].input@[0] == 0x4d && b.txs@[n as int].input@[1] == 0x47 && b.txs@[n as int].input@[2]
            == 0x48 && b.txs@[n as int].input@[3] == 0x98 && b.txs@[n as int].receipt is Some
            && b.txs@[n as int].receipt->0.status && b.txs@[n as int].receipt->0.effective_gas_price > fee) ==> block_tips(contract, b, n + 1) == block_tips(contract, b, n),
{
    law_mine_calls(contract, b.txs@[n as int].to, b.txs@[n as int].input@);
}

/// No tip is left out, and none is counted twice: what each successful call of
/// `mine` paid above the base fee is among the tips, and there are as many tips
/// as such calls.
pub proof fn law_no_tip_is_left_out(contract: [u8; 20], b: BlockSample, n: nat, fee: int)
    requires
        n <= b.txs@.len(),
        fee == match b.base_fee_per_gas {
            Some(f) => f as int,
            None => 0,
        },
    ensures
        forall|i: int|
            0 <= i < n && (b.txs@[i].to is Some && b.txs@[i].to->0@ == contract@ && b.txs@[i].input@.len() >= 4
                && b.txs@[i].input@[0] == 0x4d && b.txs@[i].input@[1] == 0x47 && b.txs@[i].input@[2]
                == 0x48 && b.txs@[i].input@[3] == 0x98 && b.txs@[i].receipt is Some
                && b.txs@[i].receipt->0.status && b.txs@[i].receipt->0.effective_gas_price > fee) ==> block_tips(contract, b, n).contains(
                ((#[trigger] b.txs@[i]).receipt->0.effective_gas_price - fee) as u128,
            ),
        Set::new(
            |i: int|
                0 <= i < n && b.txs@[i].to is Some && b.txs@[i].to->0@ == contract@ && b.txs@[i].input@.len() >= 4
                    && b.txs@[i].input@[0] == 0x4d && b.txs@[i].input@[1] == 0x47 && b.txs@[i].input@[2]
                    == 0x48 && b.txs@[i].input@[3] == 0x98 && b.txs@[i].receipt is Some
                    && b.txs@[i].receipt->0.status && b.txs@[i].receipt->0.effective_gas_price > fee,
        ).finite(),
        block_tips(contract, b, n).len() == Set::new(
            |i: int|
                0 <= i < n && b.txs@[i].to is Some && b.txs@[i].to->0@ == contract@ && b.txs@[i].input@.len() >= 4
                    && b.txs@[i].input@[0] == 0x4d && b.txs@[i].input@[1] == 0x47 && b.txs@[i].input@[2]
                    == 0x48 && b.txs@[i].input@[3] == 0x98 && b.txs@[i].receipt is Some
                    && b.txs@[i].receipt->0.status && b.txs@[i].receipt->0.effective_gas_price > fee,
        ).len(),
    decreases n,
{
    let payers = Set::new(
        |i: int|
            0 <= i < n && b.txs@[i].to is Some && b.txs@[i].to->0@ == contract@ && b.txs@[i].input@.len() >= 4
                && b.txs@[i].input@[0] == 0x4d && b.txs@[i].input@[1] == 0x47 && b.txs@[i].input@[2]
                == 0x48 && b.txs@[i].input@[3] == 0x98 && b.txs@[i].receipt is Some
                && b.txs@[i].receipt->0.status && b.txs@[i].receipt->0.effective_gas_price > fee,
    );
    if n == 0 {
        assert(payers =~= Set::empty());
    } else {
        let m = (n - 1) as nat;
        let fewer = Set::new(
            |i: int|
                0 <= i < m && b.txs@[i].to is Some && b.txs@[i].to->0@ == contract@ && b.txs@[i].input@.len() >= 4
                    && b.txs@[i].input@[0] == 0x4d && b.txs@[i].input@[1] == 0x47 && b.txs@[i].input@[2]
                    == 0x48 && b.txs@[i].input@[3] == 0x98 && b.txs@[i].receipt is Some
                    && b.txs@[i].receipt->0.status && b.txs@[i].receipt->0.effective_gas_price > fee,
        );
        law_no_tip_is_left_out(contract, b, m, fee);
        law_each_transaction_adds_its_tip(contract, b, m, fee);
        let (s, t) = (block_tips(contract, b, m), block_tips(contract, b, n));
        if t.len() > s.len() {
            assert(payers =~= fewer.insert(m as int));
            assert(t[s.len() as int] == (b.txs@[m as int].receipt->0.effective_gas_price - fee) as u128);
        } else {
            assert(payers =~= fewer);
        }
        assert forall|x: u128| s.contains(x) implies t.contains(x) by {
            let k = choose|k: int| 0 <= k < s.len() && s[k] == x;
            assert(t[k] == x);
        }
        assert forall|i: int|
            0 <= i < n && (b.txs@[i].to is Some && b.txs@[i].to->0@ == contract@ && b.txs@[i].input@.len() >= 4
                && b.txs@[i].input@[0] == 0x4d && b.txs@[i].input@[1] == 0x47 && b.txs@[i].input@[2]
                == 0x48 && b.txs@[i].input@[3] == 0x98 && b.txs@[i].receipt is Some
                && b.txs@[i].receipt->0.status && b.txs@[i].receipt->0.effective_gas_price > fee) implies t.contains(
            ((#[trigger] b.txs@[i]).receipt->0.effective_gas_price - fee) as u128,
        ) by {
            if i < m {
                assert(s.contains((b.txs@[i].receipt->0.effective_gas_price - fee) as u128));
            } else {
                assert(payers.contains(m as int));
            }
        }
    }
}

/// How many numbers are below `t`.
pub open spec fn count_below(s: Seq<u128>, t: int) -> nat
    decreases s.len(),
{
    if s.len() == 0 {
        0
    } else {
        count_below(s.drop_last(), t) + if s.last() < t {
            1nat
        } else {
            0nat
        }
    }
}

/// Whether `t` has the rank `k` among the numbers: it stands at position `k`
/// where they are put in ascending order.
pub open spec fn has_rank(s: Seq<u128>, k: int, t: u128) -> bool {
    count_below(s, t as int) <= k < count_below(s, t + 1)
}

/// More numbers are below a larger bound.
proof fn lemma_count_rises(s: Seq<u128>, t: int, u: int)
    requires
        t <= u,
    ensures
        count_below(s, t) <= count_below(s, u) <= s.len(),
    decreases s.len(),
{
    if s.len() > 0 {
        lemma_count_rises(s.drop_last(), t, u);
    }
}

/// One number only has a given rank, and it is among the numbers.
pub proof fn law_rank_fixes_the_tip(s: Seq<u128>, k: int, t: u128, u: u128)
    requires
        has_rank(s, k, t),
        has_rank(s, k, u),
    ensures
        t == u,
        s.contains(t),
{
    if t < u {
        lemma_count_rises(s, t + 1, u as int);
    } else if u < t {
        lemma_count_rises(s, u + 1, t as int);
    }
    lemma_counted(s, t);
}

/// A higher rank never gives a lower tip.
pub proof fn law_tips_rise_with_rank(s: Seq<u128>, k: int, t: u128, l: int, u: u128)
    requires
        has_rank(s, k, t),
        has_rank(s, l, u),
        k <= l,
    ensures
        t <= u,
{
    if u < t {
        lemma_count_rises(s, u + 1, t as int);
    }
}

/// A number that is counted is there.
proof fn lemma_counted(s: Seq<u128>, t: u128)
    requires
        count_below(s, t as int) < count_below(s, t + 1),
    ensures
        s.contains(t),
    decreases s.len(),
{
    if s.last() == t {
        assert(s[s.len() - 1] == t);
    } else {
        lemma_counted(s.drop_last(), t);
        let i = choose|i: int| 0 <= i < s.len() - 1 && s.drop_last()[i] == t;
        assert(s[i] == t);
    }
}

/// Counting with one number more, wherever it stands.
proof fn lemma_count_insert(s: Seq<u128>, p: int, x: u128, t: int)
    requires
        0 <= p <= s.len(),
    ensures
        count_below(s.insert(p, x), t) == count_below(s, t) + if x < t {
            1nat
        } else {
            0nat
        },
    decreases s.len(),
{
    let i = s.insert(p, x);
    if p == s.len() {
        assert(i.drop_last() =~= s);
    } else {
        assert(i.drop_last() =~= s.drop_last().insert(p, x));
        assert(i.last() == s.last());
        lemma_count_insert(s.drop_last(), p, x, t);
    }
}

/// In ascending order, what is below the number at `k` stands before it.
proof fn lemma_sorted_rank(s: Seq<u128>, k: int)
    requires
        0 <= k < s.len(),
        forall|i: int, j: int| 0 <= i <= j < s.len() ==> s[i] <= s[j],
    ensures
        has_rank(s, k, s[k]),
{
    let t = s[k];
    lemma_all_below(s.take(k + 1), t + 1);
    lemma_prefix_counts(s, t + 1, k + 1, s.len() as int);
    lemma_none_below(s, t as int, k);
    lemma_count_rises(s.take(k), t as int, t as int);
}

/// A prefix counts no more than the whole.
proof fn lemma_prefix_counts(s: Seq<u128>, t: int, m: int, n: int)
    requires
        0 <= m <= n <= s.len(),
    ensures
        count_below(s.take(m), t) <= count_below(s.take(n), t),
        s.take(s.len() as int) == s,
    decreases n - m,
{
    assert(s.take(s.len() as int) =~= s);
    if m < n {
        lemma_prefix_counts(s, t, m, n - 1);
        assert(s.take(n).drop_last() =~= s.take(n - 1));
    }
}

/// Where all numbers are below the bound, all are counted.
proof fn lemma_all_below(s: Seq<u128>, t: int)
    requires
        forall|i: int| 0 <= i < s.len() ==> s[i] < t,
    ensures
        count_below(s, t) == s.len(),
    decreases s.len(),
{
    if s.len() > 0 {
        assert(s.last() == s[s.len() - 1]);
        lemma_all_below(s.drop_last(), t);
    }
}

/// Where no number from `k` on is below the bound, the first `k` are all that
/// count.
proof fn lemma_none_below(s: Seq<u128>, t: int, k: int)
    requires
        0 <= k <= s.len(),
        forall|i: int| k <= i < s.len() ==> s[i] >= t,
    ensures
        count_below(s, t) == count_below(s.take(k), t),
    decreases s.len(),
{
    if s.len() > k {
        assert(s.last() == s[s.len() - 1]);
        lemma_none_below(s.drop_last(), t, k);
        assert(s.drop_last().take(k) =~= s.take(k));
    } else {
        assert(s.take(k) =~= s);
    }
}

/// Where a number is put in makes no difference to which numbers there are.
proof fn lemma_multiset_insert(s: Seq<u128>, p: int, x: u128)
    requires
        0 <= p <= s.len(),
    ensures
        s.insert(p, x).to_multiset() == s.to_multiset().insert(x),
{
    let t = s.insert(p, x);
    assert(t.remove(p) =~= s);
    assert(t[p] == x);
    t.to_multiset_ensures();
    assert(t.contains(x));
    assert(t.to_multiset() =~= s.to_multiset().insert(x));
}

/// The numbers in ascending order.
fn ascending(v: &Vec<u128>) -> (s: Vec<u128>)
    ensures
        s@.len() == v@.len(),
        forall|i: int, j: int| 0 <= i <= j < s@.len() ==> s@[i] <= s@[j],
        forall|t: int| #[trigger] count_below(s@, t) == count_below(v@, t),
        s@.to_multiset() == v@.to_multiset(),
{
    let mut s: Vec<u128> = Vec::new();
    let mut n: usize = 0;
    assert(v@.take(0) =~= s@);
    while n < v.len()
        invariant
            n <= v@.len(),
            s@.len() == n,
            forall|i: int, j: int| 0 <= i <= j < s@.len() ==> s@[i] <= s@[j],
            forall|t: int| #[trigger] count_below(s@, t) == count_below(v@.take(n as int), t),
            s@.to_multiset() == v@.take(n as int).to_multiset(),
        decreases v.len() - n,
    {
        let x: u128 = v[n];
        let mut p: usize = n;
        while p > 0 && s[p - 1] > x
            invariant
                p <= n == s@.len(),
                forall|i: int| p <= i < n ==> s@[i] > x,
            decreases p,
        {
            p = p - 1;
        }
        let ghost before = s@;
        s.insert(p, x);
        proof {
            lemma_multiset_insert(before, p as int, x);
            assert(v@.take(n + 1) =~= v@.take(n as int).push(x));
            to_multiset_build(v@.take(n as int), x);
            assert forall|t: int| #[trigger] count_below(s@, t) == count_below(
                v@.take(n + 1),
                t,
            ) by {
                lemma_count_insert(before, p as int, x, t);
                assert(v@.take(n + 1).drop_last() =~= v@.take(n as int));
                assert(count_below(before, t) == count_below(v@.take(n as int), t));
            }
        }
        n = n + 1;
    }
    assert(v@.take(v@.len() as int) =~= v@);
    s
}

/// A scan of the market, block by block from the latest.
pub struct MarketScan {
    pub contract: [u8; 20],
    pub latest: u64,
    pub n_blocks: u64,
    /// The blocks that were asked for.
    pub offset: u64,
    /// The priority fees found.
    pub tips: Vec<u128>,
}

/// Whether two addresses are equal.
fn same_address(a: &[u8; 20], b: &[u8; 20]) -> (r: bool)
    ensures
        r == (a@ == b@),
{
    let mut i: usize = 0;
    while i < 20
        invariant
            i <= 20,
            forall|j: int| 0 <= j < i ==> a@[j] == b@[j],
        decreases 20 - i,
    {
        if a[i] != b[i] {
            return false;
        }
        i = i + 1;
    }
    assert(a@ =~= b@);
    true
}

/// The block that a scan of `n_blocks` blocks looks at after `k` others; nothing
/// after the last of them, or after block zero.
pub open spec fn scanned_block(latest: u64, n_blocks: u64, k: u64) -> Option<u64> {
    if k < n_blocks && k <= latest {
        Some((latest - k) as u64)
    } else {
        None
    }
}

/// A scan looks at the latest `n_blocks` blocks, or at all there are where they
/// are fewer, and at each of them once.
pub proof fn law_each_block_counts_once(latest: u64, n_blocks: u64, block: u64)
    ensures
        (exists|k: u64| #[trigger] scanned_block(latest, n_blocks, k) == Some(block)) <==> block
            <= latest && latest - block < n_blocks,
        forall|i: u64, j: u64|
            #[trigger] scanned_block(latest, n_blocks, i) == Some(block)
                && #[trigger] scanned_block(latest, n_blocks, j) == Some(block) ==> i == j,
        forall|i: u64, j: u64|
            i < j && (#[trigger] scanned_block(latest, n_blocks, j)) is Some ==> (
            #[trigger] scanned_block(latest, n_blocks, i)) is Some && scanned_block(
                latest,
                n_blocks,
                i,
            )->0 > scanned_block(latest, n_blocks, j)->0,
{
    if block <= latest && latest - block < n_blocks {
        assert(scanned_block(latest, n_blocks, (latest - block) as u64) == Some(block));
    }
}

/// The miner's own transactions are among those that the market is made of.
pub proof fn law_own_transactions_are_mine_calls(
    ctx: ChainCtx,
    nonce: u64,
    tip_wei: u128,
    tx: MineTx,
)
    requires
        is_mine_tx(ctx, nonce, tip_wei, tx),
    ensures
        calls_mine(ctx.contract, Some(tx.to), tx.input@),
{
    lemma_be_bytes_len(nonce as nat, 32);
    assert(mine_input(nonce).take(4) =~= mine_selector());
}

impl ChainCtx {
    /// Begins a scan of the `n_blocks` blocks up to the latest.
    pub fn fetch_market_tip(&self, latest: u64, n_blocks: u64) -> (s: MarketScan)
        ensures
            s.contract == self.contract,
            s.latest == latest,
            s.n_blocks == n_blocks,
            s.offset == 0,
            s.tips@ == Seq::<u128>::empty(),
    {
        MarketScan { contract: self.contract, latest, n_blocks, offset: 0, tips: Vec::new() }
    }
}

impl MarketScan {
    /// The number of the next block to look at, from the latest back; nothing
    /// once all were asked for, or where there is no block before.
    pub fn next_block(&mut self) -> (n: Option<u64>)
        ensures
            n == scanned_block(old(self).latest, old(self).n_blocks, old(self).offset),
            *final(self) == match n {
                Some(_) => (MarketScan { offset: (old(self).offset + 1) as u64, ..*old(self) }),
                None => *old(self),
            },
    {
        if self.offset >= self.n_blocks || self.offset > self.latest {
            return None;
        }
        let n: u64 = self.latest - self.offset;
        self.offset = self.offset + 1;
        Some(n)
    }

    /// Whether the receipt of a transaction matters: only that of a `mine` call
    /// does.
    pub fn wants_receipt(&self, to: &Option<[u8; 20]>, input: &[u8]) -> (r: bool)
        ensures
            r == calls_mine(self.contract, *to, input@),
            r <==> *to is Some && to->0@ == self.contract@ && input@.len() >= 4 && input@[0] == 0x4d
                && input@[1] == 0x47 && input@[2] == 0x48 && input@[3] == 0x98,
    {
        proof {
            law_mine_calls(self.contract, *to, input@);
        }
        match to {
            Some(a) => {
                if !same_address(a, &self.contract) || input.len() < 4 {
                    return false;
                }
                let r: bool = input[0] == 0x4d && input[1] == 0x47 && input[2] == 0x48 && input[3]
                    == 0x98;
                proof {
                    let head = input@.take(4);
                    if r {
                        assert(head =~= mine_selector());
                    } else {
                        assert(head[0] == input@[0] && head[1] == input@[1] && head[2] == input@[2]
                            && head[3] == input@[3]);
                    }
                }
                r
            },
            None => false,
        }
    }

    /// Adds the priority fees that the `mine` calls of a block paid.
    pub fn add_block(&mut self, block: &BlockSample)
        ensures
            final(self).tips@ == old(self).tips@ + block_tips(
                old(self).contract,
                *block,
                block.txs@.len(),
            ),
            forall|i: int|
                0 <= i < block.txs@.len() && block.txs@[i].to is Some && block.txs@[i].to->0@ == old(
                    self,
                ).contract@ && block.txs@[i].input@.len() >= 4 && block.txs@[i].input@[0] == 0x4d
                    && block.txs@[i].input@[1] == 0x47 && block.txs@[i].input@[2] == 0x48
                    && block.txs@[i].input@[3] == 0x98 && block.txs@[i].receipt is Some
                    && block.txs@[i].receipt->0.status
                    && block.txs@[i].receipt->0.effective_gas_price > (
                match block.base_fee_per_gas {
                    Some(f) => f as int,
                    None => 0,
                }) ==> final(self).tips@.contains(
                    ((#[trigger] block.txs@[i]).receipt->0.effective_gas_price - (
                    match block.base_fee_per_gas {
                        Some(f) => f as int,
                        None => 0,
                    })) as u128,
                ),
            final(self).contract == old(self).contract,
            final(self).latest == old(self).latest,
            final(self).n_blocks == old(self).n_blocks,
            final(self).offset == old(self).offset,
    {
        let base_fee: u128 = block.base_fee_per_gas.unwrap_or(0) as u128;
        let mut i: usize = 0;
        assert(self.tips@ =~= old(self).tips@ + Seq::<u128>::empty());
        while i < block.txs.len()
            invariant
                i <= block.txs@.len(),
                base_fee == block_base_fee(*block),
                self.tips@ == old(self).tips@ + block_tips(old(self).contract, *block, i as nat),
                self.contract == old(self).contract,
                self.latest == old(self).latest,
                self.n_blocks == old(self).n_blocks,
                self.offset == old(self).offset,
            decreases block.txs.len() - i,
        {
            let tx = &block.txs[i];
            let ghost sofar = block_tips(old(self).contract, *block, i as nat);
            if self.wants_receipt(&tx.to, tx.input.as_slice()) {
                match tx.receipt {
                    Some(r) => {
                        if r.status && r.effective_gas_price > base_fee {
                            let tip: u128 = r.effective_gas_price - base_fee;
                            self.tips.push(tip);
                            assert(self.tips@ =~= old(self).tips@ + sofar.push(tip));
                        }
                    },
                    None => {},
                }
            }
            i = i + 1;
        }
        proof {
            let fee = match block.base_fee_per_gas {
                Some(f) => f as int,
                None => 0,
            };
            law_no_tip_is_left_out(old(self).contract, *block, block.txs@.len(), fee);
            let added = block_tips(old(self).contract, *block, block.txs@.len());
            assert forall|x: u128| added.contains(x) implies self.tips@.contains(x) by {
                let k = choose|k: int| 0 <= k < added.len() && added[k] == x;
                assert(self.tips@[old(self).tips@.len() + k] == x);
            }
        }
    }

    /// How many priority fees were found.
    pub fn samples(&self) -> (n: usize)
        ensures
            n == self.tips@.len(),
    {
        self.tips.len()
    }

    /// The priority fee at a rank, in ascending order, the highest where the
    /// rank is too high; nothing without samples.
    pub fn tip_at(&self, rank: usize) -> (tip: Option<u128>)
        ensures
            tip is None <==> self.tips@.len() == 0,
            tip matches Some(t) ==> has_rank(
                self.tips@,
                if rank < self.tips@.len() {
                    rank as int
                } else {
                    self.tips@.len() - 1
                },
                t,
            ),
            tip matches Some(t) ==> exists|sorted: Seq<u128>|
                #![trigger sorted.to_multiset()]
                sorted.to_multiset() == self.tips@.to_multiset() && (forall|i: int, j: int|
                    0 <= i <= j < sorted.len() ==> sorted[i] <= sorted[j]) && t == sorted[if rank
                    < sorted.len() {
                    rank as int
                } else {
                    sorted.len() - 1
                }],
    {
        let n: usize = self.tips.len();
        if n == 0 {
            return None;
        }
        let s: Vec<u128> = ascending(&self.tips);
        let k: usize = if rank < n {
            rank
        } else {
            n - 1
        };
        proof {
            lemma_sorted_rank(s@, k as int);
            let t = s@[k as int];
            assert(count_below(s@, t as int) == count_below(self.tips@, t as int));
            assert(count_below(s@, t + 1) == count_below(self.tips@, t + 1));
            assert(s@.to_multiset() == self.tips@.to_multiset());
        }
        Some(s[k])
    }
}

/// A number has a rank exactly where it stands there once the numbers are put in
/// ascending order.
pub proof fn law_rank_is_the_place_in_order(s: Seq<u128>, sorted: Seq<u128>, k: int, t: u128)
    requires
        sorted.to_multiset() == s.to_multiset(),
        forall|i: int, j: int| 0 <= i <= j < sorted.len() ==> sorted[i] <= sorted[j],
        0 <= k < sorted.len(),
    ensures
        has_rank(s, k, t) <==> t == sorted[k],
{
    lemma_count_of_multiset(sorted, s, sorted[k] as int);
    lemma_count_of_multiset(sorted, s, sorted[k] + 1);
    lemma_sorted_rank(sorted, k);
    if has_rank(s, k, t) {
        law_rank_fixes_the_tip(s, k, t, sorted[k]);
    }
}

/// How many numbers are below a bound does not depend on their order.
proof fn lemma_count_of_multiset(s: Seq<u128>, t: Seq<u128>, bound: int)
    requires
        s.to_multiset() == t.to_multiset(),
    ensures
        count_below(s, bound) == count_below(t, bound),
    decreases s.len(),
{
    s.to_multiset_ensures();
    t.to_multiset_ensures();
    if s.len() > 0 {
        let x = s.last();
        assert(s[s.len() - 1] == x);
        assert(s.contains(x));
        assert(s.to_multiset().count(x) > 0);
        assert(t.to_multiset().count(x) > 0);
        assert(t.contains(x));
        let p = choose|p: int| 0 <= p < t.len() && t[p] == x;
        let (a, b) = (s.drop_last(), t.remove(p));
        assert(s.remove(s.len() - 1) =~= a);
        assert(b.insert(p, x) =~= t);
        lemma_count_of_multiset(a, b, bound);
        lemma_count_insert(b, p, x, bound);
    }
}

} // verus!
