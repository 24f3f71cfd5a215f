//! The chain: what the miner knows of it, the account nonces it hands out, and
//! what becomes of a transaction.

use crate::account::{parse_address, parse_signer};
use crate::bytes::{same_bytes, word_of_u64};
use crate::text::chars_of;
use crate::word::{word_to_i128, word_to_u128, word_to_u64};
use vstd::prelude::*;
use vstd::string::*;

verus! {

use crate::account::{hex_bytes, hex_digit, key_address, signer_of};
use crate::bytes::{be_bytes, be_nat, law_big_endian, lemma_be_nat_bound, lemma_be_nat_concat, lemma_be_read_of_write, lemma_pow256_8, pow256};
use crate::text::{has_prefix, repeated};
use crate::word::signed_value;

/// The address of Chainlink's ETH/USD oracle.
pub const CHAINLINK_ETH_USD: &'static str = "0x5f4eC3Df9cbd43714FE2740f5E3616155c5b8419";

/// What can go wrong between the miner and the chain.
#[derive(Clone, Copy)]
pub enum ChainError {
    /// The signing key is not one.
    BadPrivateKey,
    /// The contract's address is not one.
    BadContract,
    /// The node gave no latest block.
    NoLatestBlock,
    /// The price service gave no price.
    NoPrice,
    /// The oracle's price is zero or less.
    NonPositivePrice,
}

impl ChainError {
    /// The error in words.
    pub open spec fn text(self) -> Seq<char> {
        match self {
            ChainError::BadPrivateKey => "解析私钥失败"@,
            ChainError::BadContract => "解析合约地址失败"@,
            ChainError::NoLatestBlock => "无法获取最新区块"@,
            ChainError::NoPrice => "DEX Screener 未返回有效 priceUsd"@,
            ChainError::NonPositivePrice => "Chainlink 返回非正价格"@,
        }
    }

    /// The error in words.
    pub fn message(&self) -> (t: String)
        ensures
            t@ == self.text(),
    {
        match self {
            ChainError::BadPrivateKey => "解析私钥失败".to_owned(),
            ChainError::BadContract => "解析合约地址失败".to_owned(),
            ChainError::NoLatestBlock => "无法获取最新区块".to_owned(),
            ChainError::NoPrice => "DEX Screener 未返回有效 priceUsd".to_owned(),
            ChainError::NonPositivePrice => "Chainlink 返回非正价格".to_owned(),
        }
    }
}

/// What the miner needs to talk to the chain.
pub struct ChainCtx {
    pub miner: [u8; 20],
    pub contract: [u8; 20],
    pub read_rpc: String,
    pub submit_rpc: String,
    /// The signing key, as the text that was accepted.
    pub signer_key: String,
    pub submit_timeout_secs: u64,
    pub wait_confirmations: u64,
    /// The account nonce that the next transaction takes.
    pub next_nonce: u64,
}

/// The state of an epoch, in 32-byte words.
#[derive(Clone, Copy)]
pub struct EpochSnapshot {
    pub challenge: [u8; 32],
    pub difficulty: [u8; 32],
    pub reward: [u8; 32],
    pub blocks_left: [u8; 32],
}

/// What became of a transaction.
pub enum SubmitOutcome {
    Confirmed { tx_hash: [u8; 32], block: u64, gas_used: u64 },
    Reverted { tx_hash: [u8; 32], reason: String },
    /// No receipt in time, and the challenge has changed since.
    TimeoutChallengeChanged { tx_hash: [u8; 32] },
    /// No receipt in time, and the challenge is the same: the transaction was
    /// most likely dropped.
    TimeoutDropped { tx_hash: [u8; 32] },
}

/// Text without the `0x`s that it begins with.
pub open spec fn strip_0x(s: Seq<char>) -> Seq<char>
    decreases s.len(),
{
    if s.len() >= 2 && s[0] == '0' && s[1] == 'x' {
        strip_0x(s.skip(2))
    } else {
        s
    }
}

/// The text that is taken for the signing key: without `0x`, or else as it was
/// given.
pub open spec fn key_used(private_key: Seq<char>) -> Seq<char> {
    if signer_of(strip_0x(private_key)) is Some {
        strip_0x(private_key)
    } else {
        private_key
    }
}

/// Text without the `0x`s that it begins with.
fn without_0x(s: &str) -> (r: String)
    ensures
        r@ == strip_0x(s@),
{
    let v: Vec<char> = chars_of(s);
    let n: usize = v.len();
    let mut i: usize = 0;
    assert(s@.skip(0) =~= s@);
    while n - i >= 2 && v[i] == '0' && v[i + 1] == 'x'
        invariant
            v@ == s@,
            i <= n == v@.len(),
            strip_0x(s@) == strip_0x(s@.skip(i as int)),
        decreases n - i,
    {
        assert(s@.skip(i as int).skip(2) =~= s@.skip(i + 2));
        i = i + 2;
    }
    assert(s@.subrange(i as int, n as int) =~= s@.skip(i as int));
    s.substring_char(i, n).to_owned()
}

impl ChainCtx {
    /// Reads the signing key and the contract's address; the pool of account
    /// nonces begins at zero.
    pub fn new(
        private_key: &str,
        contract: &str,
        read_rpc: String,
        submit_rpc: String,
        submit_timeout_secs: u64,
        wait_confirmations: u64,
    ) -> (r: Result<ChainCtx, ChainError>)
        ensures
            match r {
                Ok(c) => {
                    &&& signer_of(key_used(private_key@)) == Some(c.miner@)
                    &&& hex_bytes(contract@, 20) == Some(c.contract@)
                    &&& c.signer_key@ == key_used(private_key@)
                    &&& c.read_rpc == read_rpc
                    &&& c.submit_rpc == submit_rpc
                    &&& c.submit_timeout_secs == submit_timeout_secs
                    &&& c.wait_confirmations == wait_confirmations
                    &&& c.next_nonce == 0
                },
                Err(e) => {
                    ||| e == ChainError::BadPrivateKey && signer_of(
                        key_used(private_key@),
                    ) is None
                    ||| e == ChainError::BadContract && signer_of(key_used(private_key@)) is Some
                        && hex_bytes(contract@, 20) is None
                },
            },
    {
        let stripped: String = without_0x(private_key);
        let (signer_key, miner): (String, [u8; 20]) = match parse_signer(stripped.as_str()) {
            Ok(a) => (stripped, a),
            Err(_) => match parse_signer(private_key) {
                Ok(a) => (private_key.to_owned(), a),
                Err(_) => {
                    return Err(ChainError::BadPrivateKey);
                },
            },
        };
        match parse_address(contract) {
            Ok(contract) => Ok(
                ChainCtx {
                    miner,
                    contract,
                    read_rpc,
                    submit_rpc,
                    signer_key,
                    submit_timeout_secs,
                    wait_confirmations,
                    next_nonce: 0,
                },
            ),
            Err(_) => Err(ChainError::BadContract),
        }
    }

    /// Sets the pool to the account's pending nonce.
    pub fn init_nonce(&mut self, pending: u64) -> (n: u64)
        ensures
            n == pending,
            *final(self) == (ChainCtx { next_nonce: pending, ..*old(self) }),
    {
        self.next_nonce = pending;
        pending
    }

    /// Moves the pool up to the account's pending nonce, never down: a nonce
    /// below one that was handed out would be used twice.
    pub fn resync_nonce(&mut self, on_chain: u64) -> (target: u64)
        ensures
            target == pool_step(old(self).next_nonce, PoolStep::Resync(on_chain)),
            target >= on_chain,
            target >= old(self).next_nonce,
            target == on_chain || target == old(self).next_nonce,
            *final(self) == (ChainCtx { next_nonce: target, ..*old(self) }),
    {
        if on_chain > self.next_nonce {
            self.next_nonce = on_chain;
        }
        self.next_nonce
    }

    /// Begins a transaction that submits `nonce` and pays a priority fee of
    /// `tip_wei` for each gas: it takes the next account nonce out of the pool.
    pub fn submit_mine(&mut self, nonce: u64, tip_wei: u128) -> (tx: MineTx)
        ensures
            is_mine_tx(*old(self), nonce, tip_wei, tx),
            tx.to@ == old(self).contract@,
            be_nat(tx.input@.skip(4)) == nonce,
            tx.account_nonce == old(self).next_nonce,
            tx.max_priority_fee_per_gas == tip_wei,
            *final(self) == (ChainCtx {
                next_nonce: pool_step(old(self).next_nonce, PoolStep::Take),
                ..*old(self)
            }),
    {
        let account_nonce: u64 = self.next_nonce;
        self.next_nonce = account_nonce.wrapping_add(1);
        proof {
            law_call_reads_back(nonce);
        }
        MineTx {
            nonce,
            to: self.contract,
            input: mine_call(nonce),
            account_nonce,
            max_priority_fee_per_gas: tip_wei,
            confirmations: self.wait_confirmations,
            timeout_secs: self.submit_timeout_secs,
        }
    }

    /// The snapshot of the words that the contract's getters gave.
    pub fn snapshot(
        challenge: [u8; 32],
        difficulty: [u8; 32],
        reward: [u8; 32],
        blocks_left: [u8; 32],
    ) -> (s: EpochSnapshot)
        ensures
            s == (EpochSnapshot { challenge, difficulty, reward, blocks_left }),
    {
        EpochSnapshot { challenge, difficulty, reward, blocks_left }
    }

    /// The challenge, and the blocks left as a 64-bit number, held at the
    /// largest.
    pub fn fetch_challenge_and_blocks_left(challenge: [u8; 32], blocks_left: &[u8; 32]) -> (r: (
        [u8; 32],
        u64,
    ))
        ensures
            r.0 == challenge,
            r.1 == held_u64(be_nat(blocks_left@)),
    {
        (challenge, word_to_u64(blocks_left).unwrap_or(u64::MAX))
    }

    /// The reward in its smallest unit; zero where it does not fit.
    pub fn fetch_reward_hash(reward: &[u8; 32]) -> (raw: u128)
        ensures
            raw == if be_nat(reward@) <= u128::MAX {
                be_nat(reward@)
            } else {
                0
            },
    {
        word_to_u128(reward).unwrap_or(0)
    }

    /// The base fee of the latest block, in wei; zero where the block has none.
    pub fn fetch_base_fee(latest: Option<BlockFee>) -> (r: Result<u128, ChainError>)
        ensures
            r == match latest {
                Some(b) => Ok::<u128, ChainError>(base_fee_of(b)),
                None => Err(ChainError::NoLatestBlock),
            },
            latest matches Some(b) ==> r is Ok && r->Ok_0 == match b.base_fee_per_gas {
                Some(f) => f as int,
                None => 0,
            },
    {
        match latest {
            Some(b) => Ok(b.base_fee_per_gas.unwrap_or(0) as u128),
            None => Err(ChainError::NoLatestBlock),
        }
    }

    /// The oracle's price, in hundred-millionths of a dollar: only a price above
    /// zero is one.
    pub fn fetch_eth_usd(answer: &[u8; 32]) -> (r: Result<i128, ChainError>)
        ensures
            r == if 0 < signed_value(answer@) <= i128::MAX {
                Ok::<i128, ChainError>(signed_value(answer@) as i128)
            } else {
                Err(ChainError::NonPositivePrice)
            },
    {
        let raw: i128 = word_to_i128(answer).unwrap_or(0);
        if raw <= 0 {
            return Err(ChainError::NonPositivePrice);
        }
        Ok(raw)
    }
}

impl EpochSnapshot {
    /// The blocks left as a 64-bit number, held at the largest.
    pub fn blocks_left_u64(&self) -> (n: u64)
        ensures
            n == held_u64(be_nat(self.blocks_left@)),
    {
        word_to_u64(&self.blocks_left).unwrap_or(u64::MAX)
    }
}

/// A number held at the largest `u64`.
pub open spec fn held_u64(n: nat) -> u64 {
    if n <= u64::MAX {
        n as u64
    } else {
        u64::MAX
    }
}

/// The base fee that a block states, if it does.
#[derive(Clone, Copy)]
pub struct BlockFee {
    pub base_fee_per_gas: Option<u64>,
}

/// The base fee of a block: zero where it states none.
pub open spec fn base_fee_of(b: BlockFee) -> u128 {
    match b.base_fee_per_gas {
        Some(f) => f as u128,
        None => 0,
    }
}

/// A transaction that submits a nonce.
#[derive(Clone, Copy)]
pub struct MineTx {
    pub nonce: u64,
    /// Where it goes.
    pub to: [u8; 20],
    /// The call that it makes there.
    pub input: [u8; 36],
    pub account_nonce: u64,
    /// The priority fee, in wei.
    pub max_priority_fee_per_gas: u128,
    pub confirmations: u64,
    pub timeout_secs: u64,
}

/// Whether `tx` is the transaction that submits `nonce` next: it goes to the
/// contract, calls `mine` there, and has the next account nonce.
pub open spec fn is_mine_tx(ctx: ChainCtx, nonce: u64, tip_wei: u128, tx: MineTx) -> bool {
    &&& tx.nonce == nonce
    &&& tx.to == ctx.contract
    &&& tx.input@ == mine_input(nonce)
    &&& tx.account_nonce == ctx.next_nonce
    &&& tx.max_priority_fee_per_gas == tip_wei
    &&& tx.confirmations == ctx.wait_confirmations
    &&& tx.timeout_secs == ctx.submit_timeout_secs
}

/// The selector of `mine(uint256)`.
pub open spec fn mine_selector() -> Seq<u8> {
    seq![0x4d, 0x47, 0x48, 0x98]
}

/// The call `mine(nonce)`: the selector, then the nonce as a 32-byte big-endian
/// word.
pub open spec fn mine_input(nonce: u64) -> Seq<u8> {
    mine_selector() + be_bytes(nonce as nat, 32)
}

/// The call `mine(nonce)`.
pub fn mine_call(nonce: u64) -> (input: [u8; 36])
    ensures
        input@ == mine_input(nonce),
        be_nat(input@.skip(4)) == nonce,
{
    let word: [u8; 32] = word_of_u64(nonce);
    let mut input: [u8; 36] = [0; 36];
    input[0] = 0x4d;
    input[1] = 0x47;
    input[2] = 0x48;
    input[3] = 0x98;
    let mut i: usize = 0;
    while i < 32
        invariant
            i <= 32,
            input@.take(4) == mine_selector(),
            forall|j: int| 0 <= j < i ==> input@[4 + j] == word@[j],
        decreases 32 - i,
    {
        let ghost before = input@;
        input[4 + i] = word[i];
        assert(input@.take(4) =~= before.take(4));
        i = i + 1;
    }
    assert(input@ =~= mine_selector() + word@) by {
        assert forall|j: int| 0 <= j < 36 implies input@[j] == (mine_selector() + word@)[j] by {
            if j < 4 {
                assert(input@.take(4)[j] == input@[j]);
            } else {
                assert(input@[4 + (j - 4)] == word@[j - 4]);
            }
        }
    }
    assert(input@.skip(4) =~= word@);
    input
}

/// What waiting for a receipt came to.
#[derive(Clone, Copy)]
pub enum Confirmation {
    Receipt { status: bool, block_number: Option<u64>, gas_used: u64 },
    /// No receipt in time, or an error.
    NoReceipt,
}

/// What follows the wait for a receipt.
pub enum SubmitStep {
    /// The transaction's fate is known.
    Done(SubmitOutcome),
    /// It hangs on the challenge as it is now.
    AskChallenge,
}

/// Why a transaction was reverted, as far as can be said.
pub open spec fn revert_reason() -> Seq<char> {
    "合约 revert (可能是 nonce 失效或难度已变)"@
}

/// What becomes of a transaction after the wait for its receipt.
pub fn on_confirmation(tx_hash: [u8; 32], c: Confirmation) -> (step: SubmitStep)
    ensures
        match c {
            Confirmation::Receipt { status: true, block_number, gas_used } => step == SubmitStep::Done(
                SubmitOutcome::Confirmed {
                    tx_hash,
                    block: match block_number {
                        Some(b) => b,
                        None => 0,
                    },
                    gas_used,
                },
            ),
            Confirmation::Receipt { status: false, .. } => step matches SubmitStep::Done(
                SubmitOutcome::Reverted { tx_hash: h, reason },
            ) && h == tx_hash && reason@ == revert_reason(),
            Confirmation::NoReceipt => step is AskChallenge,
        },
{
    match c {
        Confirmation::Receipt { status, block_number, gas_used } => {
            if status {
                SubmitStep::Done(
                    SubmitOutcome::Confirmed {
                        tx_hash,
                        block: block_number.unwrap_or(0),
                        gas_used,
                    },
                )
            } else {
                SubmitStep::Done(
                    SubmitOutcome::Reverted {
                        tx_hash,
                        reason: "合约 revert (可能是 nonce 失效或难度已变)".to_owned(),
                    },
                )
            }
        },
        Confirmation::NoReceipt => SubmitStep::AskChallenge,
    }
}

/// What becomes of a transaction without a receipt: it counts as dropped where
/// the challenge is still the one it was sent under.
pub fn on_challenge(tx_hash: [u8; 32], before: &[u8; 32], now: &[u8; 32]) -> (o: SubmitOutcome)
    ensures
        o == if now@ != before@ {
            SubmitOutcome::TimeoutChallengeChanged { tx_hash }
        } else {
            SubmitOutcome::TimeoutDropped { tx_hash }
        },
{
    if same_bytes(now, before) {
        SubmitOutcome::TimeoutDropped { tx_hash }
    } else {
        SubmitOutcome::TimeoutChallengeChanged { tx_hash }
    }
}

/// What can happen to the pool of account nonces.
pub enum PoolStep {
    /// A transaction takes a nonce.
    Take,
    /// The pool is held against the account's pending nonce.
    Resync(u64),
}

/// The pool after one step.
pub open spec fn pool_step(next: u64, step: PoolStep) -> u64 {
    match step {
        PoolStep::Take => if next == u64::MAX {
            0
        } else {
            (next + 1) as u64
        },
        PoolStep::Resync(on_chain) => if on_chain > next {
            on_chain
        } else {
            next
        },
    }
}

/// The pool after some steps.
pub open spec fn pool_after(next: u64, steps: Seq<PoolStep>) -> u64
    decreases steps.len(),
{
    if steps.len() == 0 {
        next
    } else {
        pool_step(pool_after(next, steps.drop_last()), steps.last())
    }
}

/// Whether the pool is below the largest nonce before each of the steps.
pub open spec fn pool_has_room(next: u64, steps: Seq<PoolStep>) -> bool {
    forall|k: int| 0 <= k < steps.len() ==> #[trigger] pool_after(next, steps.take(k)) < u64::MAX
}

/// The pool never falls.
proof fn lemma_pool_rises(next: u64, steps: Seq<PoolStep>, i: int, j: int)
    requires
        0 <= i <= j <= steps.len(),
        pool_has_room(next, steps),
    ensures
        pool_after(next, steps.take(i)) <= pool_after(next, steps.take(j)),
        i < j && steps[i] is Take ==> pool_after(next, steps.take(i)) < pool_after(
            next,
            steps.take(j),
        ),
    decreases j - i,
{
    if i < j {
        lemma_pool_rises(next, steps, i, j - 1);
        assert(steps.take(j).drop_last() =~= steps.take(j - 1));
        assert(steps.take(j).last() == steps[j - 1]);
        assert(pool_after(next, steps.take(j - 1)) < u64::MAX);
    }
}

/// Account nonces do not collide: whatever transactions and resyncs come one
/// after the other, a transaction's nonce is above that of every transaction
/// before it, as long as the nonces last.
pub proof fn law_account_nonces_never_collide(next: u64, steps: Seq<PoolStep>, i: int, j: int)
    requires
        0 <= i < j < steps.len(),
        steps[i] is Take,
        steps[j] is Take,
        pool_has_room(next, steps),
    ensures
        pool_after(next, steps.take(i)) < pool_after(next, steps.take(j)),
{
    lemma_pool_rises(next, steps, i, j);
}

/// A resync never goes back, and repeating it changes nothing.
pub proof fn law_resync_only_rises(next: u64, on_chain: u64)
    ensures
        pool_step(next, PoolStep::Resync(on_chain)) >= next,
        pool_step(next, PoolStep::Resync(on_chain)) >= on_chain,
        pool_step(next, PoolStep::Resync(on_chain)) == next || pool_step(
            next,
            PoolStep::Resync(on_chain),
        ) == on_chain,
        pool_step(pool_step(next, PoolStep::Resync(on_chain)), PoolStep::Resync(on_chain))
            == pool_step(next, PoolStep::Resync(on_chain)),
{
}

/// One `0x` before a signing key makes no difference to the account, and so to
/// whether the key is one.
pub proof fn law_key_prefix_is_free(key: Seq<char>)
    ensures
        signer_of(key_used("0x"@ + key)) == signer_of(key_used(key)),
{
    reveal_strlit("0x");
    let prefixed = "0x"@ + key;
    assert(prefixed.skip(2) =~= key);
    assert(strip_0x(prefixed) == strip_0x(key));
    lemma_stripping_suffices(prefixed);
    lemma_stripping_suffices(key);
}

/// Where the stripped text is no key, neither is the text.
proof fn lemma_stripping_suffices(text: Seq<char>)
    ensures
        signer_of(strip_0x(text)) is None ==> signer_of(text) is None,
        signer_of(key_used(text)) == signer_of(strip_0x(text)),
    decreases text.len(),
{
    if text.len() >= 2 && text[0] == '0' && text[1] == 'x' {
        let rest = text.skip(2);
        if rest.len() >= 2 && rest[0] == '0' && (rest[1] == 'x' || rest[1] == 'X') {
            assert(hex_digit(rest[1]) is None);
            assert(hex_bytes(text, 32) is None);
        } else {
            assert(hex_bytes(text, 32) == hex_bytes(rest, 32));
            assert(strip_0x(rest) == rest);
        }
    }
}

/// The call that is made reads back as the nonce, for every nonce: after the
/// four bytes of the selector comes one 32-byte number, and it is the nonce. So
/// no two nonces make the same call.
pub proof fn law_call_reads_back(nonce: u64)
    ensures
        mine_input(nonce).len() == 36,
        mine_input(nonce)[0] == 0x4d,
        mine_input(nonce)[1] == 0x47,
        mine_input(nonce)[2] == 0x48,
        mine_input(nonce)[3] == 0x98,
        be_nat(mine_input(nonce).skip(4)) == nonce,
        forall|other: u64| #[trigger] mine_input(other) == mine_input(nonce) ==> other == nonce,
{
    lemma_call_reads_back(nonce);
    assert forall|other: u64| #[trigger] mine_input(other) == mine_input(nonce) implies other
        == nonce by {
        lemma_call_reads_back(other);
    }
}

/// The argument of the call is the nonce.
proof fn lemma_call_reads_back(nonce: u64)
    ensures
        mine_input(nonce).len() == 36,
        be_nat(mine_input(nonce).skip(4)) == nonce,
{
    lemma_pow256_8();
    lemma_be_read_of_write(nonce as nat, 32);
    assert(mine_input(nonce).skip(4) =~= be_bytes(nonce as nat, 32));
}

/// What is sent for a hit: a call of the contract with the nonce that was found,
/// under the account nonce that the pool has next, for the priority fee that was
/// decided on, waited for as the settings say.
pub proof fn law_transaction_submits_the_nonce(
    ctx: ChainCtx,
    nonce: u64,
    tip_wei: u128,
    tx: MineTx,
)
    requires
        is_mine_tx(ctx, nonce, tip_wei, tx),
    ensures
        tx.to@ == ctx.contract@,
        be_nat(tx.input@.skip(4)) == nonce,
        tx.nonce == nonce,
        tx.account_nonce == ctx.next_nonce,
        tx.max_priority_fee_per_gas == tip_wei,
        tx.confirmations == ctx.wait_confirmations,
        tx.timeout_secs == ctx.submit_timeout_secs,
{
    law_call_reads_back(nonce);
}

/// No account nonce is left out: transactions without a resync between them take
/// one nonce after the other.
pub proof fn law_no_account_nonce_is_left_out(next: u64, steps: Seq<PoolStep>)
    requires
        next + steps.len() <= u64::MAX,
        forall|i: int| 0 <= i < steps.len() ==> #[trigger] steps[i] is Take,
    ensures
        pool_after(next, steps) == next + steps.len(),
        forall|n: u64| #[trigger]
            pool_step(n, PoolStep::Take) == (n + 1) % 0x1_0000_0000_0000_0000,
    decreases steps.len(),
{
    if steps.len() > 0 {
        let before = steps.drop_last();
        assert forall|i: int| 0 <= i < before.len() implies #[trigger] before[i] is Take by {
            assert(before[i] == steps[i]);
        }
        law_no_account_nonce_is_left_out(next, before);
        assert(steps[steps.len() - 1] is Take);
    }
}

/// A number that is held at the largest `u64` is the smaller of the two.
pub proof fn law_held_numbers(n: nat)
    ensures
        held_u64(n) <= n,
        held_u64(n) == n || held_u64(n) == u64::MAX,
        n <= u64::MAX ==> held_u64(n) == n,
{
}

/// Text is its `0x`s and what is left without them, which begins with no other.
pub proof fn law_strip_0x(s: Seq<char>) -> (n: nat)
    ensures
        s == repeated("0x"@, n) + strip_0x(s),
        !has_prefix(strip_0x(s), "0x"@),
    decreases s.len(),
{
    reveal_strlit("0x");
    if s.len() >= 2 && s[0] == '0' && s[1] == 'x' {
        let n = law_strip_0x(s.skip(2));
        lemma_repeated_front("0x"@, n);
        assert(s =~= "0x"@ + s.skip(2));
        assert(s =~= repeated("0x"@, n + 1) + strip_0x(s));
        n + 1
    } else {
        if has_prefix(s, "0x"@) {
            assert(s.take(2)[0] == s[0] && s.take(2)[1] == s[1]);
            assert("0x"@.len() == 2);
        }
        assert(repeated("0x"@, 0) + s =~= s);
        0
    }
}

/// One more at the front is one more at the end.
proof fn lemma_repeated_front(s: Seq<char>, n: nat)
    ensures
        repeated(s, n + 1) == s + repeated(s, n),
    decreases n,
{
    if n > 0 {
        lemma_repeated_front(s, (n - 1) as nat);
        assert(repeated(s, n + 1) =~= s + repeated(s, n));
    } else {
        assert(repeated(s, 0) + s =~= s + repeated(s, 0));
        assert(repeated(s, 1) == repeated(s, 0) + s);
    }
}

/// A word in two's complement: the number it stands for as a word, or that less
/// `2^256`, whichever lies within half of `2^256` of zero.
pub proof fn law_twos_complement(word: Seq<u8>)
    requires
        word.len() == 32,
    ensures
        signed_value(word) == be_nat(word) || signed_value(word) == be_nat(word) - pow256(32),
        -(pow256(32) as int) <= 2 * signed_value(word) < pow256(32),
{
    let (first, rest) = (word.take(1), word.skip(1));
    assert(word =~= first + rest);
    lemma_be_nat_concat(first, rest);
    lemma_be_nat_bound(rest);
    law_big_endian(Seq::empty(), word[0]);
    assert(first =~= Seq::<u8>::empty().push(word[0]));
    let (a, p) = (word[0] as int, pow256(31) as int);
    assert(pow256(32) == 256 * p);
    if a < 0x80 {
        assert(a * p + p <= 128 * p) by (nonlinear_arith)
            requires
                a + 1 <= 128,
                p >= 0,
        ;
    } else {
        assert(a * p >= 128 * p) by (nonlinear_arith)
            requires
                a >= 128,
                p >= 0,
        ;
        assert(a * p + p <= 256 * p) by (nonlinear_arith)
            requires
                a + 1 <= 256,
                p >= 0,
        ;
    }
}

/// A signing key is found where there is one: as it was given, or without the
/// `0x`s before it. One without a `0x` is used as it is, and what is used is the
/// text or the text without them.
pub proof fn law_keys_are_found(text: Seq<char>)
    ensures
        signer_of(key_used(text)) is Some <==> signer_of(text) is Some || signer_of(
            strip_0x(text),
        ) is Some,
        key_used(text) == text || key_used(text) == strip_0x(text),
        !has_prefix(text, "0x"@) ==> key_used(text) == text,
        signer_of(text) == match hex_bytes(text, 32) {
            Some(key) => key_address(key),
            None => None,
        },
{
    reveal_strlit("0x");
    if !has_prefix(text, "0x"@) {
        if text.len() >= 2 && text[0] == '0' && text[1] == 'x' {
            assert(text.take(2) =~= "0x"@);
        }
        assert(strip_0x(text) == text);
    }
}

/// What becomes of a transaction: a receipt decides, and its word on success is
/// taken; without one the transaction counts as dropped exactly where the
/// challenge has not moved.
pub proof fn law_fate_of_a_transaction(
    tx_hash: [u8; 32],
    status: bool,
    block_number: Option<u64>,
    gas_used: u64,
    with: SubmitStep,
    without: SubmitStep,
    before: [u8; 32],
    now: [u8; 32],
    late: SubmitOutcome,
)
    requires
        call_ensures(
            on_confirmation,
            (tx_hash, Confirmation::Receipt { status, block_number, gas_used }),
            with,
        ),
        call_ensures(on_confirmation, (tx_hash, Confirmation::NoReceipt), without),
        call_ensures(on_challenge, (tx_hash, &before, &now), late),
    ensures
        with is Done,
        with->Done_0 is Confirmed <==> status,
        with->Done_0 is Reverted <==> !status,
        with->Done_0 matches SubmitOutcome::Confirmed { tx_hash: h, block, gas_used: g } ==> h
            == tx_hash && g == gas_used && (block_number is Some ==> block == block_number->0) && (
        block_number is None ==> block == 0),
        with->Done_0 matches SubmitOutcome::Reverted { tx_hash: h, .. } ==> h == tx_hash,
        without is AskChallenge,
        late is TimeoutDropped <==> now@ == before@,
        late is TimeoutChallengeChanged <==> now@ != before@,
        late matches SubmitOutcome::TimeoutDropped { tx_hash: h } ==> h == tx_hash,
        late matches SubmitOutcome::TimeoutChallengeChanged { tx_hash: h } ==> h == tx_hash,
{
}

/// What the chain's words are read as: blocks left up to the most that is
/// counted, a reward up to `u128` and zero above, and a price only where it is
/// above zero and fits.
pub proof fn law_words_of_the_chain(
    challenge: [u8; 32],
    word: [u8; 32],
    left: ([u8; 32], u64),
    reward: u128,
    price: Result<i128, ChainError>,
)
    requires
        call_ensures(ChainCtx::fetch_challenge_and_blocks_left, (challenge, &word), left),
        call_ensures(ChainCtx::fetch_reward_hash, (&word,), reward),
        call_ensures(ChainCtx::fetch_eth_usd, (&word,), price),
    ensures
        left.0@ == challenge@,
        left.1 <= be_nat(word@),
        left.1 == be_nat(word@) || left.1 == u64::MAX,
        reward == be_nat(word@) || reward == 0 && be_nat(word@) > u128::MAX,
        price is Ok <==> 0 < signed_value(word@) <= i128::MAX,
        price matches Ok(n) ==> n == signed_value(word@),
        price matches Err(e) ==> e is NonPositivePrice,
{
}

} // verus!
