//! Mining: what is done with a hit, with what became of a transaction, and with
//! a change of the challenge.

use crate::bytes::same_bytes;
use crate::chain::{EpochSnapshot, SubmitOutcome};
use crate::hit::{verify_hit, HitError, MineHit};
use crate::text::{decimal_text, hex_encode};
use vstd::prelude::*;
use vstd::string::*;

verus! {

use crate::account::{hex_bytes, law_hex_reads_back};
use crate::bytes::{be_bytes, be_nat, lemma_be_read_of_write, lemma_pow256_8};
use crate::chain::held_u64;
use crate::hit::{hit_answer, keccak256, law_work_hash_is_keccak, wins, work_hash};
use crate::text::{decimal, hex_of};

/// Seconds before the state of the chain is asked for again after a failure.
pub const RETRY_SECS: u64 = 5;

/// What is done with a hit.
pub enum HitAction {
    /// Nothing: the search it comes from is over.
    Leave,
    /// It is refused: the CPU does not confirm it.
    Reject(HitError),
    /// It is passed over: sending it would not pay.
    Skip,
    /// It is sent.
    Send,
}

/// What is done with a hit: one that comes too late is left, one that the CPU
/// does not confirm is refused, one that does not pay is passed over where the
/// guard is on, and all others are sent.
pub fn on_hit(
    hit: &MineHit,
    challenge: &[u8; 32],
    difficulty: &[u8; 32],
    over: bool,
    guard: bool,
    profitable: bool,
) -> (a: HitAction)
    ensures
        a is Leave <==> over,
        a matches HitAction::Reject(e) ==> hit_answer(
            work_hash(challenge@, hit.nonce),
            hit.hash_be@,
            difficulty@,
            Err(e),
        ),
        a is Reject <==> !over && !confirmed(*hit, challenge@, difficulty@),
        a is Skip <==> !over && confirmed(*hit, challenge@, difficulty@) && guard && !profitable,
        a is Send <==> !over && confirmed(*hit, challenge@, difficulty@) && (!guard || profitable),
{
    if over {
        return HitAction::Leave;
    }
    match verify_hit(challenge, hit.nonce, &hit.hash_be, difficulty) {
        Ok(()) => {},
        Err(e) => {
            return HitAction::Reject(e);
        },
    }
    if guard && !profitable {
        HitAction::Skip
    } else {
        HitAction::Send
    }
}

/// Whether the CPU confirms a hit: its hash is that of its nonce, and wins.
pub open spec fn confirmed(hit: MineHit, challenge: Seq<u8>, difficulty: Seq<u8>) -> bool {
    hit.hash_be@ == work_hash(challenge, hit.nonce) && wins(challenge, hit.nonce, difficulty)
}

/// A card at work on one challenge.
#[derive(Clone, Copy)]
pub struct Card {
    /// Where its next search begins.
    pub cursor: u64,
}

/// What a card does next.
#[derive(Clone, Copy)]
pub enum CardStep {
    /// It ends.
    Stop,
    /// It searches from this nonce.
    Search(u64),
}

impl Card {
    /// What the card does next.
    pub fn next(&self, over: bool) -> (s: CardStep)
        ensures
            s == if over {
                CardStep::Stop
            } else {
                CardStep::Search(self.cursor)
            },
    {
        if over {
            CardStep::Stop
        } else {
            CardStep::Search(self.cursor)
        }
    }

    /// A search ended: after a hit the card goes on behind it, and the hit is
    /// handed on; without one the card ends.
    pub fn on_searched(&mut self, found: Option<MineHit>) -> (handed_on: Option<MineHit>)
        ensures
            handed_on == found,
            final(self).cursor == match found {
                Some(hit) => nonce_after(hit.nonce),
                None => old(self).cursor,
            },
    {
        match found {
            Some(hit) => {
                self.cursor = hit.nonce.wrapping_add(1);
                Some(hit)
            },
            None => None,
        }
    }
}

/// The nonce after another; the first comes after the last.
pub open spec fn nonce_after(n: u64) -> u64 {
    if n == u64::MAX {
        0
    } else {
        (n + 1) as u64
    }
}

/// What became of a hit that was sent.
pub enum Settled {
    Outcome(SubmitOutcome),
    /// It could not be sent, or its fate could not be found out.
    Failed,
}

/// How many hits were sent with success, and how many without.
#[derive(Clone, Copy)]
pub struct Tally {
    pub mined: u64,
    pub failed: u64,
}

/// Whether a hit counts as mined: it is confirmed, or the challenge moved on.
pub open spec fn counts_as_mined(s: Settled) -> bool {
    s matches Settled::Outcome(o) && (o is Confirmed || o is TimeoutChallengeChanged)
}

/// Whether the pool of account nonces is in doubt: the transaction was dropped,
/// or there is none.
pub open spec fn needs_resync(s: Settled) -> bool {
    s is Failed || s->Outcome_0 is TimeoutDropped
}

/// The tally after one more hit is settled.
pub open spec fn tally_after(t: Tally, s: Settled) -> Tally {
    if counts_as_mined(s) {
        Tally { mined: nonce_after(t.mined), ..t }
    } else {
        Tally { failed: nonce_after(t.failed), ..t }
    }
}

/// The tally after some hits are settled.
pub open spec fn tally_of(t: Tally, settled: Seq<Settled>) -> Tally
    decreases settled.len(),
{
    if settled.len() == 0 {
        t
    } else {
        tally_after(tally_of(t, settled.drop_last()), settled.last())
    }
}

impl Tally {
    /// Nothing settled yet.
    pub fn new() -> (t: Tally)
        ensures
            t == (Tally { mined: 0, failed: 0 }),
    {
        Tally { mined: 0, failed: 0 }
    }

    /// Counts a hit that is settled, and says whether the pool of account
    /// nonces is to be resynced.
    pub fn settle(&mut self, s: &Settled) -> (resync: bool)
        ensures
            *final(self) == tally_after(*old(self), *s),
            resync == needs_resync(*s),
    {
        match s {
            Settled::Outcome(SubmitOutcome::Confirmed { .. }) => {
                self.mined = self.mined.wrapping_add(1);
                false
            },
            Settled::Outcome(SubmitOutcome::Reverted { .. }) => {
                self.failed = self.failed.wrapping_add(1);
                false
            },
            Settled::Outcome(SubmitOutcome::TimeoutChallengeChanged { .. }) => {
                self.mined = self.mined.wrapping_add(1);
                false
            },
            Settled::Outcome(SubmitOutcome::TimeoutDropped { .. }) => {
                self.failed = self.failed.wrapping_add(1);
                true
            },
            Settled::Failed => {
                self.failed = self.failed.wrapping_add(1);
                true
            },
        }
    }
}

/// Every hit that is settled counts once, as mined or as failed.
pub proof fn law_every_hit_counts_once(settled: Seq<Settled>)
    requires
        settled.len() <= u64::MAX,
    ensures
        tally_of(Tally { mined: 0, failed: 0 }, settled).mined + tally_of(
            Tally { mined: 0, failed: 0 },
            settled,
        ).failed == settled.len(),
    decreases settled.len(),
{
    if settled.len() > 0 {
        law_every_hit_counts_once(settled.drop_last());
    }
}

/// A nonce as it is shown: its sixteen hexadecimal digits.
pub open spec fn nonce_text(n: u64) -> Seq<char> {
    "0x"@ + hex_of(be_bytes(n as nat, 8))
}

/// A nonce as it is shown.
pub fn format_nonce(n: u64) -> (t: String)
    ensures
        t@ == nonce_text(n),
{
    let mut bytes: [u8; 8] = [0; 8];
    let mut rest: u64 = n;
    let mut i: usize = 8;
    proof {
        crate::bytes::lemma_be_bytes_len(n as nat, 8);
        assert(bytes@.skip(8) =~= Seq::<u8>::empty());
        assert(be_bytes(n as nat, 8) + Seq::<u8>::empty() =~= be_bytes(n as nat, 8));
    }
    while i > 0
        invariant
            i <= 8,
            be_bytes(rest as nat, i as nat) + bytes@.skip(i as int) == be_bytes(n as nat, 8),
        decreases i,
    {
        let ghost before = bytes@;
        i = i - 1;
        bytes[i] = (rest % 256) as u8;
        proof {
            let b = (rest % 256) as u8;
            assert(be_bytes(rest as nat, (i + 1) as nat) == be_bytes((rest / 256) as nat, i as nat).push(b));
            assert(bytes@.skip(i as int) =~= seq![b] + before.skip(i + 1));
            assert(be_bytes((rest / 256) as nat, i as nat).push(b) + before.skip(i + 1) =~= be_bytes(
                (rest / 256) as nat,
                i as nat,
            ) + (seq![b] + before.skip(i + 1)));
        }
        rest = rest / 256;
    }
    assert(be_bytes(rest as nat, 0) + bytes@.skip(0) =~= bytes@);
    let mut t: String = "0x".to_owned();
    t.append(hex_encode(&bytes).as_str());
    t
}

/// The lines on a hit.
pub fn hit_lines(hit: &MineHit) -> (lines: (String, String))
    ensures
        lines.0@ == "★ 命中! nonce = "@ + nonce_text(hit.nonce),
        lines.1@ == "       hash = 0x"@ + hex_of(hit.hash_be@),
{
    let mut first: String = "★ 命中! nonce = ".to_owned();
    first.append(format_nonce(hit.nonce).as_str());
    let mut second: String = "       hash = 0x".to_owned();
    second.append(hex_encode(&hit.hash_be).as_str());
    (first, second)
}

/// The line on what became of a hit with the given nonce, as the `count`-th
/// success where it is one.
pub open spec fn outcome_text(nonce: u64, o: SubmitOutcome, count: u64) -> Seq<char> {
    match o {
        SubmitOutcome::Confirmed { tx_hash, block, gas_used } => "[确认] nonce="@ + nonce_text(nonce)
            + " · 区块 #"@ + decimal(block as nat) + " · gas "@ + decimal(gas_used as nat)
            + " · tx 0x"@ + hex_of(tx_hash@) + " · ✓ 累计 "@ + decimal(count as nat) + " 次"@,
        SubmitOutcome::Reverted { tx_hash, reason } => "[失败] tx 0x"@ + hex_of(tx_hash@)
            + " revert: "@ + reason@,
        SubmitOutcome::TimeoutChallengeChanged { tx_hash } => "[超时] tx 0x"@ + hex_of(tx_hash@)
            + " 超时但 challenge 已变, 视为成功"@,
        SubmitOutcome::TimeoutDropped { tx_hash } => "[丢弃] tx 0x"@ + hex_of(tx_hash@)
            + " 超时且 challenge 未变, 被丢弃 · 重同步 nonce 池"@,
    }
}

/// The line on what became of a hit.
pub fn outcome_line(nonce: u64, o: &SubmitOutcome, count: u64) -> (t: String)
    ensures
        t@ == outcome_text(nonce, *o, count),
{
    match o {
        SubmitOutcome::Confirmed { tx_hash, block, gas_used } => {
            let mut t: String = "[确认] nonce=".to_owned();
            t.append(format_nonce(nonce).as_str());
            t.append(" · 区块 #");
            t.append(decimal_text(*block).as_str());
            t.append(" · gas ");
            t.append(decimal_text(*gas_used).as_str());
            t.append(" · tx 0x");
            t.append(hex_encode(tx_hash).as_str());
            t.append(" · ✓ 累计 ");
            t.append(decimal_text(count).as_str());
            t.append(" 次");
            t
        },
        SubmitOutcome::Reverted { tx_hash, reason } => {
            let mut t: String = "[失败] tx 0x".to_owned();
            t.append(hex_encode(tx_hash).as_str());
            t.append(" revert: ");
            t.append(reason.as_str());
            t
        },
        SubmitOutcome::TimeoutChallengeChanged { tx_hash } => {
            let mut t: String = "[超时] tx 0x".to_owned();
            t.append(hex_encode(tx_hash).as_str());
            t.append(" 超时但 challenge 已变, 视为成功");
            t
        },
        SubmitOutcome::TimeoutDropped { tx_hash } => {
            let mut t: String = "[丢弃] tx 0x".to_owned();
            t.append(hex_encode(tx_hash).as_str());
            t.append(" 超时且 challenge 未变, 被丢弃 · 重同步 nonce 池");
            t
        },
    }
}

/// The watch over the challenge of an epoch.
#[derive(Clone, Copy)]
pub struct Watch {
    /// The challenge that is mined under.
    pub challenge: [u8; 32],
    /// The blocks that the epoch has left.
    pub blocks_left: u64,
    /// Whether the challenge was seen to have changed.
    pub changed: bool,
}

impl Watch {
    /// The watch as an epoch begins.
    pub fn new(s: &EpochSnapshot) -> (w: Watch)
        ensures
            w.challenge == s.challenge,
            w.blocks_left == held_u64(be_nat(s.blocks_left@)),
            !w.changed,
    {
        Watch { challenge: s.challenge, blocks_left: s.blocks_left_u64(), changed: false }
    }

    /// Whether the work under this challenge is over.
    pub fn over(&self, stop: bool) -> (r: bool)
        ensures
            r == (stop || self.changed),
    {
        stop || self.changed
    }

    /// Takes in the challenge and the blocks left as they are now. Once seen, a
    /// change stays seen.
    pub fn on_reading(&mut self, now: &[u8; 32], blocks_left: u64)
        ensures
            final(self).challenge == old(self).challenge,
            final(self).blocks_left == blocks_left,
            final(self).changed == (old(self).changed || now@ != old(self).challenge@),
    {
        self.blocks_left = blocks_left;
        if !same_bytes(now, &self.challenge) {
            self.changed = true;
        }
    }
}

/// What follows the work under a challenge.
#[derive(Clone, Copy)]
pub enum EpochStep {
    /// Mining ends.
    Quit,
    /// The state of the chain is read anew, after a word on the change where
    /// there was one.
    Again { announce: bool },
}

/// What follows the work under a challenge.
pub fn after_epoch(stop: bool, changed: bool) -> (s: EpochStep)
    ensures
        s == if stop {
            EpochStep::Quit
        } else {
            EpochStep::Again { announce: changed }
        },
{
    if stop {
        EpochStep::Quit
    } else {
        EpochStep::Again { announce: changed }
    }
}

/// The sum of numbers.
pub open spec fn sum(s: Seq<u64>) -> nat
    decreases s.len(),
{
    if s.len() == 0 {
        0
    } else {
        sum(s.drop_last()) + s.last() as nat
    }
}

/// The nonces that all cards together have tried.
pub fn total_nonces(cards: &Vec<u64>) -> (total: u128)
    ensures
        total == sum(cards@),
{
    let mut total: u128 = 0;
    let mut i: usize = 0;
    assert(cards@.take(0) =~= Seq::<u64>::empty());
    while i < cards.len()
        invariant
            i <= cards@.len(),
            total == sum(cards@.take(i as int)),
            total <= i * u64::MAX,
        decreases cards.len() - i,
    {
        proof {
            assert(cards@.take(i + 1).drop_last() =~= cards@.take(i as int));
            assert((i + 1) * u64::MAX == i * u64::MAX + u64::MAX) by (nonlinear_arith);
            assert((i + 1) * u64::MAX <= u128::MAX) by (nonlinear_arith)
                requires
                    i + 1 <= usize::MAX,
                    usize::MAX <= u64::MAX,
            ;
        }
        total = total + cards[i] as u128;
        i = i + 1;
    }
    assert(cards@.take(cards@.len() as int) =~= cards@);
    total
}

/// A hit is confirmed exactly where its hash is Keccak-256 of the challenge and
/// its nonce and is, as a number, below the difficulty.
pub proof fn law_confirmed_hits_are_right(
    hit: MineHit,
    challenge: Seq<u8>,
    difficulty: Seq<u8>,
    p: Seq<u8>,
)
    requires
        p.len() == 64,
        p.take(32) == challenge,
        be_nat(p.skip(32)) == hit.nonce,
    ensures
        confirmed(hit, challenge, difficulty) <==> hit.hash_be@ == keccak256(p) && be_nat(
            hit.hash_be@,
        ) < be_nat(difficulty),
{
    law_work_hash_is_keccak(challenge, hit.nonce, p);
}

/// What a settled hit does to the tally, and when account nonces are in doubt: a
/// confirmed one counts as mined, and so does one without a receipt under a
/// challenge that moved on; all others count as failed. A dropped one and one
/// that was not sent put the nonces in doubt, and no other does.
pub proof fn law_what_counts_as_mined(t: Tally, o: SubmitOutcome)
    requires
        t.mined < u64::MAX,
        t.failed < u64::MAX,
    ensures
        o is Confirmed || o is TimeoutChallengeChanged ==> {
            &&& tally_after(t, Settled::Outcome(o)).mined == t.mined + 1
            &&& tally_after(t, Settled::Outcome(o)).failed == t.failed
        },
        o is Reverted || o is TimeoutDropped ==> {
            &&& tally_after(t, Settled::Outcome(o)).mined == t.mined
            &&& tally_after(t, Settled::Outcome(o)).failed == t.failed + 1
        },
        tally_after(t, Settled::Failed).mined == t.mined,
        tally_after(t, Settled::Failed).failed == t.failed + 1,
        needs_resync(Settled::Outcome(o)) <==> o is TimeoutDropped,
        needs_resync(Settled::Failed),
{
}

/// The next nonce is one more, and zero after the largest.
pub proof fn law_next_nonce(n: u64)
    ensures
        nonce_after(n) == (n + 1) % 0x1_0000_0000_0000_0000,
{
}

/// A nonce is shown as `0x` and sixteen digits that stand for it: read back,
/// they are the nonce's eight bytes, the highest first.
pub proof fn law_shown_nonces_read_back(n: u64)
    ensures
        nonce_text(n).len() == 18,
        hex_bytes(nonce_text(n), 8) is Some,
        be_nat(hex_bytes(nonce_text(n), 8)->0) == n,
{
    reveal_strlit("0x");
    lemma_pow256_8();
    lemma_be_read_of_write(n as nat, 8);
    law_hex_reads_back(be_bytes(n as nat, 8));
}

/// What is told of an outcome.
pub proof fn law_outcomes_are_told(nonce: u64, o: SubmitOutcome, count: u64)
    ensures
        o matches SubmitOutcome::Confirmed { tx_hash, block, gas_used } ==> outcome_text(
            nonce,
            o,
            count,
        ) == "[确认] nonce="@ + nonce_text(nonce) + " · 区块 #"@ + decimal(block as nat)
            + " · gas "@ + decimal(gas_used as nat) + " · tx 0x"@ + hex_of(tx_hash@)
            + " · ✓ 累计 "@ + decimal(count as nat) + " 次"@,
        o matches SubmitOutcome::Reverted { tx_hash, reason } ==> outcome_text(nonce, o, count)
            == "[失败] tx 0x"@ + hex_of(tx_hash@) + " revert: "@ + reason@,
        o matches SubmitOutcome::TimeoutChallengeChanged { tx_hash } ==> outcome_text(
            nonce,
            o,
            count,
        ) == "[超时] tx 0x"@ + hex_of(tx_hash@) + " 超时但 challenge 已变, 视为成功"@,
        o matches SubmitOutcome::TimeoutDropped { tx_hash } ==> outcome_text(nonce, o, count)
            == "[丢弃] tx 0x"@ + hex_of(tx_hash@)
            + " 超时且 challenge 未变, 被丢弃 · 重同步 nonce 池"@,
{
}

/// A sum counts every number once, whatever their order.
pub proof fn law_sum_counts_every_number(s: Seq<u64>, t: Seq<u64>, n: u64)
    ensures
        sum(Seq::<u64>::empty()) == 0,
        sum(s.push(n)) == sum(s) + n,
        sum(s + t) == sum(s) + sum(t),
        sum(s + t) == sum(t + s),
{
    assert(s.push(n).drop_last() =~= s);
    lemma_sum_concat(s, t);
    lemma_sum_concat(t, s);
}

/// The sum of a concatenation.
proof fn lemma_sum_concat(s: Seq<u64>, t: Seq<u64>)
    ensures
        sum(s + t) == sum(s) + sum(t),
    decreases t.len(),
{
    if t.len() == 0 {
        assert(s + t =~= s);
    } else {
        lemma_sum_concat(s, t.drop_last());
        assert((s + t).drop_last() =~= s + t.drop_last());
        assert((s + t).last() == t.last());
    }
}

/// What is sent, and what is not: a hit in time is sent exactly where its hash is
/// Keccak-256 of the challenge and its nonce, is below the difficulty, and either
/// pays or nobody minds. One that the CPU does not confirm is refused whatever it
/// pays, and one that is too late is left whatever it is.
pub proof fn law_only_right_hits_that_pay_are_sent(
    hit: MineHit,
    challenge: [u8; 32],
    difficulty: [u8; 32],
    over: bool,
    guard: bool,
    profitable: bool,
    p: Seq<u8>,
    a: HitAction,
)
    requires
        call_ensures(on_hit, (&hit, &challenge, &difficulty, over, guard, profitable), a),
        p.len() == 64,
        p.take(32) == challenge@,
        be_nat(p.skip(32)) == hit.nonce,
    ensures
        over ==> a is Leave,
        !over && (hit.hash_be@ != keccak256(p) || be_nat(hit.hash_be@) >= be_nat(difficulty@))
            ==> a is Reject,
        !over && hit.hash_be@ == keccak256(p) && be_nat(hit.hash_be@) < be_nat(difficulty@) ==> a
            is Send || a is Skip,
        a is Skip ==> guard && !profitable,
        a is Send ==> profitable || !guard,
{
    law_confirmed_hits_are_right(hit, challenge@, difficulty@, p);
}

/// Mining goes on until it is stopped, and only a change of the challenge is
/// announced.
pub proof fn law_mining_goes_on(stop: bool, changed: bool, s: EpochStep)
    requires
        call_ensures(after_epoch, (stop, changed), s),
    ensures
        s is Quit <==> stop,
        s matches EpochStep::Again { announce } ==> (announce <==> changed),
{
}

} // verus!
