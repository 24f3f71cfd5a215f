use hash_miner::bytes::word_of_u64;
use hash_miner::chain::{ChainCtx, SubmitOutcome};
use hash_miner::hit::{cpu_hash, HitError, MineHit};
use hash_miner::miner::{
    after_epoch, format_nonce, hit_lines, on_hit, outcome_line, total_nonces, Card, CardStep,
    EpochStep, HitAction, Settled, Tally, Watch, RETRY_SECS,
};

const CHALLENGE: [u8; 32] = [0x11; 32];

fn hit(nonce: u64) -> MineHit {
    MineHit { nonce, hash_be: cpu_hash(&CHALLENGE, nonce) }
}

#[test]
fn right_hits_are_sent() {
    let easy = [0xff; 32];
    assert!(matches!(on_hit(&hit(3), &CHALLENGE, &easy, false, true, true), HitAction::Send));
    assert!(matches!(on_hit(&hit(3), &CHALLENGE, &easy, false, false, false), HitAction::Send));
}

#[test]
fn unprofitable_hits_are_passed_over() {
    let easy = [0xff; 32];
    assert!(matches!(on_hit(&hit(3), &CHALLENGE, &easy, false, true, false), HitAction::Skip));
}

#[test]
fn late_hits_are_left() {
    let easy = [0xff; 32];
    assert!(matches!(on_hit(&hit(3), &CHALLENGE, &easy, true, true, true), HitAction::Leave));
    let wrong = MineHit { nonce: 3, hash_be: [0; 32] };
    assert!(matches!(on_hit(&wrong, &CHALLENGE, &easy, true, false, true), HitAction::Leave));
}

#[test]
fn unconfirmed_hits_are_never_sent() {
    let wrong = MineHit { nonce: 3, hash_be: [0; 32] };
    for guard in [false, true] {
        assert!(matches!(
            on_hit(&wrong, &CHALLENGE, &[0xff; 32], false, guard, true),
            HitAction::Reject(HitError::HashMismatch { .. })
        ));
        assert!(matches!(
            on_hit(&hit(3), &CHALLENGE, &[0; 32], false, guard, true),
            HitAction::Reject(HitError::AboveTarget { .. })
        ));
    }
}

#[test]
fn a_card_goes_on_behind_its_hit() {
    let mut c = Card { cursor: 5 };
    assert!(matches!(c.next(false), CardStep::Search(5)));
    assert!(matches!(c.next(true), CardStep::Stop));
    assert_eq!(c.on_searched(Some(hit(9))).unwrap().nonce, 9);
    assert!(matches!(c.next(false), CardStep::Search(10)));
    assert!(c.on_searched(None).is_none());
    assert_eq!(c.cursor, 10);
    c.on_searched(Some(MineHit { nonce: u64::MAX, hash_be: [0; 32] }));
    assert_eq!(c.cursor, 0);
}

fn outcomes() -> Vec<Settled> {
    let tx_hash = [0xab; 32];
    vec![
        Settled::Outcome(SubmitOutcome::Confirmed { tx_hash, block: 7, gas_used: 90_000 }),
        Settled::Outcome(SubmitOutcome::Reverted { tx_hash, reason: "why".to_string() }),
        Settled::Outcome(SubmitOutcome::TimeoutChallengeChanged { tx_hash }),
        Settled::Outcome(SubmitOutcome::TimeoutDropped { tx_hash }),
        Settled::Failed,
    ]
}

#[test]
fn every_hit_counts_once() {
    let mut t = Tally::new();
    let mut counts = Vec::new();
    let mut resyncs = Vec::new();
    for s in outcomes() {
        resyncs.push(t.settle(&s));
        counts.push((t.mined, t.failed));
    }
    assert_eq!(counts, vec![(1, 0), (1, 1), (2, 1), (2, 2), (2, 3)]);
    assert_eq!(resyncs, vec![false, false, false, true, true]);
}

#[test]
fn outcomes_are_told() {
    let tx = "ab".repeat(32);
    let lines: Vec<String> = outcomes()
        .iter()
        .filter_map(|s| match s {
            Settled::Outcome(o) => Some(outcome_line(0x2a, o, 12)),
            Settled::Failed => None,
        })
        .collect();
    assert_eq!(
        lines,
        vec![
            format!("[确认] nonce=0x000000000000002a · 区块 #7 · gas 90000 · tx 0x{} · ✓ 累计 12 次", tx),
            format!("[失败] tx 0x{} revert: why", tx),
            format!("[超时] tx 0x{} 超时但 challenge 已变, 视为成功", tx),
            format!("[丢弃] tx 0x{} 超时且 challenge 未变, 被丢弃 · 重同步 nonce 池", tx),
        ]
    );
}

#[test]
fn nonces_are_shown_in_sixteen_digits() {
    assert_eq!(format_nonce(0), "0x0000000000000000");
    assert_eq!(format_nonce(0x0123_4567_89ab_cdef), "0x0123456789abcdef");
    assert_eq!(format_nonce(u64::MAX), "0xffffffffffffffff");
    let (first, second) = hit_lines(&MineHit { nonce: 218, hash_be: [0x0f; 32] });
    assert_eq!(first, "★ 命中! nonce = 0x00000000000000da");
    assert_eq!(second, format!("       hash = 0x{}", "0f".repeat(32)));
}

#[test]
fn a_change_of_the_challenge_stays_seen() {
    let s = ChainCtx::snapshot([1; 32], [2; 32], [3; 32], word_of_u64(40));
    let mut w = Watch::new(&s);
    assert_eq!((w.blocks_left, w.changed, w.over(false), w.over(true)), (40, false, false, true));
    w.on_reading(&[1; 32], 39);
    assert_eq!((w.blocks_left, w.changed), (39, false));
    w.on_reading(&[9; 32], 38);
    assert!(w.changed && w.over(false));
    w.on_reading(&[1; 32], 37);
    assert_eq!((w.blocks_left, w.changed), (37, true));
}

#[test]
fn epochs_follow_until_mining_ends() {
    assert!(matches!(after_epoch(true, true), EpochStep::Quit));
    assert!(matches!(after_epoch(false, true), EpochStep::Again { announce: true }));
    assert!(matches!(after_epoch(false, false), EpochStep::Again { announce: false }));
    assert_eq!(RETRY_SECS, 5);
}

#[test]
fn nonces_of_all_cards_add_up() {
    assert_eq!(total_nonces(&vec![]), 0);
    assert_eq!(total_nonces(&vec![1, 2, 3]), 6);
    assert_eq!(total_nonces(&vec![u64::MAX, u64::MAX]), 2 * (u64::MAX as u128));
}
