use hash_miner::profile::{CardPlan, Fleet, GpuProfile, Profiles};
use hash_miner::tune::BenchResult;

fn profile(batch_size: u64, pipeline_depth: u32) -> GpuProfile {
    GpuProfile { batch_size, pipeline_depth }
}

fn pair(p: Option<GpuProfile>) -> Option<(u64, u32)> {
    p.map(|p| (p.batch_size, p.pipeline_depth))
}

#[test]
fn profiles_are_found_by_fingerprint() {
    let mut p = Profiles::new();
    assert_eq!(pair(p.get("a")), None);
    p.insert("a".to_string(), profile(1, 2));
    p.insert("b".to_string(), profile(3, 4));
    assert_eq!(pair(p.get("a")), Some((1, 2)));
    assert_eq!(pair(p.get("b")), Some((3, 4)));
    assert_eq!(pair(p.get("c")), None);
    assert_eq!(p.len(), 2);
}

#[test]
fn a_new_profile_replaces_the_old() {
    let mut p = Profiles::new();
    p.insert("a".to_string(), profile(1, 2));
    p.insert("b".to_string(), profile(3, 4));
    p.insert("a".to_string(), profile(5, 6));
    assert_eq!(pair(p.get("a")), Some((5, 6)));
    assert_eq!(pair(p.get("b")), Some((3, 4)));
    assert_eq!(p.len(), 2);
}

#[test]
fn a_single_devices_result_is_taken_over_where_complete() {
    let mut p = Profiles::new();
    p.adopt("", 1, 1);
    p.adopt("a", 0, 1);
    p.adopt("a", 1, 0);
    assert_eq!(p.len(), 0);
    p.adopt("a", 1, 1);
    assert_eq!(pair(p.get("a")), Some((1, 1)));
    p.adopt("a", 2, 2);
    assert_eq!(pair(p.get("a")), Some((1, 1)));
}

#[test]
fn cards_of_one_make_are_tuned_once() {
    let mut f = Fleet::new(Profiles::new(), false);
    assert!(matches!(f.plan("x"), CardPlan::Tune { forced: false }));
    f.on_tuned("x".to_string(), &BenchResult { batch_size: 8, pipeline_depth: 2, rate: 5 });
    assert!(f.updated);
    match f.plan("x") {
        CardPlan::Reuse(p) => {
            assert_eq!((p.batch_size, p.pipeline_depth), (8, 2));
            f.on_reuse(p);
        }
        CardPlan::Tune { .. } => panic!(),
    }
    assert!(matches!(f.plan("y"), CardPlan::Tune { forced: false }));
    let cards: Vec<(u64, u32)> = f.cards.iter().map(|c| (c.batch_size, c.pipeline_depth)).collect();
    assert_eq!(cards, vec![(8, 2), (8, 2)]);
    assert_eq!(f.profiles.len(), 1);
}

#[test]
fn known_makes_are_not_tuned() {
    let mut p = Profiles::new();
    p.insert("x".to_string(), profile(16, 3));
    let f = Fleet::new(p, false);
    assert!(matches!(f.plan("x"), CardPlan::Reuse(p) if p.batch_size == 16));
    assert!(!f.updated);
}

#[test]
fn retuning_is_for_every_card() {
    let mut p = Profiles::new();
    p.insert("x".to_string(), profile(16, 3));
    let mut f = Fleet::new(p, true);
    assert!(matches!(f.plan("x"), CardPlan::Tune { forced: true }));
    f.on_tuned("x".to_string(), &BenchResult { batch_size: 8, pipeline_depth: 2, rate: 5 });
    assert!(matches!(f.plan("x"), CardPlan::Tune { forced: true }));
    assert_eq!(pair(f.profiles.get("x")), Some((8, 2)));
}
