use loadouts::character::Evaluation;
use loadouts::tracker::judge;
use loadouts::tracker::raise;
use loadouts::tracker::Metric;
use loadouts::tracker::Statistics;
use loadouts::tracker::HEALTH_BOUND;
use std::sync::atomic::AtomicU64;
use std::sync::atomic::Ordering;

#[test]
fn judge_takes_only_a_greater_candidate() {
    assert!(judge(10, 11).improved);
    assert!(!judge(10, 10).improved);
    assert!(!judge(10, 9).improved);
    assert!(!judge(0, 0).improved);
    assert!(!judge(0, -1).improved);
    assert!(judge(0, 1).improved);
    assert_eq!(judge(7, 3).previous, 7);
    assert!(judge(u64::MAX - 1, i64::MAX).improved == false);
}

#[test]
fn raise_leaves_the_greater_value_in_the_cell() {
    let cell = AtomicU64::new(0);
    let first = raise(&cell, 5);
    assert_eq!(first.previous, 0);
    assert!(first.improved);
    assert_eq!(cell.load(Ordering::Relaxed), 5);
    let second = raise(&cell, 3);
    assert_eq!(second.previous, 5);
    assert!(!second.improved);
    assert_eq!(cell.load(Ordering::Relaxed), 5);
    let third = raise(&cell, 5);
    assert!(!third.improved);
    let fourth = raise(&cell, -4);
    assert_eq!(fourth.previous, 5);
    assert!(!fourth.improved);
    assert_eq!(cell.load(Ordering::Relaxed), 5);
    let fifth = raise(&cell, 9);
    assert_eq!(fifth.previous, 5);
    assert!(fifth.improved);
    assert_eq!(cell.load(Ordering::Relaxed), 9);
}

#[test]
fn distinct_proposals_leave_the_true_maximum() {
    let proposals: Vec<i64> = (1..=64).map(|n| (n * 7919) % 1009 + n).collect();
    let expected = *proposals.iter().max().unwrap() as u64;
    // Every rotation of the proposals is one order in which the offers may fall.
    for shift in 0..proposals.len() {
        let cell = AtomicU64::new(0);
        let mut improvements = 0;
        for k in 0..proposals.len() {
            if raise(&cell, proposals[(k + shift) % proposals.len()]).improved {
                improvements += 1;
            }
        }
        assert!(improvements >= 1);
        assert_eq!(cell.load(Ordering::Relaxed), expected);
    }
}

#[test]
fn offers_in_any_order_leave_the_same_maximum() {
    let values: [i64; 5] = [17, 3, 99, 42, 98];
    let forward = AtomicU64::new(0);
    for &v in values.iter() {
        raise(&forward, v);
    }
    let backward = AtomicU64::new(0);
    for &v in values.iter().rev() {
        raise(&backward, v);
    }
    assert_eq!(forward.load(Ordering::Relaxed), 99);
    assert_eq!(backward.load(Ordering::Relaxed), 99);
}

#[test]
fn a_fresh_tracker_holds_zero_everywhere() {
    let stats = Statistics::new();
    assert_eq!(stats.best(Metric::Health), 0);
    assert_eq!(stats.best(Metric::Volume), 0);
    assert_eq!(stats.best(Metric::Mana), 0);
    assert_eq!(stats.best(Metric::Healing), 0);
    let table = stats.table();
    assert_eq!(table.len(), HEALTH_BOUND);
    assert!(table.iter().all(|&v| v == 0));
}

#[test]
fn record_raises_each_cell_and_the_bucket() {
    let stats = Statistics::new();
    let first = Evaluation { health: 500, mana: 1240, healing: 10, volume: 2500 };
    let outcome = stats.record(&first).unwrap();
    assert!(outcome.health.improved && outcome.volume.improved);
    assert!(outcome.mana.improved && outcome.healing.improved && outcome.bucket.improved);
    assert_eq!(outcome.get(Metric::Mana).previous, 0);
    let second = Evaluation { health: 500, mana: 1300, healing: 5, volume: 2400 };
    let outcome = stats.record(&second).unwrap();
    assert!(!outcome.health.improved);
    assert_eq!(outcome.health.previous, 500);
    assert!(!outcome.volume.improved);
    assert!(outcome.mana.improved);
    assert_eq!(outcome.mana.previous, 1240);
    assert!(!outcome.healing.improved);
    assert!(!outcome.bucket.improved);
    assert_eq!(outcome.bucket.previous, 2500);
    assert_eq!(stats.best(Metric::Health), 500);
    assert_eq!(stats.best(Metric::Volume), 2500);
    assert_eq!(stats.best(Metric::Mana), 1300);
    assert_eq!(stats.best(Metric::Healing), 10);
    let table = stats.table();
    assert_eq!(table[500], 2500);
    assert_eq!(table[499], 0);
}

#[test]
fn record_refuses_a_health_without_a_bucket() {
    let stats = Statistics::new();
    let high = Evaluation { health: 10_000, mana: 50, healing: 50, volume: 50 };
    assert_eq!(stats.record(&high).unwrap_err().health, 10_000);
    let low = Evaluation { health: -1, mana: 50, healing: 50, volume: 50 };
    assert_eq!(stats.record(&low).unwrap_err().health, -1);
    assert_eq!(stats.best(Metric::Mana), 0);
    assert_eq!(stats.best(Metric::Volume), 0);
    let edge = Evaluation { health: 9_999, mana: 50, healing: 50, volume: 50 };
    assert!(stats.record(&edge).is_ok());
    assert_eq!(stats.table()[9_999], 50);
}
