use loadouts::codec::decode;
use loadouts::codec::encode;
use loadouts::codec::total;
use loadouts::odometer::Odometer;

#[test]
fn starts_at_the_decoded_ordinal() {
    let cards: Vec<usize> = vec![2, 2];
    let odometer = Odometer::start_at(&cards, 5);
    assert_eq!(odometer.current(), &vec![2, 1]);
    assert!(!odometer.is_exhausted());
}

#[test]
fn steps_through_all_loadouts_in_order() {
    let cards: Vec<usize> = vec![1, 2];
    let mut odometer = Odometer::start_at(&cards, 0);
    let expected: Vec<Vec<usize>> = vec![
        vec![0, 0],
        vec![1, 0],
        vec![0, 1],
        vec![1, 1],
        vec![0, 2],
        vec![1, 2],
    ];
    for (k, choices) in expected.iter().enumerate() {
        assert_eq!(odometer.current(), choices);
        let moved = odometer.advance(&cards);
        assert_eq!(moved, k + 1 < expected.len());
    }
    assert!(odometer.is_exhausted());
    assert_eq!(odometer.current(), &vec![0, 0]);
}

#[test]
fn stays_exhausted() {
    let cards: Vec<usize> = vec![1];
    let mut odometer = Odometer::start_at(&cards, 1);
    assert!(!odometer.advance(&cards));
    assert!(odometer.is_exhausted());
    assert!(!odometer.advance(&cards));
    assert!(odometer.is_exhausted());
    assert_eq!(odometer.current(), &vec![0]);
}

#[test]
fn carries_over_slots_at_their_bound() {
    let cards: Vec<usize> = vec![2, 0, 1, 3];
    let mut odometer = Odometer::start_at(&cards, encode(&cards, &vec![2, 0, 1, 1]).unwrap());
    assert!(odometer.advance(&cards));
    assert_eq!(odometer.current(), &vec![0, 0, 0, 2]);
}

#[test]
fn no_slots_make_one_loadout() {
    let cards: Vec<usize> = vec![];
    let mut odometer = Odometer::start_at(&cards, 0);
    assert_eq!(odometer.current(), &Vec::<usize>::new());
    assert!(!odometer.advance(&cards));
    assert!(odometer.is_exhausted());
}

#[test]
fn a_full_walk_visits_each_ordinal_once() {
    let cards: Vec<usize> = vec![3, 0, 2, 1, 4];
    let all = total(&cards).unwrap();
    let mut odometer = Odometer::start_at(&cards, 0);
    let mut seen: Vec<Vec<usize>> = Vec::new();
    for ordinal in 0..all {
        assert_eq!(encode(&cards, odometer.current()), Some(ordinal));
        assert_eq!(odometer.current(), &decode(&cards, ordinal));
        assert!(!seen.contains(odometer.current()));
        seen.push(odometer.current().clone());
        assert_eq!(odometer.advance(&cards), ordinal + 1 < all);
    }
    assert_eq!(seen.len() as u64, all);
    assert!(odometer.is_exhausted());
}

#[test]
fn a_walk_from_the_middle_goes_on_from_there() {
    let cards: Vec<usize> = vec![4, 2, 2, 5];
    let mut odometer = Odometer::start_at(&cards, 100);
    for ordinal in 100..200 {
        assert_eq!(encode(&cards, odometer.current()), Some(ordinal));
        assert!(odometer.advance(&cards));
    }
}
