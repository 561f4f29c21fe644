use loadouts::codec::check_loadout;
use loadouts::codec::decode;
use loadouts::codec::encode;
use loadouts::codec::total;

#[test]
fn total_is_the_product_of_the_radices() {
    assert_eq!(total(&vec![]), Some(1));
    assert_eq!(total(&vec![0]), Some(1));
    assert_eq!(total(&vec![2, 2]), Some(9));
    assert_eq!(total(&vec![4, 2, 2, 5]), Some(5 * 3 * 3 * 6));
    assert_eq!(total(&vec![1, 0, 3]), Some(8));
}

#[test]
fn total_matches_a_count_of_the_loadouts() {
    let cards: Vec<usize> = vec![2, 0, 3, 1];
    let mut count: u64 = 0;
    for a in 0..=cards[0] {
        for b in 0..=cards[1] {
            for c in 0..=cards[2] {
                for d in 0..=cards[3] {
                    assert!(check_loadout(&cards, &vec![a, b, c, d]));
                    count += 1;
                }
            }
        }
    }
    assert_eq!(total(&cards), Some(count));
    assert_eq!(count, 24);
}

#[test]
fn total_that_does_not_fit_is_none() {
    let cards: Vec<usize> = vec![9; 20];
    assert_eq!(total(&cards), None);
    let fits: Vec<usize> = vec![9; 19];
    assert_eq!(total(&fits), Some(10_000_000_000_000_000_000));
    assert_eq!(total(&vec![usize::MAX]), if usize::BITS == 64 { None } else { Some(1 << 32) });
}

#[test]
fn decode_takes_the_first_slot_as_the_fastest() {
    let cards: Vec<usize> = vec![2, 2];
    assert_eq!(decode(&cards, 0), vec![0, 0]);
    assert_eq!(decode(&cards, 1), vec![1, 0]);
    assert_eq!(decode(&cards, 2), vec![2, 0]);
    assert_eq!(decode(&cards, 3), vec![0, 1]);
    assert_eq!(decode(&cards, 5), vec![2, 1]);
    assert_eq!(decode(&cards, 8), vec![2, 2]);
    let mixed: Vec<usize> = vec![4, 1, 2];
    assert_eq!(decode(&mixed, 23), vec![3, 0, 2]);
    assert_eq!(decode(&vec![], 7), Vec::<usize>::new());
}

#[test]
fn encode_weighs_each_choice_by_the_slots_before_it() {
    let cards: Vec<usize> = vec![2, 2];
    assert_eq!(encode(&cards, &vec![2, 1]), Some(5));
    assert_eq!(encode(&cards, &vec![2, 2]), Some(8));
    let mixed: Vec<usize> = vec![4, 1, 2];
    assert_eq!(encode(&mixed, &vec![3, 0, 2]), Some(3 + 5 * 0 + 10 * 2));
    assert_eq!(encode(&vec![], &vec![]), Some(0));
}

#[test]
fn encode_refuses_what_is_no_loadout() {
    let cards: Vec<usize> = vec![2, 2];
    assert_eq!(encode(&cards, &vec![3, 0]), None);
    assert_eq!(encode(&cards, &vec![0]), None);
    assert_eq!(encode(&cards, &vec![0, 0, 0]), None);
    assert!(!check_loadout(&cards, &vec![0, 3]));
    assert!(check_loadout(&cards, &vec![2, 2]));
}

#[test]
fn encode_that_does_not_fit_is_none() {
    let cards: Vec<usize> = vec![9; 20];
    assert_eq!(encode(&cards, &vec![9; 20]), None);
    assert_eq!(encode(&cards, &vec![0; 20]), Some(0));
    let mut low = vec![9; 19];
    low.push(0);
    assert_eq!(encode(&cards, &low), Some(9_999_999_999_999_999_999));
}

#[test]
fn decode_and_encode_undo_each_other() {
    let cards: Vec<usize> = vec![3, 0, 2, 1, 4];
    let all = total(&cards).unwrap();
    assert_eq!(all, 4 * 1 * 3 * 2 * 5);
    for ordinal in 0..all {
        let choices = decode(&cards, ordinal);
        assert!(check_loadout(&cards, &choices));
        assert_eq!(encode(&cards, &choices), Some(ordinal));
    }
    for a in 0..=3 {
        for c in 0..=2 {
            for d in 0..=1 {
                for e in 0..=4 {
                    let choices = vec![a, 0, c, d, e];
                    let ordinal = encode(&cards, &choices).unwrap();
                    assert!(ordinal < all);
                    assert_eq!(decode(&cards, ordinal), choices);
                }
            }
        }
    }
}
