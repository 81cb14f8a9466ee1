use zinknet::uint::Uint256;
use zinknet::word_map::WordMap;
use zinknet::layout::{centered_rect, centered_split};

fn word(n: u64) -> Uint256 {
    Uint256::from_u64(n)
}

#[test]
fn wrapping_add_carries_into_high_half() {
    let a = Uint256 { hi: 0, lo: u128::MAX };
    let b = Uint256 { hi: 3, lo: 2 };
    assert_eq!(a.wrapping_add(&b), Uint256 { hi: 4, lo: 1 });
}

#[test]
fn wrapping_add_wraps_at_two_to_the_256() {
    let max = Uint256 { hi: u128::MAX, lo: u128::MAX };
    assert_eq!(max.wrapping_add(&word(1)), Uint256::zero());
    assert_eq!(max.wrapping_increment(), Uint256::zero());
    assert_eq!(max.wrapping_add(&word(5)), word(4));
}

#[test]
fn wrapping_add_small_values() {
    assert_eq!(word(40).wrapping_add(&word(2)), word(42));
    assert_eq!(word(7).wrapping_increment(), word(8));
}

#[test]
fn decrement_borrows_from_high_half() {
    let a = Uint256 { hi: 1, lo: 0 };
    assert_eq!(a.decrement(), Uint256 { hi: 0, lo: u128::MAX });
    assert_eq!(word(9).decrement(), word(8));
}

#[test]
fn increment_then_decrement_restores() {
    let a = Uint256 { hi: 5, lo: u128::MAX };
    assert_eq!(a.wrapping_increment().decrement(), a);
}

#[test]
fn zero_test() {
    assert!(Uint256::zero().is_zero());
    assert!(!word(1).is_zero());
    assert!(!Uint256 { hi: 1, lo: 0 }.is_zero());
}

#[test]
fn word_map_insert_replaces_in_place_and_appends() {
    let mut m: WordMap<&str> = WordMap::new();
    assert!(m.is_empty());
    m.insert(word(3), "a");
    m.insert(word(1), "b");
    m.insert(word(3), "c");
    assert_eq!(m.len(), 2);
    let keys: Vec<Uint256> = m.entries().iter().map(|e| e.0).collect();
    assert_eq!(keys, vec![word(3), word(1)]);
    assert_eq!(m.get(&word(3)), Some(&"c"));
    assert_eq!(m.get(&word(2)), None);
    assert!(m.contains_key(&word(1)));
}

#[test]
fn word_map_remove_keeps_order() {
    let mut m: WordMap<u32> = WordMap::new();
    for i in 0..4u64 {
        m.insert(word(i), i as u32 * 10);
    }
    assert_eq!(m.remove(&word(1)), Some(10));
    assert_eq!(m.remove(&word(1)), None);
    let keys: Vec<Uint256> = m.entries().iter().map(|e| e.0).collect();
    assert_eq!(keys, vec![word(0), word(2), word(3)]);
    assert_eq!(m.nth_value(1), Some(&20));
    assert_eq!(m.nth_value(3), None);
}

#[test]
fn word_map_remove_indexed_and_insert_at_put_back_in_place() {
    let mut m: WordMap<u32> = WordMap::new();
    m.insert(word(5), 1);
    m.insert(word(6), 2);
    m.insert(word(7), 3);
    let (i, v) = m.remove_indexed(&word(6)).unwrap();
    assert_eq!((i, v), (1, 2));
    m.insert_at(i, word(6), 20);
    let entries: Vec<(Uint256, u32)> = m.entries().clone();
    assert_eq!(entries, vec![(word(5), 1), (word(6), 20), (word(7), 3)]);
    assert!(m.remove_indexed(&word(8)).is_none());
}

#[test]
fn centered_split_margins() {
    assert_eq!(centered_split(60), (20, 60, 20));
    assert_eq!(centered_split(25), (37, 25, 37));
    assert_eq!(centered_split(100), (0, 100, 0));
    assert_eq!(centered_rect(60, 25), ((37, 25, 37), (20, 60, 20)));
}
