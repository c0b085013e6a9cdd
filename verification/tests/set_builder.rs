//! The set builder on its own: folding element vectors into bitmask set
//! values.

use flags_dsl::builder::{DefaultSet, FlagElement, set_from_elems};

#[test]
fn fold_of_no_elements_is_empty() {
    let none: Vec<u64> = Vec::new();
    assert_eq!(u64::set_from_iter(none), 0);
    let none32: Vec<u32> = Vec::new();
    assert_eq!(u32::set_from_iter(none32), 0);
}

#[test]
fn fold_unions_bit_patterns() {
    assert_eq!(u64::set_from_iter(vec![0b0001, 0b0010, 0b1000]), 0b1011);
    assert_eq!(u32::set_from_iter(vec![0b01, 0b10]), 0b11);
}

#[test]
fn fold_is_idempotent_on_repeats() {
    assert_eq!(u64::set_from_iter(vec![0b01, 0b01, 0b01]), 0b01);
}

#[test]
fn set_from_elems_matches_set_from_iter() {
    let elems = vec![0b100u64, 0b010, 0b001];
    assert_eq!(set_from_elems::<u64>(elems.clone()), u64::set_from_iter(elems));
}

#[test]
fn combine_is_bitwise_or() {
    assert_eq!(u64::combine(0b01, 0b10), 0b11);
    assert_eq!(u64::empty_set(), 0);
    assert_eq!(u32::combine(0b01, 0b10), 0b11);
    assert_eq!(u32::empty_set(), 0);
}
