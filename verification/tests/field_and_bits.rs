use zk_ledger::bits::{decompose_index, pow2_usize};
use zk_ledger::field::{field_add, field_neg, field_sub};
use zk_ledger::types::FIELD_ORDER;

#[test]
fn field_add_small_values() {
    assert_eq!(field_add(100, 1), 101);
    assert_eq!(field_add(0, 0), 0);
}

#[test]
fn field_add_wraps_at_the_order() {
    assert_eq!(field_add(FIELD_ORDER - 1, 1), 0);
    assert_eq!(field_add(FIELD_ORDER - 1, FIELD_ORDER - 1), FIELD_ORDER - 2);
}

#[test]
fn field_sub_small_values() {
    assert_eq!(field_sub(101, 1), 100);
    assert_eq!(field_sub(5, 5), 0);
}

#[test]
fn field_sub_wraps_below_zero() {
    assert_eq!(field_sub(0, 1), FIELD_ORDER - 1);
}

#[test]
fn field_neg_values() {
    assert_eq!(field_neg(0), 0);
    assert_eq!(field_neg(5), FIELD_ORDER - 5);
    assert_eq!(field_add(5, field_neg(5)), 0);
}

#[test]
fn pow2_values() {
    assert_eq!(pow2_usize(0), 1);
    assert_eq!(pow2_usize(10), 1024);
    assert_eq!(pow2_usize(31), 0x8000_0000);
}

#[test]
fn decompose_ten_little_endian() {
    let bits = decompose_index(10, 10).unwrap();
    assert_eq!(bits.len(), 10);
    let expected = vec![false, true, false, true, false, false, false, false, false, false];
    assert_eq!(bits, expected);
}

#[test]
fn decompose_boundary_succeeds() {
    let bits = decompose_index(1023, 10).unwrap();
    assert_eq!(bits, vec![true; 10]);
}

#[test]
fn decompose_out_of_range_fails() {
    assert!(decompose_index(1024, 10).is_none());
    assert!(decompose_index(u64::MAX, 10).is_none());
    assert!(decompose_index(1, 0).is_none());
}

#[test]
fn decompose_zero_depth_zero_index() {
    let bits = decompose_index(0, 0).unwrap();
    assert_eq!(bits.len(), 0);
}
