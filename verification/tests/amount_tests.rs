use educoin::Amount;

#[test]
fn equal_values_are_equal() {
    assert_eq!(Amount::from_u64(5), Amount::from_u64(5));
    assert_ne!(Amount::from_u64(5), Amount::from_u64(6));
    assert_eq!(Amount::zero(), Amount::from_u64(0));
}

#[test]
fn trailing_zero_limbs_do_not_matter() {
    assert_eq!(Amount::from_limbs(vec![7, 0, 0]), Amount::from_u64(7));
    assert_eq!(Amount::from_limbs(vec![]), Amount::zero());
    assert!(Amount::from_limbs(vec![0, 0]).is_zero());
    assert!(!Amount::from_limbs(vec![0, 1]).is_zero());
}

#[test]
fn from_u64_splits_into_limbs() {
    // 2^32 + 5 has low limb 5 and high limb 1.
    let v = Amount::from_u64(0x1_0000_0005);
    assert_eq!(v, Amount::from_limbs(vec![5, 1]));
}

#[test]
fn add_is_exact_beyond_64_bits() {
    let max = Amount::from_u64(u64::MAX);
    let one = Amount::from_u64(1);
    // 2^64 is one limb beyond the largest u64.
    assert_eq!(max.add(&one), Amount::from_limbs(vec![0, 0, 1]));
    assert_eq!(Amount::from_u64(2).add(&Amount::from_u64(3)), Amount::from_u64(5));
}

#[test]
fn sub_is_exact_beyond_64_bits() {
    let two_to_64 = Amount::from_limbs(vec![0, 0, 1]);
    let one = Amount::from_u64(1);
    assert_eq!(two_to_64.sub(&one), Amount::from_u64(u64::MAX));
    assert_eq!(Amount::from_u64(5).sub(&Amount::from_u64(5)), Amount::zero());
}

#[test]
fn le_compares_values() {
    assert!(Amount::from_u64(3).le(&Amount::from_u64(3)));
    assert!(Amount::from_u64(3).le(&Amount::from_u64(4)));
    assert!(!Amount::from_u64(4).le(&Amount::from_u64(3)));
    assert!(Amount::from_u64(u64::MAX).le(&Amount::from_limbs(vec![0, 0, 1])));
    assert!(!Amount::from_limbs(vec![0, 0, 1]).le(&Amount::from_u64(u64::MAX)));
}

#[test]
fn limbs_round_trip() {
    let v = Amount::from_limbs(vec![17, 0, 3]);
    assert_eq!(Amount::from_limbs(v.to_limbs()), v);
    let w = Amount::from_u64(123_456_789);
    assert_eq!(Amount::from_limbs(w.to_limbs()), w);
}

#[test]
fn duplicate_preserves_value() {
    let v = Amount::from_u64(42);
    assert_eq!(v.duplicate(), v);
}
