use greeting_contract::U256;

#[test]
fn zero_and_from_u64() {
    assert!(U256::zero().is_zero());
    assert!(!U256::from_u64(1).is_zero());
    assert_eq!(U256::from_u64(0), U256::zero());
    assert_eq!(U256::from_u64(42), U256::from_limbs(42, 0, 0, 0));
}

#[test]
fn is_max_only_at_top() {
    assert!(U256::from_limbs(u64::MAX, u64::MAX, u64::MAX, u64::MAX).is_max());
    assert!(!U256::from_limbs(u64::MAX, u64::MAX, u64::MAX, 0).is_max());
    assert!(!U256::from_limbs(0, u64::MAX, u64::MAX, u64::MAX).is_max());
    assert!(!U256::zero().is_max());
}

#[test]
fn add_one_without_carry() {
    assert_eq!(U256::from_u64(41).add_one(), U256::from_u64(42));
}

#[test]
fn add_one_carries_across_limbs() {
    let one_limb_full = U256::from_limbs(u64::MAX, 0, 0, 0);
    assert_eq!(one_limb_full.add_one(), U256::from_limbs(0, 1, 0, 0));

    let two_limbs_full = U256::from_limbs(u64::MAX, u64::MAX, 5, 7);
    assert_eq!(two_limbs_full.add_one(), U256::from_limbs(0, 0, 6, 7));

    let three_limbs_full = U256::from_limbs(u64::MAX, u64::MAX, u64::MAX, 7);
    assert_eq!(three_limbs_full.add_one(), U256::from_limbs(0, 0, 0, 8));
}
