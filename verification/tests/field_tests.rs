use ministark::field::{Felt, MODULUS};

fn f(x: u64) -> Felt {
    Felt::new(x)
}

#[test]
fn felt_new_reduces() {
    assert_eq!(f(MODULUS).val, 0);
    assert_eq!(f(MODULUS - 1).val, MODULUS - 1);
    assert_eq!(Felt::zero().val, 0);
    assert_eq!(Felt::one().val, 1);
}

#[test]
fn felt_add_wraps_at_modulus() {
    assert_eq!(f(1).add(f(2)).val, 3);
    assert_eq!(f(MODULUS - 1).add(f(1)).val, 0);
    assert_eq!(f(MODULUS - 1).add(f(MODULUS - 1)).val, MODULUS - 2);
}

#[test]
fn felt_sub_wraps_below_zero() {
    assert_eq!(f(5).sub(f(3)).val, 2);
    assert_eq!(f(0).sub(f(1)).val, MODULUS - 1);
    assert_eq!(f(3).neg().val, MODULUS - 3);
    assert_eq!(f(0).neg().val, 0);
}

#[test]
fn felt_mul_exact() {
    assert_eq!(f(7).mul(f(6)).val, 42);
    // (p - 1)^2 = p^2 - 2p + 1 = 1 mod p
    assert_eq!(f(MODULUS - 1).mul(f(MODULUS - 1)).val, 1);
    assert_eq!(f(0).mul(f(12345)).val, 0);
}

#[test]
fn felt_pow_exact() {
    assert_eq!(f(2).pow(10).val, 1024);
    assert_eq!(f(5).pow(0).val, 1);
    // 2^64 mod (2^64 - 2^32 + 1) = 2^32 - 1
    assert_eq!(f(2).pow(64).val, 4294967295);
}
