use bond_valuation::rational::Rat;

fn rat(n: i128, d: i128) -> Rat {
    Rat::new(n, d).unwrap()
}

#[test]
fn test_new_rejects_zero_denominator() {
    assert!(Rat::new(1, 0).is_none());
}

#[test]
fn test_new_normalizes_sign() {
    let half = Rat::new(1, -2).unwrap();
    assert_eq!(half.num(), -1);
    assert_eq!(half.den(), 2);
}

#[test]
fn test_add_exact() {
    let r = rat(1, 2).add(&rat(1, 3)).unwrap();
    assert_eq!(r.num(), 5);
    assert_eq!(r.den(), 6);
}

#[test]
fn test_sub_exact() {
    let r = rat(1, 2).sub(&rat(1, 3)).unwrap();
    assert_eq!(r.num(), 1);
    assert_eq!(r.den(), 6);
}

#[test]
fn test_mul_exact() {
    let r = rat(2, 3).mul(&rat(3, 4)).unwrap();
    assert_eq!(r.num(), 6);
    assert_eq!(r.den(), 12);
}

#[test]
fn test_div_exact() {
    let r = rat(2, 3).div(&rat(4, 5)).unwrap();
    assert_eq!(r.num(), 10);
    assert_eq!(r.den(), 12);
}

#[test]
fn test_div_by_zero_fails() {
    assert!(rat(2, 3).div(&rat(0, 1)).is_none());
}

#[test]
fn test_div_negative_keeps_denominator_positive() {
    let r = rat(2, 3).div(&rat(-4, 5)).unwrap();
    assert_eq!(r.num(), -10);
    assert_eq!(r.den(), 12);
}

#[test]
fn test_pow_exact() {
    let r = rat(2, 3).pow(3).unwrap();
    assert_eq!(r.num(), 8);
    assert_eq!(r.den(), 27);
}

#[test]
fn test_add_overflow_is_none() {
    let big = rat(i128::MAX, 1);
    assert!(big.add(&rat(1, 1)).is_none());
}

#[test]
fn test_signs() {
    assert!(rat(1, 2).is_pos());
    assert!(!rat(1, 2).is_neg());
    assert!(rat(-1, 2).is_neg());
    assert!(rat(0, 5).is_zero());
}
