use bond_valuation::bond::{Bond, BondError, CompoundingFreq, CorporateBond};
use bond_valuation::rational::Rat;

fn rat(n: i128, d: i128) -> Rat {
    Rat::new(n, d).unwrap()
}

fn to_f64(r: &Rat) -> f64 {
    r.num() as f64 / r.den() as f64
}

fn close(x: f64, y: f64) -> bool {
    (x - y).abs() < 1e-9
}

#[test]
fn test_coupon_payment() {
    let bond = CorporateBond::new(
        rat(5, 1),
        rat(3, 1),
        2,
        rat(1000, 1),
        CompoundingFreq::Semiannual,
        None,
        None,
    )
    .unwrap();
    let cp = bond.coupon_payment().unwrap();
    assert!(
        close(to_f64(&cp), 96.35961618879344),
        "Coupon payment calculation is incorrect"
    );
}

#[test]
fn test_net_present_value_annual() {
    let bond = CorporateBond::new(
        rat(5, 1),
        rat(3, 1),
        2,
        rat(1000, 1),
        CompoundingFreq::Annual,
        None,
        None,
    )
    .unwrap();
    let pv = bond.present_value().unwrap();
    assert!(
        close(to_f64(&pv), 1038.2693939108303),
        "Present value calculation is incorrect"
    );
}

#[test]
fn test_net_present_value_semiannual() {
    let bond = CorporateBond::new(
        rat(5, 1),
        rat(3, 1),
        2,
        rat(1000, 1),
        CompoundingFreq::Semiannual,
        None,
        None,
    )
    .unwrap();
    let pv = bond.present_value().unwrap();
    assert!(
        close(to_f64(&pv), 1038.543846475518),
        "Present value calculation is incorrect"
    );
}

#[test]
fn test_yield_to_maturity() {
    let bond = CorporateBond::new(
        rat(5, 1),
        rat(3, 1),
        2,
        rat(1000, 1),
        CompoundingFreq::Semiannual,
        Some(rat(1000, 1)),
        Some(rat(9421843778588191, 10000000000000)),
    )
    .unwrap();
    let y = bond.yield_to_maturity().unwrap();
    let val = 100.0 * (to_f64(&y.ratio).powf(1.0 / y.years as f64) - 1.0);
    assert!(close(val, 3.022491931915283), "Incorrect yield to maturity");
}

#[test]
fn test_holding_period_return() {
    let bond = CorporateBond::new(
        rat(5, 1),
        rat(3, 1),
        2,
        rat(1000, 1),
        CompoundingFreq::Semiannual,
        Some(rat(1000, 1)),
        Some(rat(1100, 1)),
    )
    .unwrap();
    let hpr = bond.holding_period_return().unwrap();
    assert!(
        close(to_f64(&hpr), 19.63596161887935),
        "Incorrect Holding period return"
    );
}

#[test]
fn test_yield_ratio_is_exact() {
    let bond = CorporateBond::new(
        rat(5, 1),
        rat(3, 1),
        2,
        rat(1000, 1),
        CompoundingFreq::Semiannual,
        None,
        Some(rat(9421843778588191, 10000000000000)),
    )
    .unwrap();
    let y = bond.yield_to_maturity().unwrap();
    assert_eq!(y.ratio.num(), 10_000_000_000_000_000);
    assert_eq!(y.ratio.den(), 9_421_843_778_588_191);
    assert_eq!(y.years, 2);
}

#[test]
fn test_zero_coupon_bond() {
    let bond = CorporateBond::new(
        rat(0, 1),
        rat(3, 1),
        2,
        rat(1000, 1),
        CompoundingFreq::Annual,
        None,
        None,
    )
    .unwrap();
    let cp = bond.coupon_payment().unwrap();
    assert_eq!(cp.num(), 0, "a zero-coupon bond pays no coupons");
    let pv = bond.present_value().unwrap();
    // Exactly 1000 / 1.03^2 == 10_000_000 / 10_609.
    assert_eq!(pv.num() * 10_609, 10_000_000 * pv.den());
}

#[test]
fn test_effective_rate_annual_is_nominal() {
    let bond = CorporateBond::new(
        rat(5, 1),
        rat(3, 1),
        2,
        rat(1000, 1),
        CompoundingFreq::Annual,
        None,
        None,
    )
    .unwrap();
    let ear = bond.effective_annual_rate().unwrap();
    assert_eq!(ear.num() * 100, 3 * ear.den());
}

#[test]
fn test_effective_rate_semiannual_exceeds_nominal() {
    let bond = CorporateBond::new(
        rat(5, 1),
        rat(3, 1),
        2,
        rat(1000, 1),
        CompoundingFreq::Semiannual,
        None,
        None,
    )
    .unwrap();
    let ear = bond.effective_annual_rate().unwrap();
    // Exactly (1 + 3/200)^2 - 1 == 1209 / 40000, which exceeds 3/100.
    assert_eq!(ear.num() * 40_000, 1_209 * ear.den());
    assert!(ear.num() * 100 > 3 * ear.den());
}

#[test]
fn test_present_value_decreases_with_discount_rate() {
    let low = CorporateBond::new(
        rat(5, 1),
        rat(3, 1),
        2,
        rat(1000, 1),
        CompoundingFreq::Semiannual,
        None,
        None,
    )
    .unwrap();
    let high = CorporateBond::new(
        rat(5, 1),
        rat(4, 1),
        2,
        rat(1000, 1),
        CompoundingFreq::Semiannual,
        None,
        None,
    )
    .unwrap();
    let pv_low = low.present_value().unwrap();
    let pv_high = high.present_value().unwrap();
    assert!(to_f64(&pv_high) < to_f64(&pv_low));
}

#[test]
fn test_missing_inputs() {
    let bond = CorporateBond::new(
        rat(5, 1),
        rat(3, 1),
        2,
        rat(1000, 1),
        CompoundingFreq::Semiannual,
        None,
        None,
    )
    .unwrap();
    assert!(matches!(bond.yield_to_maturity(), Err(BondError::MissingInput)));
    assert!(matches!(bond.holding_period_return(), Err(BondError::MissingInput)));
    let only_selling = CorporateBond::new(
        rat(5, 1),
        rat(3, 1),
        2,
        rat(1000, 1),
        CompoundingFreq::Semiannual,
        None,
        Some(rat(1100, 1)),
    )
    .unwrap();
    assert!(only_selling.yield_to_maturity().is_ok());
    assert!(matches!(only_selling.holding_period_return(), Err(BondError::MissingInput)));
}

#[test]
fn test_invalid_parameters() {
    let zero_maturity = CorporateBond::new(
        rat(5, 1),
        rat(3, 1),
        0,
        rat(1000, 1),
        CompoundingFreq::Annual,
        None,
        None,
    );
    assert!(matches!(zero_maturity, Err(BondError::InvalidParameter)));
    let zero_face = CorporateBond::new(
        rat(5, 1),
        rat(3, 1),
        2,
        rat(0, 1),
        CompoundingFreq::Annual,
        None,
        None,
    );
    assert!(matches!(zero_face, Err(BondError::InvalidParameter)));
    let negative_face = CorporateBond::new(
        rat(5, 1),
        rat(3, 1),
        2,
        rat(-1000, 1),
        CompoundingFreq::Annual,
        None,
        None,
    );
    assert!(matches!(negative_face, Err(BondError::InvalidParameter)));
    let negative_coupon = CorporateBond::new(
        rat(-5, 1),
        rat(3, 1),
        2,
        rat(1000, 1),
        CompoundingFreq::Annual,
        None,
        None,
    );
    assert!(matches!(negative_coupon, Err(BondError::InvalidParameter)));
    let negative_discount = CorporateBond::new(
        rat(5, 1),
        rat(-3, 1),
        2,
        rat(1000, 1),
        CompoundingFreq::Annual,
        None,
        None,
    );
    assert!(matches!(negative_discount, Err(BondError::InvalidParameter)));
    let zero_price = CorporateBond::new(
        rat(5, 1),
        rat(3, 1),
        2,
        rat(1000, 1),
        CompoundingFreq::Annual,
        None,
        Some(rat(0, 1)),
    );
    assert!(matches!(zero_price, Err(BondError::InvalidParameter)));
}

#[test]
fn test_overflow_is_reported() {
    let bond = CorporateBond::new(
        rat(5, 1),
        rat(3, 1),
        50,
        rat(1000, 1),
        CompoundingFreq::Monthly,
        None,
        None,
    )
    .unwrap();
    assert!(matches!(bond.coupon_payment(), Err(BondError::Overflow)));
    assert!(matches!(bond.present_value(), Err(BondError::Overflow)));
}
