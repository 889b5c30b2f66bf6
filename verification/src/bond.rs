//! The bond valuation engine: a coupon-bearing bond with exact-rational
//! terms, and the valuation metrics over it.
//!
//! Rates are nominal annual percentages (`5` means five percent).  Every
//! metric is an exact rational; a computation whose exact value (or some value
//! on the way to it) leaves the `i128` range reports
//! [`BondError::Overflow`] instead of a rounded or senseless number.

use vstd::prelude::*;

use crate::rational::{
    Rat, Qv, q_wf, q_int, q_zero, q_one, q_lt, q_le, q_add, q_sub, q_mul, q_div, q_pow, q_fits,
    q_add_fits, q_sub_fits, q_mul_fits, q_div_fits, q_pow_fits, lemma_q_pow_pos,
};

verus! {

/// How many times per year the nominal rates compound.
#[derive(Clone, Copy, PartialEq, Eq, Structural, Debug)]
pub enum CompoundingFreq {
    Annual,
    Semiannual,
    Quarterly,
    Monthly,
}

/// The ways a request to the engine can fail.
#[derive(Clone, Copy, PartialEq, Eq, Structural, Debug)]
pub enum BondError {
    /// A structural invariant of the bond terms is violated at construction.
    InvalidParameter,
    /// An evaluation needs an optional price that was not supplied.
    MissingInput,
    /// The exact result does not fit the machine representation.
    Overflow,
}

/// Compounding periods per year.
pub open spec fn spec_periods(f: CompoundingFreq) -> int {
    match f {
        CompoundingFreq::Annual => 1,
        CompoundingFreq::Semiannual => 2,
        CompoundingFreq::Quarterly => 4,
        CompoundingFreq::Monthly => 12,
    }
}

impl CompoundingFreq {
    /// Compounding periods per year: 1, 2, 4 or 12.
    pub fn periods_per_year(&self) -> (r: u32)
        ensures
            r as int == spec_periods(*self),
            1 <= r <= 12,
    {
        match self {
            CompoundingFreq::Annual => 1,
            CompoundingFreq::Semiannual => 2,
            CompoundingFreq::Quarterly => 4,
            CompoundingFreq::Monthly => 12,
        }
    }
}

/// Mathematical content of a bond: its terms as exact rationals.
pub ghost struct BondV {
    pub coupon_rate: Qv,
    pub discount_rate: Qv,
    pub maturity: int,
    pub face_value: Qv,
    pub freq: CompoundingFreq,
    pub buying_price: Option<Qv>,
    pub selling_price: Option<Qv>,
}

/// Ghost image of an optional price.
pub open spec fn opt_q(o: Option<Rat>) -> Option<Qv> {
    match o {
        Some(p) => Some(p@),
        None => None,
    }
}

/// The value under an optional that the formulas read; only ever applied
/// where the option is known to be present.
pub open spec fn opt_val(o: Option<Qv>) -> Qv {
    match o {
        Some(v) => v,
        None => q_zero(),
    }
}

/// The structural invariants of a bond: positive maturity and face value,
/// nonnegative rates, and positive prices wherever they are supplied.
pub open spec fn valid_bond(b: BondV) -> bool {
    &&& q_wf(b.coupon_rate)
    &&& q_wf(b.discount_rate)
    &&& q_wf(b.face_value)
    &&& b.maturity > 0
    &&& q_lt(q_zero(), b.face_value)
    &&& q_le(q_zero(), b.coupon_rate)
    &&& q_le(q_zero(), b.discount_rate)
    &&& (b.buying_price matches Some(p) ==> q_wf(p) && q_lt(q_zero(), p))
    &&& (b.selling_price matches Some(p) ==> q_wf(p) && q_lt(q_zero(), p))
}

/// `100 n`, the divisor that turns a nominal annual percentage into a
/// periodic fraction.
pub open spec fn hundred_p(b: BondV) -> Qv {
    q_int(100 * spec_periods(b.freq))
}

/// The periodic discount rate `discount_rate / 100 / n`.
pub open spec fn periodic_rate(b: BondV) -> Qv {
    q_div(b.discount_rate, hundred_p(b))
}

/// One plus the periodic discount rate.
pub open spec fn growth(b: BondV) -> Qv {
    q_add(q_one(), periodic_rate(b))
}

/// The one-period discount factor `1 / (1 + r)`.
pub open spec fn discount_factor(b: BondV) -> Qv {
    q_div(q_one(), growth(b))
}

/// The shape of the compounding base: one plus the periodic rate is one
/// fraction over the scaled denominator, with both components positive.
pub proof fn lemma_growth_components(b: BondV)
    requires
        valid_bond(b),
    ensures
        growth(b) == (Qv {
            n: b.discount_rate.d * (100 * spec_periods(b.freq)) + b.discount_rate.n,
            d: b.discount_rate.d * (100 * spec_periods(b.freq)),
        }),
        growth(b).n > 0,
        growth(b).d > 0,
{
    let pp = spec_periods(b.freq);
    let dr = b.discount_rate;
    assert(pp > 0);
    assert(dr.d * (100 * pp) > 0) by (nonlinear_arith)
        requires
            dr.d > 0,
            pp > 0,
    ;
    assert(growth(b).n == 1 * (dr.d * (100 * pp)) + (dr.n * 1) * 1);
}

/// The coupon cash flow of one period, `face_value * coupon_rate / 100 / n`.
pub open spec fn periodic_coupon(b: BondV) -> Qv {
    q_div(q_mul(b.face_value, b.coupon_rate), hundred_p(b))
}

/// Total number of coupon periods, `n * maturity`.
pub open spec fn n_periods(b: BondV) -> nat {
    (spec_periods(b.freq) * b.maturity) as nat
}

/// The annuity factor: the sum of the first `k` powers of `q`,
/// `q + q^2 + ... + q^k`.
pub open spec fn pow_sum(q: Qv, k: nat) -> Qv
    decreases k,
{
    if k == 0 {
        q_zero()
    } else {
        q_add(pow_sum(q, (k - 1) as nat), q_pow(q, k))
    }
}

/// Present value of the whole coupon stream: the periodic coupon times the
/// annuity factor of the periodic discount, `sum over t of c * (1/(1+r))^t`.
pub open spec fn spec_coupon_payment(b: BondV) -> Qv {
    q_mul(periodic_coupon(b), pow_sum(discount_factor(b), n_periods(b)))
}

/// The textbook form of the same value: the coupon cash flow discounted
/// period by period, `c/(1+r) + c/(1+r)^2 + ... + c/(1+r)^k`.  A proved law
/// states that `spec_coupon_payment` denotes exactly this sum.
pub open spec fn discounted_coupon_sum(b: BondV, k: nat) -> Qv
    decreases k,
{
    if k == 0 {
        q_zero()
    } else {
        q_add(
            discounted_coupon_sum(b, (k - 1) as nat),
            q_div(periodic_coupon(b), q_pow(growth(b), k)),
        )
    }
}

/// The effective annual rate `(1 + rate/(100 n))^n - 1` implied by the
/// nominal discount rate and the compounding frequency.
pub open spec fn spec_ear(b: BondV) -> Qv {
    q_sub(q_pow(growth(b), spec_periods(b.freq) as nat), q_one())
}

pub open spec fn one_plus_ear(b: BondV) -> Qv {
    q_add(q_one(), spec_ear(b))
}

/// The redemption payment discounted at the effective annual rate,
/// `face_value / (1 + ear)^maturity`.
pub open spec fn spec_face_term(b: BondV) -> Qv {
    q_div(b.face_value, q_pow(one_plus_ear(b), b.maturity as nat))
}

/// Total fair price: discounted coupons plus the discounted face value.
pub open spec fn spec_present_value(b: BondV) -> Qv {
    q_add(spec_coupon_payment(b), spec_face_term(b))
}

/// Flat holding-period return in percent,
/// `100 * ((selling_price + coupon_payment) / buying_price - 1)`.
pub open spec fn spec_holding_period_return(b: BondV) -> Qv {
    q_mul(
        q_int(100),
        q_sub(
            q_div(q_add(opt_val(b.selling_price), spec_coupon_payment(b)), opt_val(b.buying_price)),
            q_one(),
        ),
    )
}

/// The ratio `face_value / selling_price` whose `maturity`-th root determines
/// the (simplified) yield to maturity.
pub open spec fn spec_yield_ratio(b: BondV) -> Qv {
    q_div(b.face_value, opt_val(b.selling_price))
}

/// Exact condition under which the annuity summation stays representable:
/// every discount-factor power and every partial sum along the way fits.
pub open spec fn pow_sum_fits(q: Qv, k: nat) -> bool {
    forall|j: nat|
        #![trigger q_pow(q, j)]
        1 <= j <= k ==> q_fits(q_pow(q, j)) && q_add_fits(pow_sum(q, (j - 1) as nat), q_pow(q, j))
}

/// Exact condition under which `coupon_payment` succeeds.
pub open spec fn cp_ok(b: BondV) -> bool {
    &&& q_mul_fits(b.face_value, b.coupon_rate)
    &&& q_div_fits(q_mul(b.face_value, b.coupon_rate), hundred_p(b))
    &&& q_div_fits(b.discount_rate, hundred_p(b))
    &&& q_add_fits(q_one(), periodic_rate(b))
    &&& pow_sum_fits(discount_factor(b), n_periods(b))
    &&& q_mul_fits(periodic_coupon(b), pow_sum(discount_factor(b), n_periods(b)))
}

/// Exact condition under which `effective_annual_rate` succeeds.
pub open spec fn ear_ok(b: BondV) -> bool {
    &&& q_div_fits(b.discount_rate, hundred_p(b))
    &&& q_add_fits(q_one(), periodic_rate(b))
    &&& q_pow_fits(growth(b), spec_periods(b.freq) as nat)
    &&& q_sub_fits(q_pow(growth(b), spec_periods(b.freq) as nat), q_one())
}

/// Exact condition under which `present_value` succeeds.
pub open spec fn pv_ok(b: BondV) -> bool {
    &&& cp_ok(b)
    &&& ear_ok(b)
    &&& q_add_fits(q_one(), spec_ear(b))
    &&& q_pow_fits(one_plus_ear(b), b.maturity as nat)
    &&& q_div_fits(b.face_value, q_pow(one_plus_ear(b), b.maturity as nat))
    &&& q_add_fits(spec_coupon_payment(b), spec_face_term(b))
}

/// Exact condition under which `holding_period_return` succeeds once both
/// prices are supplied.
pub open spec fn hpr_ok(b: BondV) -> bool {
    let total = q_add(opt_val(b.selling_price), spec_coupon_payment(b));
    let ratio = q_div(total, opt_val(b.buying_price));
    &&& cp_ok(b)
    &&& q_add_fits(opt_val(b.selling_price), spec_coupon_payment(b))
    &&& q_div_fits(total, opt_val(b.buying_price))
    &&& q_sub_fits(ratio, q_one())
    &&& q_mul_fits(q_int(100), q_sub(ratio, q_one()))
}

/// An immutable coupon-bearing bond with exact-rational terms.
pub struct CorporateBond {
    coupon_rate: Rat,
    discount_rate: Rat,
    maturity: u32,
    face_value: Rat,
    compounding_freq: CompoundingFreq,
    buying_price: Option<Rat>,
    current_selling_price: Option<Rat>,
}

impl View for CorporateBond {
    type V = BondV;

    closed spec fn view(&self) -> BondV {
        BondV {
            coupon_rate: self.coupon_rate@,
            discount_rate: self.discount_rate@,
            maturity: self.maturity as int,
            face_value: self.face_value@,
            freq: self.compounding_freq,
            buying_price: opt_q(self.buying_price),
            selling_price: opt_q(self.current_selling_price),
        }
    }
}

impl CorporateBond {
    /// Builds a bond after checking its structural invariants: `maturity`
    /// and `face_value` positive, rates nonnegative, and each supplied price
    /// positive.  Fails with `InvalidParameter` exactly when one of them is
    /// violated.
    pub fn new(
        coupon_rate: Rat,
        discount_rate: Rat,
        maturity: u32,
        face_value: Rat,
        compounding_freq: CompoundingFreq,
        buying_price: Option<Rat>,
        current_selling_price: Option<Rat>,
    ) -> (r: Result<CorporateBond, BondError>)
        requires
            coupon_rate.wf(),
            discount_rate.wf(),
            face_value.wf(),
            buying_price matches Some(p) ==> p.wf(),
            current_selling_price matches Some(p) ==> p.wf(),
        ensures
            r is Ok <==> {
                &&& maturity > 0
                &&& q_lt(q_zero(), face_value@)
                &&& q_le(q_zero(), coupon_rate@)
                &&& q_le(q_zero(), discount_rate@)
                &&& (buying_price matches Some(p) ==> q_lt(q_zero(), p@))
                &&& (current_selling_price matches Some(p) ==> q_lt(q_zero(), p@))
            },
            r matches Ok(b) ==> b@ == (BondV {
                coupon_rate: coupon_rate@,
                discount_rate: discount_rate@,
                maturity: maturity as int,
                face_value: face_value@,
                freq: compounding_freq,
                buying_price: opt_q(buying_price),
                selling_price: opt_q(current_selling_price),
            }) && valid_bond(b@),
            r matches Err(e) ==> e == BondError::InvalidParameter,
    {
        if maturity == 0 {
            return Err(BondError::InvalidParameter);
        }
        if !face_value.is_pos() {
            return Err(BondError::InvalidParameter);
        }
        if coupon_rate.is_neg() {
            return Err(BondError::InvalidParameter);
        }
        if discount_rate.is_neg() {
            return Err(BondError::InvalidParameter);
        }
        let bad_buy = match &buying_price {
            Some(p) => !p.is_pos(),
            None => false,
        };
        if bad_buy {
            return Err(BondError::InvalidParameter);
        }
        let bad_sell = match &current_selling_price {
            Some(p) => !p.is_pos(),
            None => false,
        };
        if bad_sell {
            return Err(BondError::InvalidParameter);
        }
        Ok(CorporateBond {
            coupon_rate,
            discount_rate,
            maturity,
            face_value,
            compounding_freq,
            buying_price,
            current_selling_price,
        })
    }

    /// The effective annual rate `(1 + rate/(100 n))^n - 1` implied by the
    /// discount rate and the compounding frequency; `Overflow` exactly when
    /// the exact chain of operations leaves the machine range.
    pub fn effective_annual_rate(&self) -> (r: Result<Rat, BondError>)
        requires
            valid_bond(self@),
        ensures
            r is Ok <==> ear_ok(self@),
            r matches Ok(v) ==> v.wf() && v@ == spec_ear(self@),
            r matches Err(e) ==> e == BondError::Overflow,
    {
        let p = self.compounding_freq.periods_per_year();
        let hp = Rat::from_int((100 * p) as i128);
        let one = Rat::from_int(1);
        let pr = match self.discount_rate.div(&hp) {
            Some(v) => v,
            None => return Err(BondError::Overflow),
        };
        let g = match one.add(&pr) {
            Some(v) => v,
            None => return Err(BondError::Overflow),
        };
        let powg = match g.pow(p) {
            Some(v) => v,
            None => return Err(BondError::Overflow),
        };
        let ear = match powg.sub(&one) {
            Some(v) => v,
            None => return Err(BondError::Overflow),
        };
        Ok(ear)
    }
}

/// The exact content of a (simplified) yield to maturity: the percentage
/// yield is `100 * (ratio^(1/years) - 1)`, whose root is irrational in
/// general and is therefore left to the caller to approximate.
#[derive(Clone, Copy)]
pub struct YieldRoot {
    pub ratio: Rat,
    pub years: u32,
}

/// The capability every bond variant offers: the four valuation metrics.
pub trait Bond {
    /// The mathematical content of the bond.
    spec fn model(&self) -> BondV;

    /// Present value of the coupon stream alone, discounted period by period
    /// at the periodic nominal rate; `Overflow` exactly when the exact
    /// summation leaves the machine range.
    fn coupon_payment(&self) -> (r: Result<Rat, BondError>)
        requires
            valid_bond(self.model()),
        ensures
            r is Ok <==> cp_ok(self.model()),
            r matches Ok(v) ==> v.wf() && v@ == spec_coupon_payment(self.model()),
            r matches Err(e) ==> e == BondError::Overflow,
    ;

    /// Total fair price: the coupon stream at the periodic rate plus the face
    /// value discounted at the effective annual rate.
    fn present_value(&self) -> (r: Result<Rat, BondError>)
        requires
            valid_bond(self.model()),
        ensures
            r is Ok <==> pv_ok(self.model()),
            r matches Ok(v) ==> v.wf() && v@ == spec_present_value(self.model()),
            r matches Err(e) ==> e == BondError::Overflow,
    ;

    /// Flat (non-annualized) total return over the holding period in percent,
    /// `100 * ((selling + coupon_payment) / buying - 1)`; `MissingInput`
    /// exactly when either price is absent.
    fn holding_period_return(&self) -> (r: Result<Rat, BondError>)
        requires
            valid_bond(self.model()),
        ensures
            r == Err::<Rat, BondError>(BondError::MissingInput) <==> (self.model().buying_price
                is None || self.model().selling_price is None),
            r is Ok <==> self.model().buying_price is Some && self.model().selling_price is Some
                && hpr_ok(self.model()),
            r matches Ok(v) ==> v.wf() && v@ == spec_holding_period_return(self.model()),
            r matches Err(e) ==> e == BondError::MissingInput || e == BondError::Overflow,
    ;

    /// The exact root problem behind the simplified yield to maturity,
    /// `100 * ((face/selling)^(1/maturity) - 1)`: the ratio and the year
    /// count; `MissingInput` exactly when the selling price is absent.
    fn yield_to_maturity(&self) -> (r: Result<YieldRoot, BondError>)
        requires
            valid_bond(self.model()),
        ensures
            r == Err::<YieldRoot, BondError>(BondError::MissingInput) <==> self.model().selling_price
                is None,
            r is Ok <==> self.model().selling_price is Some && q_div_fits(
                self.model().face_value,
                opt_val(self.model().selling_price),
            ),
            r matches Ok(y) ==> y.ratio.wf() && y.ratio@ == spec_yield_ratio(self.model())
                && y.years as int == self.model().maturity,
            r matches Err(e) ==> e == BondError::MissingInput || e == BondError::Overflow,
    ;
}

impl Bond for CorporateBond {
    open spec fn model(&self) -> BondV {
        self@
    }

    fn coupon_payment(&self) -> (r: Result<Rat, BondError>) {
        let ghost b = self@;
        let p = self.compounding_freq.periods_per_year();
        let np: u64 = (p as u64) * (self.maturity as u64);
        proof {
            assert(np as int == n_periods(b));
        }
        let hp = Rat::from_int((100 * p) as i128);
        let one = Rat::from_int(1);
        let fc = match self.face_value.mul(&self.coupon_rate) {
            Some(v) => v,
            None => return Err(BondError::Overflow),
        };
        let c = match fc.div(&hp) {
            Some(v) => v,
            None => return Err(BondError::Overflow),
        };
        let pr = match self.discount_rate.div(&hp) {
            Some(v) => v,
            None => return Err(BondError::Overflow),
        };
        let g = match one.add(&pr) {
            Some(v) => v,
            None => return Err(BondError::Overflow),
        };
        proof {
            assert(g@.n > 0 && g@.d > 0);
        }
        let q = match one.div(&g) {
            Some(v) => v,
            None => {
                proof {
                    assert(false);
                }
                return Err(BondError::Overflow);
            },
        };
        let mut qt = one;
        let mut acc = Rat::from_int(0);
        let mut t: u64 = 0;
        while t < np
            invariant
                b == self@,
                t <= np,
                np as int == n_periods(b),
                valid_bond(b),
                c.wf(),
                c@ == periodic_coupon(b),
                q.wf(),
                q@ == discount_factor(b),
                qt.wf(),
                qt@ == q_pow(discount_factor(b), t as nat),
                acc.wf(),
                acc@ == pow_sum(discount_factor(b), t as nat),
                cp_ok(b) ==> pow_sum_fits(discount_factor(b), n_periods(b)),
                forall|j: nat| #![trigger q_pow(discount_factor(b), j)] 1 <= j <= t ==> q_fits(
                    q_pow(discount_factor(b), j),
                ) && q_add_fits(
                    pow_sum(discount_factor(b), (j - 1) as nat),
                    q_pow(discount_factor(b), j),
                ),
            decreases np - t,
        {
            let ghost df = discount_factor(b);
            proof {
                assert(q_pow(df, (t + 1) as nat) == q_mul(q_pow(df, t as nat), df));
                assert(pow_sum(df, (t + 1) as nat) == q_add(
                    pow_sum(df, t as nat),
                    q_pow(df, (t + 1) as nat),
                ));
            }
            let qn = match qt.mul(&q) {
                Some(v) => v,
                None => {
                    proof {
                        assert(!q_fits(q_pow(df, (t + 1) as nat)));
                        assert(1 <= (t + 1) as nat <= n_periods(b));
                        assert(!pow_sum_fits(df, n_periods(b)));
                        assert(!cp_ok(b));
                    }
                    return Err(BondError::Overflow);
                },
            };
            let an = match acc.add(&qn) {
                Some(v) => v,
                None => {
                    proof {
                        assert(!q_add_fits(pow_sum(df, t as nat), q_pow(df, (t + 1) as nat)));
                        assert(1 <= (t + 1) as nat <= n_periods(b));
                        assert(!pow_sum_fits(df, n_periods(b)));
                        assert(!cp_ok(b));
                    }
                    return Err(BondError::Overflow);
                },
            };
            qt = qn;
            acc = an;
            t = t + 1;
        }
        let cp = match c.mul(&acc) {
            Some(v) => v,
            None => return Err(BondError::Overflow),
        };
        Ok(cp)
    }

    fn present_value(&self) -> (r: Result<Rat, BondError>) {
        let cp = match self.coupon_payment() {
            Ok(v) => v,
            Err(e) => return Err(e),
        };
        let ear = match self.effective_annual_rate() {
            Ok(v) => v,
            Err(e) => return Err(e),
        };
        let one = Rat::from_int(1);
        let oe = match one.add(&ear) {
            Some(v) => v,
            None => return Err(BondError::Overflow),
        };
        proof {
            let pp = spec_periods(self@.freq) as nat;
            lemma_growth_components(self@);
            lemma_q_pow_pos(growth(self@), pp);
            assert(oe@.n == q_pow(growth(self@), pp).n);
        }
        let powm = match oe.pow(self.maturity) {
            Some(v) => v,
            None => return Err(BondError::Overflow),
        };
        proof {
            lemma_q_pow_pos(one_plus_ear(self@), self@.maturity as nat);
        }
        let ft = match self.face_value.div(&powm) {
            Some(v) => v,
            None => return Err(BondError::Overflow),
        };
        let pv = match cp.add(&ft) {
            Some(v) => v,
            None => return Err(BondError::Overflow),
        };
        Ok(pv)
    }

    fn holding_period_return(&self) -> (r: Result<Rat, BondError>) {
        let bp = match &self.buying_price {
            Some(p) => *p,
            None => return Err(BondError::MissingInput),
        };
        let sp = match &self.current_selling_price {
            Some(p) => *p,
            None => return Err(BondError::MissingInput),
        };
        let cp = match self.coupon_payment() {
            Ok(v) => v,
            Err(e) => return Err(e),
        };
        let one = Rat::from_int(1);
        let hundred = Rat::from_int(100);
        let total = match sp.add(&cp) {
            Some(v) => v,
            None => return Err(BondError::Overflow),
        };
        let ratio = match total.div(&bp) {
            Some(v) => v,
            None => return Err(BondError::Overflow),
        };
        let excess = match ratio.sub(&one) {
            Some(v) => v,
            None => return Err(BondError::Overflow),
        };
        let res = match hundred.mul(&excess) {
            Some(v) => v,
            None => return Err(BondError::Overflow),
        };
        Ok(res)
    }

    fn yield_to_maturity(&self) -> (r: Result<YieldRoot, BondError>) {
        let sp = match &self.current_selling_price {
            Some(p) => *p,
            None => return Err(BondError::MissingInput),
        };
        let ratio = match self.face_value.div(&sp) {
            Some(v) => v,
            None => return Err(BondError::Overflow),
        };
        Ok(YieldRoot { ratio, years: self.maturity })
    }
}

} // verus!
